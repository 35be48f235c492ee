//! Names for the image files of problems.

use vstd::prelude::*;
use vstd::string::StringExecFns;
use crate::ident::{push_signed_decimal, signed_decimal};
use crate::timestamp::Timestamp;

verus! {

/// The name under which an image of a problem is kept: the problem's
/// identifier, the seconds of the time it was saved at, and the extension.
pub open spec fn image_name(problem_id: Seq<char>, secs: int, extension: Seq<char>) -> Seq<char> {
    problem_id + seq!['_'] + signed_decimal(secs) + seq!['.'] + extension
}

/// Names the file for an image of a problem saved at `now`.
pub fn image_file_name(problem_id: &str, now: &Timestamp, extension: &str) -> (name: String)
    ensures
        name@ == image_name(problem_id@, now@.secs, extension@),
{
    let mut name = String::from_str(problem_id);
    name.push('_');
    push_signed_decimal(&mut name, now.unix());
    name.push('.');
    name.append(extension);
    assert(name@ =~= image_name(problem_id@, now@.secs, extension@));
    name
}

} // verus!
