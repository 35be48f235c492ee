//! Character and string primitives of the standard library that the rules
//! of this crate are phrased in.

use vstd::prelude::*;

verus! {

/// The text that `str::trim` returns for `text`: `text` without its leading
/// and trailing whitespace.
pub uninterp spec fn trimmed(text: Seq<char>) -> Seq<char>;

/// Whether `char::is_alphabetic` holds of `c`.
pub uninterp spec fn alphabetic(c: char) -> bool;

/// The text that `str::to_uppercase` returns for `text`.
pub uninterp spec fn uppercased(text: Seq<char>) -> Seq<char>;

/// `str::trim`: the result is the trimmed text, whatever that is.
pub assume_specification<'a>[ str::trim ](text: &'a str) -> (r: &'a str)
    ensures
        r@ == trimmed(text@),
;

/// `char::is_alphabetic`: the result is the character's alphabetic property.
pub assume_specification[ char::is_alphabetic ](c: char) -> (r: bool)
    ensures
        r == alphabetic(c),
;

/// `str::to_uppercase`: the result is the uppercase form of the text.
pub assume_specification[ str::to_uppercase ](text: &str) -> (r: String)
    ensures
        r@ == uppercased(text@),
;

/// `String::push`: the character is appended at the end.
pub assume_specification[ String::push ](text: &mut String, c: char)
    ensures
        final(text)@ == old(text)@.push(c),
;

/// `str == str`: two texts are equal when they hold the same characters.
pub assume_specification[ <str as PartialEq>::eq ](a: &str, b: &str) -> (r: bool)
    ensures
        r == (a@ == b@),
;

/// A text is blank when nothing is left of it after trimming.
pub open spec fn blank(text: Seq<char>) -> bool {
    trimmed(text).len() == 0
}

/// Tells whether `text` is empty or holds whitespace only.
pub fn is_blank(text: &str) -> (b: bool)
    ensures
        b == blank(text@),
{
    text.trim().is_empty()
}

/// The order of texts: character by character, by code point; a text
/// comes before every longer text that begins with it.
pub open spec fn precedes(a: Seq<char>, b: Seq<char>) -> bool
    decreases a.len(),
{
    if b.len() == 0 {
        false
    } else if a.len() == 0 {
        true
    } else if a[0] != b[0] {
        (a[0] as u32) < (b[0] as u32)
    } else {
        precedes(a.drop_first(), b.drop_first())
    }
}

/// Of two different texts one comes before the other, and never both.
pub proof fn lemma_precedes_total(a: Seq<char>, b: Seq<char>)
    ensures
        a == b || precedes(a, b) || precedes(b, a),
        !(precedes(a, b) && precedes(b, a)),
        a == b ==> !precedes(a, b),
    decreases a.len(),
{
    if a.len() == 0 && b.len() == 0 {
        assert(a =~= b);
    } else if a.len() == 0 || b.len() == 0 {
    } else if a[0] == b[0] {
        lemma_precedes_total(a.drop_first(), b.drop_first());
        if a.drop_first() == b.drop_first() {
            assert(a =~= seq![a[0]] + a.drop_first());
            assert(b =~= seq![b[0]] + b.drop_first());
        }
    } else {
        vstd::utf8::char_u32_cast(a[0], a[0] as u32);
        vstd::utf8::char_u32_cast(b[0], b[0] as u32);
    }
}

/// What comes before a text comes before everything after that text.
pub proof fn lemma_precedes_transitive(a: Seq<char>, b: Seq<char>, c: Seq<char>)
    requires
        precedes(a, b),
        precedes(b, c),
    ensures
        precedes(a, c),
    decreases a.len(),
{
    if a.len() > 0 && a[0] == b[0] && b[0] == c[0] {
        lemma_precedes_transitive(a.drop_first(), b.drop_first(), c.drop_first());
    }
}

/// `str < str`: the standard library orders texts by their bytes, which is
/// the order of their code points.
#[verifier::external_body]
pub(crate) fn text_before(a: &str, b: &str) -> (r: bool)
    ensures
        r == precedes(a@, b@),
{
    a < b
}

} // verus!
