//! Display identifiers of problems: a prefix drawn from the subject's name
//! and a running number.

use vstd::prelude::*;
use vstd::string::StringExecFns;
use crate::model::{display_id_taken, Entry, ProblemData};
use crate::store::Store;
use crate::text::{alphabetic, uppercased};
use crate::timestamp::Timestamp;

verus! {

/// The first `limit` alphabetic characters of `text`, in order.
pub open spec fn leading_letters(text: Seq<char>, limit: nat) -> Seq<char>
    decreases text.len(),
{
    if text.len() == 0 || limit == 0 {
        Seq::empty()
    } else if alphabetic(text[0]) {
        seq![text[0]] + leading_letters(text.drop_first(), (limit - 1) as nat)
    } else {
        leading_letters(text.drop_first(), limit)
    }
}

fn take_letters(text: &str) -> (r: String)
    ensures
        r@ == leading_letters(text@, 4),
{
    let mut out = String::new();
    let mut taken: usize = 0;
    let count = text.unicode_len();
    let mut at: usize = 0;
    assert(text@.skip(0) =~= text@);
    while at < count && taken < 4
        invariant
            count == text@.len(),
            at <= count,
            taken <= 4,
            leading_letters(text@, 4) == out@ + leading_letters(
                text@.skip(at as int),
                (4 - taken) as nat,
            ),
        decreases count - at,
    {
        let c = text.get_char(at);
        let ghost prior = out@;
        assert(text@.skip(at as int).drop_first() =~= text@.skip(at + 1));
        if c.is_alphabetic() {
            out.push(c);
            taken = taken + 1;
            assert(out@ + leading_letters(text@.skip(at + 1), (4 - taken) as nat) =~= prior
                + leading_letters(text@.skip(at as int), (4 - (taken - 1)) as nat));
        }
        at = at + 1;
    }
    assert(out@ + Seq::<char>::empty() =~= out@);
    out
}

/// The prefix of the display identifiers of a subject: its first four
/// alphabetic characters in upper case, or `PROB` where it has none.
pub open spec fn id_prefix(subject: Seq<char>) -> Seq<char> {
    let letters = uppercased(leading_letters(subject, 4));
    if letters.len() == 0 {
        "PROB"@
    } else {
        letters
    }
}

/// Derives the prefix of a subject's display identifiers.
pub fn subject_prefix(subject_name: &str) -> (prefix: String)
    ensures
        prefix@ == id_prefix(subject_name@),
{
    let letters = take_letters(subject_name).as_str().to_uppercase();
    if letters.as_str().is_empty() {
        String::from_str("PROB")
    } else {
        letters
    }
}

/// The character of a decimal digit.
pub open spec fn digit(value: int) -> char {
    if value == 0 {
        '0'
    } else if value == 1 {
        '1'
    } else if value == 2 {
        '2'
    } else if value == 3 {
        '3'
    } else if value == 4 {
        '4'
    } else if value == 5 {
        '5'
    } else if value == 6 {
        '6'
    } else if value == 7 {
        '7'
    } else if value == 8 {
        '8'
    } else {
        '9'
    }
}

/// A natural number in decimal, without leading zeros.
pub open spec fn decimal(n: nat) -> Seq<char>
    decreases n,
{
    if n < 10 {
        seq![digit(n as int)]
    } else {
        decimal(n / 10).push(digit((n % 10) as int))
    }
}

/// A natural number in decimal, with zeros in front up to three digits.
pub open spec fn padded(n: nat) -> Seq<char> {
    if n < 10 {
        seq!['0', '0'] + decimal(n)
    } else if n < 100 {
        seq!['0'] + decimal(n)
    } else {
        decimal(n)
    }
}

/// An integer in decimal, with a minus sign where it is negative.
pub open spec fn signed_decimal(n: int) -> Seq<char> {
    if n < 0 {
        seq!['-'] + decimal((-n) as nat)
    } else {
        decimal(n as nat)
    }
}

/// The display identifier with a running number: `PREFIX_NNN`.
pub open spec fn candidate_id(prefix: Seq<char>, number: nat) -> Seq<char> {
    prefix + seq!['_'] + padded(number)
}

/// The display identifier of last resort: the prefix and the seconds of
/// the current time.
pub open spec fn fallback_id(prefix: Seq<char>, secs: int) -> Seq<char> {
    prefix + seq!['_'] + signed_decimal(secs)
}

fn digit_char(value: u64) -> (c: char)
    requires
        value < 10,
    ensures
        c == digit(value as int),
{
    if value == 0 {
        '0'
    } else if value == 1 {
        '1'
    } else if value == 2 {
        '2'
    } else if value == 3 {
        '3'
    } else if value == 4 {
        '4'
    } else if value == 5 {
        '5'
    } else if value == 6 {
        '6'
    } else if value == 7 {
        '7'
    } else if value == 8 {
        '8'
    } else {
        '9'
    }
}

/// Appends a natural number in decimal.
pub fn push_decimal(out: &mut String, n: u64)
    ensures
        final(out)@ == old(out)@ + decimal(n as nat),
    decreases n,
{
    if n >= 10 {
        push_decimal(out, n / 10);
    }
    out.push(digit_char(n % 10));
    assert(out@ =~= old(out)@ + decimal(n as nat));
}

/// Writes the display identifier with a running number.
pub fn format_candidate(prefix: &str, number: u32) -> (id: String)
    ensures
        id@ == candidate_id(prefix@, number as nat),
{
    let mut id = String::from_str(prefix);
    id.push('_');
    if number < 10 {
        id.push('0');
        id.push('0');
    } else if number < 100 {
        id.push('0');
    }
    push_decimal(&mut id, number as u64);
    assert(id@ =~= candidate_id(prefix@, number as nat));
    id
}

/// Appends an integer in decimal, with a minus sign where it is negative.
pub fn push_signed_decimal(out: &mut String, n: i64)
    ensures
        final(out)@ == old(out)@ + signed_decimal(n as int),
{
    let magnitude: u64 = if n < 0 {
        out.push('-');
        (-(n + 1)) as u64 + 1
    } else {
        n as u64
    };
    push_decimal(out, magnitude);
    assert(out@ =~= old(out)@ + signed_decimal(n as int));
}

/// Writes the display identifier of last resort.
pub fn format_fallback(prefix: &str, secs: i64) -> (id: String)
    ensures
        id@ == fallback_id(prefix@, secs as int),
{
    let mut id = String::from_str(prefix);
    id.push('_');
    push_signed_decimal(&mut id, secs);
    assert(id@ =~= fallback_id(prefix@, secs as int));
    id
}

/// One more than the largest running number that is tried.
pub open spec fn probe_limit() -> nat {
    9999
}

/// The first running number from `from` on, below the limit, whose
/// identifier no problem carries.
pub open spec fn first_free(problems: Seq<Entry<ProblemData>>, prefix: Seq<char>, from: nat)
    -> Option<nat>
    decreases probe_limit() - from,
{
    if from >= probe_limit() {
        None
    } else if !display_id_taken(problems, candidate_id(prefix, from)) {
        Some(from)
    } else {
        first_free(problems, prefix, from + 1)
    }
}

/// The display identifier that a new problem of the subject receives: the
/// one with the first free running number from 1 on, or the identifier of
/// last resort where every number below the limit is taken.
pub open spec fn generated_id(problems: Seq<Entry<ProblemData>>, subject: Seq<char>, secs: int)
    -> Seq<char> {
    let prefix = id_prefix(subject);
    match first_free(problems, prefix, 1) {
        Some(number) => candidate_id(prefix, number),
        None => fallback_id(prefix, secs),
    }
}

/// The first free running number is free, lies within the limit, and every
/// number before it is taken; where there is none, every number is taken.
pub proof fn lemma_first_free(problems: Seq<Entry<ProblemData>>, prefix: Seq<char>, from: nat)
    ensures
        match first_free(problems, prefix, from) {
            Some(number) => {
                &&& from <= number < probe_limit()
                &&& !display_id_taken(problems, candidate_id(prefix, number))
                &&& forall|k: nat|
                    from <= k < number ==> display_id_taken(
                        problems,
                        #[trigger] candidate_id(prefix, k),
                    )
            },
            None => forall|k: nat|
                from <= k < probe_limit() ==> display_id_taken(
                    problems,
                    #[trigger] candidate_id(prefix, k),
                ),
        },
    decreases probe_limit() - from,
{
    if from < probe_limit() && display_id_taken(problems, candidate_id(prefix, from)) {
        lemma_first_free(problems, prefix, from + 1);
    }
}

/// Produces the display identifier for a new problem of a subject: probes
/// the running numbers from 1 upwards and takes the first whose identifier
/// no problem carries; falls back on the seconds of `now` where all are taken.
pub fn generate_problem_id(store: &Store, subject_name: &str, now: &Timestamp) -> (id: String)
    ensures
        id@ == generated_id(store@.problems, subject_name@, now@.secs),
{
    let prefix = subject_prefix(subject_name);
    let mut number: u32 = 1;
    while number < 9999
        invariant
            1 <= number <= 9999,
            prefix@ == id_prefix(subject_name@),
            first_free(store@.problems, prefix@, 1) == first_free(
                store@.problems,
                prefix@,
                number as nat,
            ),
        decreases 9999 - number,
    {
        let candidate = format_candidate(prefix.as_str(), number);
        if !store.has_display_id(candidate.as_str()) {
            return candidate;
        }
        number = number + 1;
    }
    format_fallback(prefix.as_str(), now.unix())
}

} // verus!
