//! The byte classes of the program text, and the runs of bytes of one class.
//!
//! The functions that recognise a class or a run are those of `nom`; what
//! this module believes of them is stated on the items that call them.
use nom::types::CompleteByteSlice;
use vstd::prelude::*;
use vstd::slice::slice_subrange;

verus! {

/// A class of bytes.
#[derive(Debug, Copy, Clone, PartialEq, Eq, Structural)]
pub enum Class {
    /// A space or a tab.
    Blank,
    /// A space, a tab, a carriage return or a line feed.
    White,
    /// An ASCII decimal digit.
    Digit,
    /// An ASCII letter or decimal digit.
    Alnum,
}

/// Whether a byte is an ASCII decimal digit.
pub open spec fn is_digit_byte(b: u8) -> bool {
    0x30 <= b <= 0x39
}

/// Whether a byte is an ASCII letter.
pub open spec fn is_letter_byte(b: u8) -> bool {
    (0x41 <= b <= 0x5a) || (0x61 <= b <= 0x7a)
}

impl Class {
    /// Whether `b` belongs to the class.
    pub open spec fn holds(self, b: u8) -> bool {
        match self {
            Class::Blank => b == 0x20 || b == 0x09,
            Class::White => b == 0x20 || b == 0x09 || b == 0x0d || b == 0x0a,
            Class::Digit => is_digit_byte(b),
            Class::Alnum => is_letter_byte(b) || is_digit_byte(b),
        }
    }

    /// Where the run of bytes of the class that starts at `from` ends: the
    /// first position at or after `from` that holds no byte of the class.
    pub open spec fn run_end(self, s: Seq<u8>, from: int) -> int
        decreases s.len() - from,
    {
        if 0 <= from < s.len() && self.holds(s[from]) {
            self.run_end(s, from + 1)
        } else {
            from
        }
    }

    /// The longest prefix of `s` made of bytes of the class.
    pub open spec fn lead(self, s: Seq<u8>) -> Seq<u8> {
        s.take(self.run_end(s, 0))
    }
}

/// A run ends within the text, holds only bytes of its class, and cannot be
/// made longer.
pub proof fn lemma_run_end(class: Class, s: Seq<u8>, from: int)
    requires
        0 <= from <= s.len(),
    ensures
        from <= class.run_end(s, from) <= s.len(),
        forall|j: int| from <= j < class.run_end(s, from) ==> class.holds(#[trigger] s[j]),
        class.run_end(s, from) < s.len() ==> !class.holds(s[class.run_end(s, from)]),
    decreases s.len() - from,
{
    if from < s.len() && class.holds(s[from]) {
        lemma_run_end(class, s, from + 1);
    }
}

/// A position that the bytes of the class reach from `from`, and that holds
/// none itself, is where the run ends.
pub proof fn lemma_run_end_is(class: Class, s: Seq<u8>, from: int, end: int)
    requires
        0 <= from <= end <= s.len(),
        forall|j: int| from <= j < end ==> class.holds(#[trigger] s[j]),
        end < s.len() ==> !class.holds(s[end]),
    ensures
        class.run_end(s, from) == end,
    decreases end - from,
{
    if from < end {
        lemma_run_end_is(class, s, from + 1, end);
    }
}

/// A run in the rest of the text is the run in the whole text, moved.
pub proof fn lemma_run_end_of_rest(class: Class, s: Seq<u8>, at: int)
    requires
        0 <= at <= s.len(),
    ensures
        class.run_end(s, at) == at + class.run_end(s.subrange(at, s.len() as int), 0),
{
    let rest = s.subrange(at, s.len() as int);
    lemma_run_end(class, rest, 0);
    let n = class.run_end(rest, 0);
    assert forall|j: int| at <= j < at + n implies class.holds(#[trigger] s[j]) by {
        assert(s[j] == rest[j - at]);
    }
    if at + n < s.len() {
        assert(s[at + n] == rest[n]);
    }
    lemma_run_end_is(class, s, at, at + n);
}

/// `nom::is_digit`: true for the bytes `0` to `9` and for no other.
pub assume_specification[ nom::is_digit ](chr: u8) -> (r: bool)
    ensures
        r == Class::Digit.holds(chr),
;

/// `nom::is_alphanumeric`: true for the ASCII letters and the bytes `0` to
/// `9`, and for no other byte.
pub assume_specification[ nom::is_alphanumeric ](chr: u8) -> (r: bool)
    ensures
        r == Class::Alnum.holds(chr),
;

/// `nom::digit` on a complete byte slice: the longest prefix made of the
/// bytes `0` to `9`, and an error where that prefix is empty.
#[verifier::external_body]
pub(crate) fn digit<'a>(input: &'a [u8]) -> (found: Option<&'a [u8]>)
    ensures
        match found {
            Some(run) => run@ == Class::Digit.lead(input@) && run@.len() > 0,
            None => Class::Digit.lead(input@).len() == 0,
        },
{
    match nom::digit(CompleteByteSlice(input)) {
        Ok((_, run)) => Some(run.0),
        Err(_) => None,
    }
}

/// `nom::space` on a complete byte slice: the longest prefix made of spaces
/// and tabs, and an error where that prefix is empty.
#[verifier::external_body]
pub(crate) fn space<'a>(input: &'a [u8]) -> (found: Option<&'a [u8]>)
    ensures
        match found {
            Some(run) => run@ == Class::Blank.lead(input@) && run@.len() > 0,
            None => Class::Blank.lead(input@).len() == 0,
        },
{
    match nom::space(CompleteByteSlice(input)) {
        Ok((_, run)) => Some(run.0),
        Err(_) => None,
    }
}

/// `nom::multispace` on a complete byte slice: the longest prefix made of
/// spaces, tabs, carriage returns and line feeds, and an error where that
/// prefix is empty.
#[verifier::external_body]
pub(crate) fn multispace<'a>(input: &'a [u8]) -> (found: Option<&'a [u8]>)
    ensures
        match found {
            Some(run) => run@ == Class::White.lead(input@) && run@.len() > 0,
            None => Class::White.lead(input@).len() == 0,
        },
{
    match nom::multispace(CompleteByteSlice(input)) {
        Ok((_, run)) => Some(run.0),
        Err(_) => None,
    }
}

/// `nom::sp` on a complete byte slice: the longest prefix made of spaces,
/// tabs, carriage returns and line feeds, which may be empty. On such a
/// slice it reports no error, so the second arm is never taken.
#[verifier::external_body]
pub(crate) fn sp<'a>(input: &'a [u8]) -> (run: &'a [u8])
    ensures
        run@ == Class::White.lead(input@),
{
    match nom::sp(CompleteByteSlice(input)) {
        Ok((_, run)) => run.0,
        Err(_) => input,
    }
}

/// The end of the run of spaces and tabs at `at`, if there is at least one.
pub fn blanks1(input: &[u8], at: usize) -> (end: Option<usize>)
    ensures
        match end {
            Some(e) => e == Class::Blank.run_end(input@, at as int) && at < e <= input@.len(),
            None => Class::Blank.run_end(input@, at as int) == at,
        },
{
    if at > input.len() {
        return None;
    }
    proof {
        lemma_run_end_of_rest(Class::Blank, input@, at as int);
        lemma_run_end(Class::Blank, input@, at as int);
    }
    match space(slice_subrange(input, at, input.len())) {
        Some(run) => Some(at + run.len()),
        None => None,
    }
}

/// The end of the run of white space at `at`, if there is at least one byte
/// of it.
pub fn whites1(input: &[u8], at: usize) -> (end: Option<usize>)
    ensures
        match end {
            Some(e) => e == Class::White.run_end(input@, at as int) && at < e <= input@.len(),
            None => Class::White.run_end(input@, at as int) == at,
        },
{
    if at > input.len() {
        return None;
    }
    proof {
        lemma_run_end_of_rest(Class::White, input@, at as int);
        lemma_run_end(Class::White, input@, at as int);
    }
    match multispace(slice_subrange(input, at, input.len())) {
        Some(run) => Some(at + run.len()),
        None => None,
    }
}

/// The end of the run of white space at `at`, which may be empty.
pub fn whites(input: &[u8], at: usize) -> (end: usize)
    ensures
        end == Class::White.run_end(input@, at as int),
        at <= end,
        at <= input@.len() ==> end <= input@.len(),
{
    if at > input.len() {
        return at;
    }
    proof {
        lemma_run_end_of_rest(Class::White, input@, at as int);
        lemma_run_end(Class::White, input@, at as int);
    }
    let run = sp(slice_subrange(input, at, input.len()));
    at + run.len()
}

/// The end of the run of digits at `at`, if there is at least one.
pub fn digits1(input: &[u8], at: usize) -> (end: Option<usize>)
    ensures
        match end {
            Some(e) => e == Class::Digit.run_end(input@, at as int) && at < e <= input@.len(),
            None => Class::Digit.run_end(input@, at as int) == at,
        },
{
    if at > input.len() {
        return None;
    }
    proof {
        lemma_run_end_of_rest(Class::Digit, input@, at as int);
        lemma_run_end(Class::Digit, input@, at as int);
    }
    match digit(slice_subrange(input, at, input.len())) {
        Some(run) => Some(at + run.len()),
        None => None,
    }
}

/// The end of the run of digits at `at`, which may be empty.
pub fn take_while_digit(input: &[u8], at: usize) -> (end: usize)
    ensures
        end == Class::Digit.run_end(input@, at as int),
        at <= end,
        at <= input@.len() ==> end <= input@.len(),
{
    if at > input.len() {
        return at;
    }
    let mut end = at;
    while end < input.len() && nom::is_digit(input[end])
        invariant
            at <= end <= input@.len(),
            forall|j: int| at <= j < end ==> Class::Digit.holds(#[trigger] input@[j]),
        decreases input@.len() - end,
    {
        end += 1;
    }
    proof {
        lemma_run_end_is(Class::Digit, input@, at as int, end as int);
    }
    end
}

/// The end of the run of letters and digits at `at`, which may be empty.
pub fn take_while_alphanumeric(input: &[u8], at: usize) -> (end: usize)
    ensures
        end == Class::Alnum.run_end(input@, at as int),
        at <= end,
        at <= input@.len() ==> end <= input@.len(),
{
    if at > input.len() {
        return at;
    }
    let mut end = at;
    while end < input.len() && nom::is_alphanumeric(input[end])
        invariant
            at <= end <= input@.len(),
            forall|j: int| at <= j < end ==> Class::Alnum.holds(#[trigger] input@[j]),
        decreases input@.len() - end,
    {
        end += 1;
    }
    proof {
        lemma_run_end_is(Class::Alnum, input@, at as int, end as int);
    }
    end
}

} // verus!
