//! Reading a program text: from bytes to statements, from statements to
//! instructions.
use crate::assembler::{assemble, instructions_of, words_in};
use crate::grammar::{
    add_at, addr_at, ascii, bump_down_at, bump_up_at, comment_at, copy_from_at, copy_to_at,
    decimal, doc_comment_at, filler_at, hrm_sep_end, inoutbox_at, jump_at, jumpn_at, jumpz_at,
    keyword_at, label_at, line_end, number_at, operand_at, statement_at, sub_at, tag_at,
    target_at, token_at, tokens_end, tokens_from, usize_of, words_of, Word,
};
use crate::lex::{
    blanks1, digits1, take_while_alphanumeric, take_while_digit, whites, whites1, Class,
};
use crate::op::{Addr, Instr};
use vstd::prelude::*;
use vstd::slice::slice_subrange;
use vstd::string::{is_ascii_spec_bytes, StringSliceAdditionalSpecFns};

verus! {

/// One statement of a text. A name borrows its bytes from the text.
#[derive(Debug, Copy, Clone, PartialEq, Eq)]
pub enum Token<'a> {
    Inbox,
    Outbox,
    Label(&'a [u8]),
    CopyTo(Addr),
    CopyFrom(Addr),
    Add(Addr),
    Sub(Addr),
    BumpUp(Addr),
    BumpDown(Addr),
    Jump(&'a [u8]),
    JumpZero(&'a [u8]),
    JumpNeg(&'a [u8]),
}

impl<'a> View for Token<'a> {
    type V = Word;

    open spec fn view(&self) -> Word {
        match *self {
            Token::Inbox => Word::Inbox,
            Token::Outbox => Word::Outbox,
            Token::Label(name) => Word::Label(name@),
            Token::CopyTo(a) => Word::CopyTo(a),
            Token::CopyFrom(a) => Word::CopyFrom(a),
            Token::Add(a) => Word::Add(a),
            Token::Sub(a) => Word::Sub(a),
            Token::BumpUp(a) => Word::BumpUp(a),
            Token::BumpDown(a) => Word::BumpDown(a),
            Token::Jump(name) => Word::Jump(name@),
            Token::JumpZero(name) => Word::JumpZero(name@),
            Token::JumpNeg(name) => Word::JumpNeg(name@),
        }
    }
}

/// Whether a position and a reading of the text agree: none on both sides,
/// or the same position.
pub open spec fn same_end(found: Option<usize>, read: Option<int>) -> bool {
    match found {
        Some(end) => read == Some(end as int),
        None => read is None,
    }
}

/// Whether a token with its end and a reading of the text agree.
pub open spec fn same_token(found: Option<(Token<'_>, usize)>, read: Option<(Word, int)>) -> bool {
    match found {
        Some((token, end)) => read == Some((token@, end as int)),
        None => read is None,
    }
}

/// Whether an operand with its end and a reading of the text agree.
pub open spec fn same_addr(found: Option<(Addr, usize)>, read: Option<(Addr, int)>) -> bool {
    match found {
        Some((a, end)) => read == Some((a, end as int)),
        None => read is None,
    }
}

/// The position after `word` at `at`, if the text goes on with it there.
pub(crate) fn tag(input: &[u8], at: usize, word: &str) -> (end: Option<usize>)
    requires
        word.is_ascii(),
    ensures
        same_end(end, tag_at(input@, at as int, ascii(word@))),
        end matches Some(e) ==> e <= input@.len(),
{
    broadcast use is_ascii_spec_bytes;

    let letters = word.as_bytes();
    assert(letters@ == ascii(word@));
    if letters.len() > input.len() || at > input.len() - letters.len() {
        return None;
    }
    let mut i: usize = 0;
    while i < letters.len()
        invariant
            i <= letters@.len(),
            at + letters@.len() <= input@.len() <= usize::MAX,
            letters@ == ascii(word@),
            forall|j: int| 0 <= j < i ==> input@[at + j] == letters@[j],
        decreases letters@.len() - i,
    {
        if input[at + i] != letters[i] {
            proof {
                let there = input@.subrange(at as int, at + letters@.len());
                assert(there[i as int] != letters@[i as int]);
            }
            return None;
        }
        i += 1;
    }
    assert(input@.subrange(at as int, at + letters@.len()) =~= letters@);
    Some(at + letters.len())
}

/// The end of the line that `from` lies in: the position after the first
/// line feed at or after `from`, or the end of the text.
pub fn skip_line(input: &[u8], from: usize) -> (end: usize)
    ensures
        end == line_end(input@, from as int),
        from <= end,
        from <= input@.len() ==> end <= input@.len(),
{
    let mut i = from;
    while i < input.len()
        invariant
            from <= i,
            from <= input@.len() ==> i <= input@.len(),
            line_end(input@, from as int) == line_end(input@, i as int),
        decreases input@.len() - i,
    {
        if input[i] == 0x0a {
            return i + 1;
        }
        i += 1;
    }
    i
}

/// The position after a `--` line at `at`.
pub fn doc_comment(input: &[u8], at: usize) -> (end: Option<usize>)
    ensures
        same_end(end, doc_comment_at(input@, at as int)),
        end matches Some(e) ==> at < e <= input@.len(),
{
    proof {
        reveal_strlit("--");
    }
    match tag(input, at, "--") {
        Some(after) => Some(skip_line(input, after)),
        None => None,
    }
}

/// The position after `word` and the spaces or tabs behind it.
pub(crate) fn keyword(input: &[u8], at: usize, word: &str) -> (end: Option<usize>)
    requires
        word.is_ascii(),
    ensures
        same_end(end, keyword_at(input@, at as int, ascii(word@))),
        end matches Some(e) ==> at < e <= input@.len(),
{
    match tag(input, at, word) {
        Some(after) => blanks1(input, after),
        None => None,
    }
}

/// The position after a `COMMENT` line at `at`.
pub fn comment(input: &[u8], at: usize) -> (end: Option<usize>)
    ensures
        same_end(end, comment_at(input@, at as int)),
        end matches Some(e) ==> at < e <= input@.len(),
{
    proof {
        reveal_strlit("COMMENT");
    }
    match keyword(input, at, "COMMENT") {
        Some(after) => Some(skip_line(input, take_while_digit(input, after))),
        None => None,
    }
}

/// The position after one run of white space, `--` line or `COMMENT` line
/// at `at`.
pub fn filler(input: &[u8], at: usize) -> (end: Option<usize>)
    ensures
        same_end(end, filler_at(input@, at as int)),
        end matches Some(e) ==> at < e <= input@.len(),
{
    let found = whites1(input, at);
    if found.is_some() {
        return found;
    }
    let found = doc_comment(input, at);
    if found.is_some() {
        return found;
    }
    comment(input, at)
}

/// The end of all that stands at `at` and says nothing: white space, `--`
/// lines and `COMMENT` lines.
pub fn hrm_sep(input: &[u8], at: usize) -> (end: usize)
    ensures
        end == hrm_sep_end(input@, at as int),
        at <= end,
        at <= input@.len() ==> end <= input@.len(),
{
    let mut pos = at;
    loop
        invariant
            at <= pos,
            at <= input@.len() ==> pos <= input@.len(),
            hrm_sep_end(input@, at as int) == hrm_sep_end(input@, pos as int),
        decreases input@.len() - pos,
    {
        match filler(input, pos) {
            Some(end) => {
                pos = end;
            },
            None => {
                return pos;
            },
        }
    }
}

/// Digits that come first write a number no greater than the whole run.
pub proof fn lemma_decimal_grows(digits: Seq<u8>, k: int)
    requires
        0 <= k <= digits.len(),
        forall|i: int| 0 <= i < digits.len() ==> Class::Digit.holds(#[trigger] digits[i]),
    ensures
        decimal(digits.take(k)) <= decimal(digits),
    decreases digits.len() - k,
{
    if k == digits.len() {
        assert(digits.take(k) =~= digits);
    } else {
        lemma_decimal_grows(digits, k + 1);
        let longer = digits.take(k + 1);
        assert(longer.drop_last() =~= digits.take(k));
        assert(Class::Digit.holds(digits[k]));
        assert(longer.last() == digits[k]);
    }
}

/// The number that `digits` writes; none if they are not decimal digits,
/// if there is none, or if the number is too large for a `usize`.
pub fn to_usize(digits: &[u8]) -> (n: Option<usize>)
    ensures
        n == usize_of(digits@),
{
    if digits.len() == 0 {
        return None;
    }
    let mut value: usize = 0;
    let mut i: usize = 0;
    while i < digits.len()
        invariant
            i <= digits@.len(),
            forall|j: int| 0 <= j < i ==> Class::Digit.holds(#[trigger] digits@[j]),
            value == decimal(digits@.take(i as int)),
        decreases digits@.len() - i,
    {
        let b = digits[i];
        if !nom::is_digit(b) {
            return None;
        }
        proof {
            let longer = digits@.take(i + 1);
            assert(longer.drop_last() =~= digits@.take(i as int));
            assert(longer.last() == b);
            if forall|j: int| 0 <= j < digits@.len() ==> Class::Digit.holds(#[trigger] digits@[j]) {
                lemma_decimal_grows(digits@, i + 1);
            }
        }
        let digit: usize = (b - 0x30) as usize;
        let tens = match value.checked_mul(10) {
            Some(t) => t,
            None => {
                return None;
            },
        };
        value = match tens.checked_add(digit) {
            Some(v) => v,
            None => {
                return None;
            },
        };
        i += 1;
    }
    assert(digits@.take(i as int) =~= digits@);
    Some(value)
}

/// The number written at `at`, and the position after it.
pub fn number(input: &[u8], at: usize) -> (found: Option<(usize, usize)>)
    ensures
        match found {
            Some((n, end)) => number_at(input@, at as int) == Some((n, end as int)),
            None => number_at(input@, at as int) is None,
        },
        found matches Some((_, e)) ==> at < e <= input@.len(),
{
    let end = match digits1(input, at) {
        Some(end) => end,
        None => {
            return None;
        },
    };
    match to_usize(slice_subrange(input, at, end)) {
        Some(n) => Some((n, end)),
        None => None,
    }
}

/// The operand at `at`, and the position after it.
pub fn addr(input: &[u8], at: usize) -> (found: Option<(Addr, usize)>)
    ensures
        same_addr(found, addr_at(input@, at as int)),
        found matches Some((_, e)) ==> at < e <= input@.len(),
{
    match number(input, at) {
        Some((n, end)) => {
            return Some((Addr::Direct(n), end));
        },
        None => {},
    }
    if at >= input.len() || input[at] != 0x5b {
        return None;
    }
    match number(input, at + 1) {
        Some((n, end)) => {
            if end < input.len() && input[end] == 0x5d {
                Some((Addr::Ref(n), end + 1))
            } else {
                None
            }
        },
        None => None,
    }
}

/// A label definition at `at`, and the position after its colon.
pub fn label<'a>(input: &'a [u8], at: usize) -> (found: Option<(Token<'a>, usize)>)
    ensures
        same_token(found, label_at(input@, at as int)),
        found matches Some((_, e)) ==> at < e <= input@.len(),
{
    let end = take_while_alphanumeric(input, at);
    if end < input.len() && input[end] == 0x3a {
        Some((Token::Label(slice_subrange(input, at, end)), end + 1))
    } else {
        None
    }
}

/// `INBOX` or `OUTBOX` at `at`, and the position after it.
pub fn inoutbox<'a>(input: &'a [u8], at: usize) -> (found: Option<(Token<'a>, usize)>)
    ensures
        same_token(found, inoutbox_at(input@, at as int)),
        found matches Some((_, e)) ==> at < e <= input@.len(),
{
    proof {
        reveal_strlit("INBOX");
        reveal_strlit("OUTBOX");
    }
    match tag(input, at, "INBOX") {
        Some(end) => {
            return Some((Token::Inbox, end));
        },
        None => {},
    }
    match tag(input, at, "OUTBOX") {
        Some(end) => Some((Token::Outbox, end)),
        None => None,
    }
}

/// The label named behind the jump keyword `word` at `at`, and the position
/// after it.
pub(crate) fn target<'a>(input: &'a [u8], at: usize, word: &str) -> (found: Option<
    (&'a [u8], usize),
>)
    requires
        word.is_ascii(),
    ensures
        match found {
            Some((name, end)) => target_at(input@, at as int, ascii(word@)) == Some(
                (name@, end as int),
            ),
            None => target_at(input@, at as int, ascii(word@)) is None,
        },
        found matches Some((_, e)) ==> at < e <= input@.len(),
{
    match keyword(input, at, word) {
        Some(from) => {
            let end = take_while_alphanumeric(input, from);
            Some((slice_subrange(input, from, end), end))
        },
        None => None,
    }
}

/// The operand behind the keyword `word` at `at`, and the position after it.
pub(crate) fn operand(input: &[u8], at: usize, word: &str) -> (found: Option<(Addr, usize)>)
    requires
        word.is_ascii(),
    ensures
        same_addr(found, operand_at(input@, at as int, ascii(word@))),
        found matches Some((_, e)) ==> at < e <= input@.len(),
{
    match keyword(input, at, word) {
        Some(from) => addr(input, from),
        None => None,
    }
}

/// `JUMP label` at `at`.
pub fn jump<'a>(input: &'a [u8], at: usize) -> (found: Option<(Token<'a>, usize)>)
    ensures
        same_token(found, jump_at(input@, at as int)),
        found matches Some((_, e)) ==> at < e <= input@.len(),
{
    proof {
        reveal_strlit("JUMP");
    }
    match target(input, at, "JUMP") {
        Some((name, end)) => Some((Token::Jump(name), end)),
        None => None,
    }
}

/// `JUMPN label` at `at`.
pub fn jumpn<'a>(input: &'a [u8], at: usize) -> (found: Option<(Token<'a>, usize)>)
    ensures
        same_token(found, jumpn_at(input@, at as int)),
        found matches Some((_, e)) ==> at < e <= input@.len(),
{
    proof {
        reveal_strlit("JUMPN");
    }
    match target(input, at, "JUMPN") {
        Some((name, end)) => Some((Token::JumpNeg(name), end)),
        None => None,
    }
}

/// `JUMPZ label` at `at`.
pub fn jumpz<'a>(input: &'a [u8], at: usize) -> (found: Option<(Token<'a>, usize)>)
    ensures
        same_token(found, jumpz_at(input@, at as int)),
        found matches Some((_, e)) ==> at < e <= input@.len(),
{
    proof {
        reveal_strlit("JUMPZ");
    }
    match target(input, at, "JUMPZ") {
        Some((name, end)) => Some((Token::JumpZero(name), end)),
        None => None,
    }
}

/// `COPYTO addr` at `at`.
pub fn copy_to<'a>(input: &'a [u8], at: usize) -> (found: Option<(Token<'a>, usize)>)
    ensures
        same_token(found, copy_to_at(input@, at as int)),
        found matches Some((_, e)) ==> at < e <= input@.len(),
{
    proof {
        reveal_strlit("COPYTO");
    }
    match operand(input, at, "COPYTO") {
        Some((a, end)) => Some((Token::CopyTo(a), end)),
        None => None,
    }
}

/// `COPYFROM addr` at `at`.
pub fn copy_from<'a>(input: &'a [u8], at: usize) -> (found: Option<(Token<'a>, usize)>)
    ensures
        same_token(found, copy_from_at(input@, at as int)),
        found matches Some((_, e)) ==> at < e <= input@.len(),
{
    proof {
        reveal_strlit("COPYFROM");
    }
    match operand(input, at, "COPYFROM") {
        Some((a, end)) => Some((Token::CopyFrom(a), end)),
        None => None,
    }
}

/// `ADD addr` at `at`.
pub fn add<'a>(input: &'a [u8], at: usize) -> (found: Option<(Token<'a>, usize)>)
    ensures
        same_token(found, add_at(input@, at as int)),
        found matches Some((_, e)) ==> at < e <= input@.len(),
{
    proof {
        reveal_strlit("ADD");
    }
    match operand(input, at, "ADD") {
        Some((a, end)) => Some((Token::Add(a), end)),
        None => None,
    }
}

/// `SUB addr` at `at`.
pub fn sub<'a>(input: &'a [u8], at: usize) -> (found: Option<(Token<'a>, usize)>)
    ensures
        same_token(found, sub_at(input@, at as int)),
        found matches Some((_, e)) ==> at < e <= input@.len(),
{
    proof {
        reveal_strlit("SUB");
    }
    match operand(input, at, "SUB") {
        Some((a, end)) => Some((Token::Sub(a), end)),
        None => None,
    }
}

/// `BUMPUP addr` at `at`.
pub fn bump_up<'a>(input: &'a [u8], at: usize) -> (found: Option<(Token<'a>, usize)>)
    ensures
        same_token(found, bump_up_at(input@, at as int)),
        found matches Some((_, e)) ==> at < e <= input@.len(),
{
    proof {
        reveal_strlit("BUMPUP");
    }
    match operand(input, at, "BUMPUP") {
        Some((a, end)) => Some((Token::BumpUp(a), end)),
        None => None,
    }
}

/// `BUMPDN addr` at `at`.
pub fn bump_down<'a>(input: &'a [u8], at: usize) -> (found: Option<(Token<'a>, usize)>)
    ensures
        same_token(found, bump_down_at(input@, at as int)),
        found matches Some((_, e)) ==> at < e <= input@.len(),
{
    proof {
        reveal_strlit("BUMPDN");
    }
    match operand(input, at, "BUMPDN") {
        Some((a, end)) => Some((Token::BumpDown(a), end)),
        None => None,
    }
}

/// The statement at `at`, and the position after it.
pub fn statement<'a>(input: &'a [u8], at: usize) -> (found: Option<(Token<'a>, usize)>)
    ensures
        same_token(found, statement_at(input@, at as int)),
        found matches Some((_, e)) ==> at < e <= input@.len(),
{
    let found = label(input, at);
    if found.is_some() {
        return found;
    }
    let found = inoutbox(input, at);
    if found.is_some() {
        return found;
    }
    let found = jump(input, at);
    if found.is_some() {
        return found;
    }
    let found = jumpn(input, at);
    if found.is_some() {
        return found;
    }
    let found = jumpz(input, at);
    if found.is_some() {
        return found;
    }
    let found = copy_to(input, at);
    if found.is_some() {
        return found;
    }
    let found = copy_from(input, at);
    if found.is_some() {
        return found;
    }
    let found = self::add(input, at);
    if found.is_some() {
        return found;
    }
    let found = self::sub(input, at);
    if found.is_some() {
        return found;
    }
    let found = bump_up(input, at);
    if found.is_some() {
        return found;
    }
    bump_down(input, at)
}

/// The statement that comes next at `at`, behind what says nothing, and
/// the position after it.
pub fn token<'a>(input: &'a [u8], at: usize) -> (found: Option<(Token<'a>, usize)>)
    ensures
        same_token(found, token_at(input@, at as int)),
        found matches Some((_, e)) ==> at < e <= input@.len(),
{
    statement(input, hrm_sep(input, at))
}

/// The statements from `at` on, and the position where reading stopped: the
/// first place, behind what says nothing, where no statement stands.
pub fn tokens<'a>(input: &'a [u8], at: usize) -> (found: (Vec<Token<'a>>, usize))
    ensures
        words_in(found.0@) == tokens_from(input@, at as int),
        found.1 == tokens_end(input@, at as int),
        at <= found.1,
        at <= input@.len() ==> found.1 <= input@.len(),
{
    let mut read: Vec<Token<'a>> = Vec::new();
    let mut pos = at;
    loop
        invariant
            at <= pos,
            at <= input@.len() ==> pos <= input@.len(),
            words_in(read@) + tokens_from(input@, pos as int) == tokens_from(input@, at as int),
            tokens_end(input@, pos as int) == tokens_end(input@, at as int),
        decreases input@.len() - pos,
    {
        match token(input, pos) {
            Some((word, end)) => {
                proof {
                    let before = words_in(read@);
                    let after = words_in(read@.push(word));
                    assert(after =~= before + seq![word@]);
                    assert(after + tokens_from(input@, end as int) =~= before + (seq![word@]
                        + tokens_from(input@, end as int)));
                }
                read.push(word);
                pos = end;
            },
            None => {
                assert(tokens_from(input@, pos as int) =~= Seq::<Word>::empty());
                assert(words_in(read@) + Seq::<Word>::empty() =~= words_in(read@));
                return (read, hrm_sep(input, pos));
            },
        }
    }
}

/// The statements of a text: all of them if the whole text can be read,
/// none if reading stops before its end.
pub fn parse_tokens<'a>(input: &'a [u8]) -> (read: Vec<Token<'a>>)
    ensures
        words_in(read@) == words_of(input@),
{
    let (read, end) = tokens(input, 0);
    if end == input.len() {
        read
    } else {
        let none: Vec<Token<'a>> = Vec::new();
        assert(words_in(none@) =~= Seq::<Word>::empty());
        none
    }
}

/// The program that a text of these bytes writes.
pub open spec fn program_of(text: Seq<u8>) -> Seq<Instr> {
    instructions_of(words_of(text))
}

/// The program that the bytes write; the empty program if the text cannot
/// be read up to its end.
pub fn parse_bytes(input: &[u8]) -> (program: Vec<Instr>)
    ensures
        program@ == program_of(input@),
{
    let read = parse_tokens(input);
    assemble(&read)
}

/// The program that the text writes: that of its bytes in UTF-8.
pub fn parse(input: &str) -> (program: Vec<Instr>)
    ensures
        program@ == program_of(input.spec_bytes()),
{
    parse_bytes(input.as_bytes())
}

} // verus!
