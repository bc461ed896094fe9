//! The grammar of the program text, as functions on its bytes.
//!
//! A text is a row of statements. Before each statement, and behind the
//! last, there may stand white space, `--` lines and `COMMENT` lines, in any
//! order and number; none of them says anything. A text that cannot be read
//! in this way up to its end says nothing at all: its program is empty.
use crate::lex::Class;
use crate::op::Addr;
use vstd::prelude::*;

verus! {

/// What one statement of the text says. A name is the bytes of a label.
pub enum Word {
    Inbox,
    Outbox,
    Label(Seq<u8>),
    CopyTo(Addr),
    CopyFrom(Addr),
    Add(Addr),
    Sub(Addr),
    BumpUp(Addr),
    BumpDown(Addr),
    Jump(Seq<u8>),
    JumpZero(Seq<u8>),
    JumpNeg(Seq<u8>),
}

impl Word {
    /// Whether the word defines a label, and so takes no place in the program.
    pub open spec fn is_label(self) -> bool {
        self is Label
    }
}

/// The bytes of a text of ASCII characters.
pub open spec fn ascii(text: Seq<char>) -> Seq<u8> {
    Seq::new(text.len(), |i: int| text[i] as u8)
}

/// Whether the bytes of `word` stand in `s` at `at`.
pub open spec fn has_word(s: Seq<u8>, at: int, word: Seq<u8>) -> bool {
    0 <= at && at + word.len() <= s.len() && s.subrange(at, at + word.len()) == word
}

/// The position after `word` at `at`, if it stands there.
pub open spec fn tag_at(s: Seq<u8>, at: int, word: Seq<u8>) -> Option<int> {
    if has_word(s, at, word) {
        Some(at + word.len())
    } else {
        None
    }
}

/// The end of the line that `from` lies in: the position after the first
/// line feed at or after `from`, or the end of the text where no line feed
/// follows.
pub open spec fn line_end(s: Seq<u8>, from: int) -> int
    decreases s.len() - from,
{
    if from < 0 || from >= s.len() {
        from
    } else if s[from] == 0x0a {
        from + 1
    } else {
        line_end(s, from + 1)
    }
}

/// The position after a `--` line at `at`: the two dashes and all that
/// follows up to the end of the line.
pub open spec fn doc_comment_at(s: Seq<u8>, at: int) -> Option<int> {
    match tag_at(s, at, ascii("--"@)) {
        Some(after) => Some(line_end(s, after)),
        None => None,
    }
}

/// The position after `word` and the spaces and tabs behind it, of which
/// there must be one at least.
pub open spec fn keyword_at(s: Seq<u8>, at: int, word: Seq<u8>) -> Option<int> {
    match tag_at(s, at, word) {
        Some(after) => if Class::Blank.run_end(s, after) > after {
            Some(Class::Blank.run_end(s, after))
        } else {
            None
        },
        None => None,
    }
}

/// The position after a `COMMENT` line at `at`: the keyword, spaces or
/// tabs, a number that may be missing, and the text up to the end of the
/// line.
pub open spec fn comment_at(s: Seq<u8>, at: int) -> Option<int> {
    match keyword_at(s, at, ascii("COMMENT"@)) {
        Some(after) => Some(line_end(s, Class::Digit.run_end(s, after))),
        None => None,
    }
}

/// The position after one piece of what may stand between statements: a
/// run of white space, a `--` line or a `COMMENT` line.
pub open spec fn filler_at(s: Seq<u8>, at: int) -> Option<int> {
    if Class::White.run_end(s, at) > at {
        Some(Class::White.run_end(s, at))
    } else if doc_comment_at(s, at) is Some {
        doc_comment_at(s, at)
    } else {
        comment_at(s, at)
    }
}

/// The end of all that stands at `at` and says nothing: white space, `--`
/// lines and `COMMENT` lines, in any order and number.
pub open spec fn hrm_sep_end(s: Seq<u8>, at: int) -> int
    decreases s.len() - at,
{
    match filler_at(s, at) {
        Some(end) => if at < end <= s.len() {
            hrm_sep_end(s, end)
        } else {
            at
        },
        None => at,
    }
}

/// The number that a run of decimal digits writes.
pub open spec fn decimal(digits: Seq<u8>) -> nat
    decreases digits.len(),
{
    if digits.len() == 0 {
        0
    } else {
        decimal(digits.drop_last()) * 10 + (digits.last() - 0x30) as nat
    }
}

/// The number that `digits` writes, if they are decimal digits, one at
/// least, and the number is a `usize`.
pub open spec fn usize_of(digits: Seq<u8>) -> Option<usize> {
    if digits.len() > 0 && (forall|i: int| 0 <= i < digits.len() ==> Class::Digit.holds(
        #[trigger] digits[i],
    )) && decimal(digits) <= usize::MAX {
        Some(decimal(digits) as usize)
    } else {
        None
    }
}

/// The number written at `at` and the position after it: the whole run of
/// digits there.
pub open spec fn number_at(s: Seq<u8>, at: int) -> Option<(usize, int)> {
    let end = Class::Digit.run_end(s, at);
    if 0 <= at < end <= s.len() {
        match usize_of(s.subrange(at, end)) {
            Some(n) => Some((n, end)),
            None => None,
        }
    } else {
        None
    }
}

/// The operand at `at` and the position after it: `N` for the tile `N`,
/// `[N]` for the tile that tile `N` points to.
pub open spec fn addr_at(s: Seq<u8>, at: int) -> Option<(Addr, int)> {
    match number_at(s, at) {
        Some((n, end)) => Some((Addr::Direct(n), end)),
        None => if 0 <= at < s.len() && s[at] == 0x5b {
            match number_at(s, at + 1) {
                Some((n, end)) => if end < s.len() && s[end] == 0x5d {
                    Some((Addr::Ref(n), end + 1))
                } else {
                    None
                },
                None => None,
            }
        } else {
            None
        },
    }
}

/// A label definition at `at`: a run of letters and digits, which may be
/// empty, and a colon right behind it.
pub open spec fn label_at(s: Seq<u8>, at: int) -> Option<(Word, int)> {
    let end = Class::Alnum.run_end(s, at);
    if 0 <= at <= end < s.len() && s[end] == 0x3a {
        Some((Word::Label(s.subrange(at, end)), end + 1))
    } else {
        None
    }
}

/// `INBOX` or `OUTBOX` at `at`.
pub open spec fn inoutbox_at(s: Seq<u8>, at: int) -> Option<(Word, int)> {
    match tag_at(s, at, ascii("INBOX"@)) {
        Some(end) => Some((Word::Inbox, end)),
        None => match tag_at(s, at, ascii("OUTBOX"@)) {
            Some(end) => Some((Word::Outbox, end)),
            None => None,
        },
    }
}

/// The label that a jump with the keyword `word` names at `at`: the run of
/// letters and digits behind the keyword and its spaces or tabs. The run may
/// be empty.
pub open spec fn target_at(s: Seq<u8>, at: int, word: Seq<u8>) -> Option<(Seq<u8>, int)> {
    match keyword_at(s, at, word) {
        Some(from) => {
            let end = Class::Alnum.run_end(s, from);
            if from <= end <= s.len() {
                Some((s.subrange(from, end), end))
            } else {
                None
            }
        },
        None => None,
    }
}

/// The operand of an instruction with the keyword `word` at `at`.
pub open spec fn operand_at(s: Seq<u8>, at: int, word: Seq<u8>) -> Option<(Addr, int)> {
    match keyword_at(s, at, word) {
        Some(from) => addr_at(s, from),
        None => None,
    }
}

/// `JUMP label` at `at`.
pub open spec fn jump_at(s: Seq<u8>, at: int) -> Option<(Word, int)> {
    match target_at(s, at, ascii("JUMP"@)) {
        Some((name, end)) => Some((Word::Jump(name), end)),
        None => None,
    }
}

/// `JUMPN label` at `at`.
pub open spec fn jumpn_at(s: Seq<u8>, at: int) -> Option<(Word, int)> {
    match target_at(s, at, ascii("JUMPN"@)) {
        Some((name, end)) => Some((Word::JumpNeg(name), end)),
        None => None,
    }
}

/// `JUMPZ label` at `at`.
pub open spec fn jumpz_at(s: Seq<u8>, at: int) -> Option<(Word, int)> {
    match target_at(s, at, ascii("JUMPZ"@)) {
        Some((name, end)) => Some((Word::JumpZero(name), end)),
        None => None,
    }
}

/// `COPYTO addr` at `at`.
pub open spec fn copy_to_at(s: Seq<u8>, at: int) -> Option<(Word, int)> {
    match operand_at(s, at, ascii("COPYTO"@)) {
        Some((a, end)) => Some((Word::CopyTo(a), end)),
        None => None,
    }
}

/// `COPYFROM addr` at `at`.
pub open spec fn copy_from_at(s: Seq<u8>, at: int) -> Option<(Word, int)> {
    match operand_at(s, at, ascii("COPYFROM"@)) {
        Some((a, end)) => Some((Word::CopyFrom(a), end)),
        None => None,
    }
}

/// `ADD addr` at `at`.
pub open spec fn add_at(s: Seq<u8>, at: int) -> Option<(Word, int)> {
    match operand_at(s, at, ascii("ADD"@)) {
        Some((a, end)) => Some((Word::Add(a), end)),
        None => None,
    }
}

/// `SUB addr` at `at`.
pub open spec fn sub_at(s: Seq<u8>, at: int) -> Option<(Word, int)> {
    match operand_at(s, at, ascii("SUB"@)) {
        Some((a, end)) => Some((Word::Sub(a), end)),
        None => None,
    }
}

/// `BUMPUP addr` at `at`.
pub open spec fn bump_up_at(s: Seq<u8>, at: int) -> Option<(Word, int)> {
    match operand_at(s, at, ascii("BUMPUP"@)) {
        Some((a, end)) => Some((Word::BumpUp(a), end)),
        None => None,
    }
}

/// `BUMPDN addr` at `at`.
pub open spec fn bump_down_at(s: Seq<u8>, at: int) -> Option<(Word, int)> {
    match operand_at(s, at, ascii("BUMPDN"@)) {
        Some((a, end)) => Some((Word::BumpDown(a), end)),
        None => None,
    }
}

/// The first of two readings that succeeds.
pub open spec fn or_else(first: Option<(Word, int)>, second: Option<(Word, int)>) -> Option<
    (Word, int),
> {
    if first is Some {
        first
    } else {
        second
    }
}

/// The statement that stands at `at`: the first form that fits, a label
/// definition before any instruction.
pub open spec fn statement_at(s: Seq<u8>, at: int) -> Option<(Word, int)> {
    or_else(
        label_at(s, at),
        or_else(
            inoutbox_at(s, at),
            or_else(
                jump_at(s, at),
                or_else(
                    jumpn_at(s, at),
                    or_else(
                        jumpz_at(s, at),
                        or_else(
                            copy_to_at(s, at),
                            or_else(
                                copy_from_at(s, at),
                                or_else(
                                    add_at(s, at),
                                    or_else(
                                        sub_at(s, at),
                                        or_else(bump_up_at(s, at), bump_down_at(s, at)),
                                    ),
                                ),
                            ),
                        ),
                    ),
                ),
            ),
        ),
    )
}

/// The statement that comes next at `at`, behind what says nothing, and
/// the position after it.
pub open spec fn token_at(s: Seq<u8>, at: int) -> Option<(Word, int)> {
    statement_at(s, hrm_sep_end(s, at))
}

/// The statements from `at` on, up to the first place where none stands.
pub open spec fn tokens_from(s: Seq<u8>, at: int) -> Seq<Word>
    decreases s.len() - at,
{
    match token_at(s, at) {
        Some((word, end)) => if at < end <= s.len() {
            seq![word] + tokens_from(s, end)
        } else {
            Seq::empty()
        },
        None => Seq::empty(),
    }
}

/// Where reading from `at` stops: the first place, behind what says
/// nothing, where no statement stands. That is the end of the text if all
/// of it can be read.
pub open spec fn tokens_end(s: Seq<u8>, at: int) -> int
    decreases s.len() - at,
{
    match token_at(s, at) {
        Some((_, end)) => if at < end <= s.len() {
            tokens_end(s, end)
        } else {
            hrm_sep_end(s, at)
        },
        None => hrm_sep_end(s, at),
    }
}

/// Whether the whole text can be read.
pub open spec fn readable(s: Seq<u8>) -> bool {
    tokens_end(s, 0) == s.len()
}

/// The statements of a text: all of them if the whole text can be read,
/// none if it cannot.
pub open spec fn words_of(s: Seq<u8>) -> Seq<Word> {
    if readable(s) {
        tokens_from(s, 0)
    } else {
        Seq::empty()
    }
}

} // verus!
