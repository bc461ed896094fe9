//! How values, instructions and errors are written out for a reader.
use crate::error::{Fault, RuntimeError};
use crate::grammar::{ascii, decimal, usize_of};
use crate::lex::Class;
use crate::machine::Data;
use crate::op::{Addr, Instr};
use vstd::prelude::*;
use vstd::string::StringExecFns;

verus! {

/// The character that writes a digit.
pub open spec fn digit_char(d: nat) -> char {
    (0x30 + d) as char
}

/// A number written in decimal, without leading zeros.
pub open spec fn decimal_text(n: nat) -> Seq<char>
    decreases n,
{
    if n < 10 {
        seq![digit_char(n)]
    } else {
        decimal_text(n / 10).push(digit_char(n % 10))
    }
}

/// A number with its sign written in decimal: a minus before a negative
/// number, no sign before any other.
pub open spec fn signed_text(n: int) -> Seq<char> {
    if n < 0 {
        "-"@ + decimal_text((-n) as nat)
    } else {
        decimal_text(n as nat)
    }
}

/// A value as it is shown: a number in decimal, a character between single
/// quotes.
pub open spec fn data_text(data: Data) -> Seq<char> {
    match data {
        Data::Number(n) => signed_text(n as int),
        Data::Char(c) => "'"@.push(c) + "'"@,
    }
}

/// An operand as the language writes it: `N` or `[N]`.
pub open spec fn addr_text(addr: Addr) -> Seq<char> {
    match addr {
        Addr::Direct(n) => decimal_text(n as nat),
        Addr::Ref(n) => "["@ + decimal_text(n as nat) + "]"@,
    }
}

/// An instruction as the language writes it, a jump with the position it
/// goes to.
pub open spec fn instr_text(instr: Instr) -> Seq<char> {
    match instr {
        Instr::Inbox => "INBOX"@,
        Instr::Outbox => "OUTBOX"@,
        Instr::CopyTo(a) => "COPYTO "@ + addr_text(a),
        Instr::CopyFrom(a) => "COPYFROM "@ + addr_text(a),
        Instr::Add(a) => "ADD "@ + addr_text(a),
        Instr::Sub(a) => "SUB "@ + addr_text(a),
        Instr::BumpUp(a) => "BUMPUP "@ + addr_text(a),
        Instr::BumpDown(a) => "BUMPDN "@ + addr_text(a),
        Instr::Jump(n) => "JUMP "@ + decimal_text(n as nat),
        Instr::JumpNeg(n) => "JUMPN "@ + decimal_text(n as nat),
        Instr::JumpZero(n) => "JUMPZ "@ + decimal_text(n as nat),
    }
}

/// What an error says to a reader.
pub open spec fn fault_text(fault: Fault) -> Seq<char> {
    match fault {
        Fault::BadTileAddress(tile) => "Bad tile address: "@ + decimal_text(tile as nat),
        Fault::EmptyHands => "Empty hands"@,
        Fault::EmptyTile(tile) => "Empty tile: "@ + decimal_text(tile as nat),
        Fault::InvalidOperation(msg) => msg,
    }
}

/// A number that is written out reads back as itself: the digits that
/// [`decimal_text`] writes are what [`usize_of`] reads as that number.
pub proof fn lemma_written_number_reads_back(n: usize)
    ensures
        usize_of(ascii(decimal_text(n as nat))) == Some(n),
{
    lemma_decimal_text(n as nat);
}

/// What [`decimal_text`] writes is a run of digits, one at least, that
/// stands for the number.
pub proof fn lemma_decimal_text(n: nat)
    ensures
        decimal_text(n).len() > 0,
        forall|i: int|
            0 <= i < decimal_text(n).len() ==> Class::Digit.holds(
                #[trigger] ascii(decimal_text(n))[i],
            ),
        decimal(ascii(decimal_text(n))) == n,
    decreases n,
{
    let written = ascii(decimal_text(n));
    if n < 10 {
        assert(written =~= seq![(0x30 + n) as u8]);
        assert(written.drop_last() =~= Seq::<u8>::empty());
        reveal_with_fuel(decimal, 2);
    } else {
        lemma_decimal_text(n / 10);
        let front = ascii(decimal_text(n / 10));
        assert(written =~= front.push((0x30 + n % 10) as u8));
        assert(written.drop_last() =~= front);
    }
}

/// The text of one digit.
fn digit_str(d: usize) -> (s: &'static str)
    requires
        d < 10,
    ensures
        s@ == seq![digit_char(d as nat)],
{
    proof {
        reveal_strlit("0");
        reveal_strlit("1");
        reveal_strlit("2");
        reveal_strlit("3");
        reveal_strlit("4");
        reveal_strlit("5");
        reveal_strlit("6");
        reveal_strlit("7");
        reveal_strlit("8");
        reveal_strlit("9");
    }
    let s = if d == 0 {
        "0"
    } else if d == 1 {
        "1"
    } else if d == 2 {
        "2"
    } else if d == 3 {
        "3"
    } else if d == 4 {
        "4"
    } else if d == 5 {
        "5"
    } else if d == 6 {
        "6"
    } else if d == 7 {
        "7"
    } else if d == 8 {
        "8"
    } else {
        "9"
    };
    assert(s@ =~= seq![digit_char(d as nat)]);
    s
}

/// `String::push` of std: puts the character at the end of the string.
#[verifier::external_body]
fn push_char(out: &mut String, c: char)
    ensures
        final(out)@ == old(out)@.push(c),
{
    out.push(c);
}

/// Writes `n` in decimal at the end of `out`.
pub fn push_decimal(out: &mut String, n: u64)
    ensures
        final(out)@ == old(out)@ + decimal_text(n as nat),
    decreases n,
{
    if n >= 10 {
        push_decimal(out, n / 10);
    }
    out.append(digit_str((n % 10) as usize));
    assert(final(out)@ =~= old(out)@ + decimal_text(n as nat));
}

/// Writes `n` with its sign in decimal at the end of `out`.
pub fn push_signed(out: &mut String, n: i64)
    ensures
        final(out)@ == old(out)@ + signed_text(n as int),
{
    if n < 0 {
        out.append("-");
        let magnitude: u64 = (-(n + 1)) as u64 + 1;
        push_decimal(out, magnitude);
        assert(final(out)@ =~= old(out)@ + signed_text(n as int));
    } else {
        push_decimal(out, n as u64);
    }
}

/// Writes an operand at the end of `out`.
pub fn push_addr(out: &mut String, addr: &Addr)
    ensures
        final(out)@ == old(out)@ + addr_text(*addr),
{
    match addr {
        Addr::Direct(n) => {
            push_decimal(out, *n as u64);
        },
        Addr::Ref(n) => {
            out.append("[");
            push_decimal(out, *n as u64);
            out.append("]");
            assert(final(out)@ =~= old(out)@ + addr_text(*addr));
        },
    }
}

impl Data {
    /// The value as it is shown: a number in decimal, a character between
    /// single quotes.
    pub fn text(&self) -> (s: String)
        ensures
            s@ == data_text(*self),
    {
        let mut s = String::new();
        match self {
            Data::Number(n) => {
                push_signed(&mut s, *n);
            },
            Data::Char(c) => {
                s.append("'");
                push_char(&mut s, *c);
                s.append("'");
            },
        }
        assert(s@ =~= data_text(*self));
        s
    }
}

impl Instr {
    /// The instruction as the language writes it.
    pub fn text(&self) -> (s: String)
        ensures
            s@ == instr_text(*self),
    {
        let mut s = String::new();
        match self {
            Instr::Inbox => {
                s.append("INBOX");
            },
            Instr::Outbox => {
                s.append("OUTBOX");
            },
            Instr::CopyTo(a) => {
                s.append("COPYTO ");
                push_addr(&mut s, a);
            },
            Instr::CopyFrom(a) => {
                s.append("COPYFROM ");
                push_addr(&mut s, a);
            },
            Instr::Add(a) => {
                s.append("ADD ");
                push_addr(&mut s, a);
            },
            Instr::Sub(a) => {
                s.append("SUB ");
                push_addr(&mut s, a);
            },
            Instr::BumpUp(a) => {
                s.append("BUMPUP ");
                push_addr(&mut s, a);
            },
            Instr::BumpDown(a) => {
                s.append("BUMPDN ");
                push_addr(&mut s, a);
            },
            Instr::Jump(n) => {
                s.append("JUMP ");
                push_decimal(&mut s, *n as u64);
            },
            Instr::JumpNeg(n) => {
                s.append("JUMPN ");
                push_decimal(&mut s, *n as u64);
            },
            Instr::JumpZero(n) => {
                s.append("JUMPZ ");
                push_decimal(&mut s, *n as u64);
            },
        }
        assert(s@ =~= instr_text(*self));
        s
    }
}

impl RuntimeError {
    /// What the error says to a reader.
    pub fn message(&self) -> (s: String)
        ensures
            s@ == fault_text(self@),
    {
        let mut s = String::new();
        match self {
            RuntimeError::BadTileAddress(tile) => {
                s.append("Bad tile address: ");
                push_decimal(&mut s, *tile as u64);
            },
            RuntimeError::EmptyHands => {
                s.append("Empty hands");
            },
            RuntimeError::EmptyTile(tile) => {
                s.append("Empty tile: ");
                push_decimal(&mut s, *tile as u64);
            },
            RuntimeError::InvalidOperation(msg) => {
                s.append(msg.as_str());
            },
        }
        assert(s@ =~= fault_text(self@));
        s
    }
}

} // verus!
