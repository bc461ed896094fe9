//! The machine: its state, one step of it, and a whole run.
use crate::error::{bad_address, empty_tile, invalid_op, Fault, RuntimeError};
use crate::op::{Addr, Instr};
use crate::parser::{parse, program_of};
use std::collections::BTreeMap;
use vstd::prelude::*;
use vstd::string::{StrSliceExecFns, StringSliceAdditionalSpecFns};

verus! {

/// The index of a tile of the memory.
pub type Tile = usize;

/// The memory: the tiles that hold a value, by index.
pub type Memory = BTreeMap<Tile, Data>;

/// A value: what a tile, the accumulator or a queue slot holds.
#[derive(Debug, Copy, Clone, PartialEq, Eq, Structural)]
pub enum Data {
    Number(i64),
    Char(char),
}

impl Data {
    /// Whether the value is one of the language: any number, and of the
    /// characters the upper-case letters `A` to `Z`.
    pub open spec fn is_value(self) -> bool {
        match self {
            Data::Number(_) => true,
            Data::Char(c) => 'A' <= c <= 'Z',
        }
    }

    /// The letter that a character stands for: itself for `A` to `Z`, its
    /// upper case for `a` to `z`, none for any other character.
    pub open spec fn letter_of(c: char) -> Option<Data> {
        if 'A' <= c <= 'Z' {
            Some(Data::Char(c))
        } else if 'a' <= c <= 'z' {
            Some(Data::Char((c as u8 - 0x20) as char))
        } else {
            None
        }
    }

    /// The letters that a text stands for: one for each of its ASCII
    /// letters, in their order; its other characters are dropped.
    pub open spec fn letters_of(text: Seq<char>) -> Seq<Data>
        decreases text.len(),
    {
        if text.len() == 0 {
            Seq::empty()
        } else {
            match Data::letter_of(text.last()) {
                Some(d) => Data::letters_of(text.drop_last()).push(d),
                None => Data::letters_of(text.drop_last()),
            }
        }
    }

    /// The letter that a character stands for, if it is an ASCII letter.
    pub fn letter(c: char) -> (d: Option<Data>)
        ensures
            d == Data::letter_of(c),
            d matches Some(v) ==> v.is_value() && v is Char,
    {
        if 'A' <= c && c <= 'Z' {
            Some(Data::Char(c))
        } else if 'a' <= c && c <= 'z' {
            Some(Data::Char((c as u8 - 0x20) as char))
        } else {
            None
        }
    }

    /// The letters that a text stands for.
    pub fn letters(text: &str) -> (found: Vec<Data>)
        ensures
            found@ == Data::letters_of(text@),
            forall|i: int| 0 <= i < found@.len() ==> (#[trigger] found@[i]).is_value(),
    {
        let mut found: Vec<Data> = Vec::new();
        let n = text.unicode_len();
        let mut i: usize = 0;
        while i < n
            invariant
                i <= n,
                n == text@.len(),
                found@ == Data::letters_of(text@.take(i as int)),
                forall|k: int| 0 <= k < found@.len() ==> (#[trigger] found@[k]).is_value(),
            decreases n - i,
        {
            proof {
                assert(text@.take(i + 1).drop_last() =~= text@.take(i as int));
            }
            match Data::letter(text.get_char(i)) {
                Some(d) => {
                    found.push(d);
                },
                None => {},
            }
            i += 1;
        }
        assert(text@.take(i as int) =~= text@);
        found
    }
}

/// The reason given when `ADD` meets a letter.
pub open spec fn add_letter_reason() -> Seq<char> {
    "You can't ADD with a letter"@
}

/// The reason given when `SUB` meets a number and a letter.
pub open spec fn sub_mixed_reason() -> Seq<char> {
    "You can't SUB with mixed operands"@
}

/// The reason given when `BUMPUP` meets a letter.
pub open spec fn bump_up_letter_reason() -> Seq<char> {
    "You can't BUMP+ with a letter"@
}

/// The reason given when `BUMPDN` meets a letter.
pub open spec fn bump_down_letter_reason() -> Seq<char> {
    "You can't BUMP- with a letter"@
}

/// The 64-bit signed number that an integer wraps to when it lies at most
/// one whole range outside the 64-bit signed numbers.
pub open spec fn wrap_i64(x: int) -> i64 {
    if x > i64::MAX {
        (x - 0x1_0000_0000_0000_0000) as i64
    } else if x < i64::MIN {
        (x + 0x1_0000_0000_0000_0000) as i64
    } else {
        x as i64
    }
}

/// The tile index that a stored number stands for when it is used as a pointer.
pub open spec fn tile_of_number(n: i64) -> Tile {
    n as usize
}

/// The state of a machine as a mathematical value.
pub struct Machine {
    /// The instructions, fixed for the run.
    pub program: Seq<Instr>,
    /// The accumulator.
    pub hands: Option<Data>,
    /// The tiles that hold a value.
    pub memory: Map<Tile, Data>,
    /// The input still to be read, front first.
    pub inbox: Seq<Data>,
    /// The output so far, oldest first.
    pub outbox: Seq<Data>,
    /// The position of the next instruction.
    pub counter: usize,
}

impl Machine {
    /// The machine that is about to start `program` on `memory` and `inbox`.
    pub open spec fn start(program: Seq<Instr>, memory: Map<Tile, Data>, inbox: Seq<Data>) -> Machine {
        Machine { program, hands: None, memory, inbox, outbox: Seq::empty(), counter: 0 }
    }

    /// Whether the program is one that a machine can hold: every position
    /// in it is a `usize`, so that the greatest `usize` is a position
    /// outside it.
    pub open spec fn fits(self) -> bool {
        self.program.len() <= usize::MAX
    }

    /// Whether the counter points at an instruction. A machine that is not
    /// running has halted.
    pub open spec fn running(self) -> bool {
        self.counter < self.program.len()
    }

    /// Whether the next step is an `INBOX` that finds the input empty, and
    /// so halts the machine.
    pub open spec fn starving(self) -> bool {
        self.running() && self.program[self.counter as int] == Instr::Inbox && self.inbox.len()
            == 0
    }

    /// The value in the accumulator, or the fault of finding none.
    pub open spec fn held(self) -> Result<Data, Fault> {
        match self.hands {
            Some(d) => Ok(d),
            None => Err(Fault::EmptyHands),
        }
    }

    /// The tile that `addr` names.
    pub open spec fn resolve(self, addr: Addr) -> Result<Tile, Fault> {
        match addr {
            Addr::Direct(i) => Ok(i),
            Addr::Ref(i) => if !self.memory.contains_key(i) {
                Err(Fault::EmptyTile(i))
            } else {
                match self.memory[i] {
                    Data::Number(n) => Ok(tile_of_number(n)),
                    Data::Char(_) => Err(Fault::BadTileAddress(i)),
                }
            },
        }
    }

    /// The tile that `addr` names, with the value it holds.
    pub open spec fn fetch(self, addr: Addr) -> Result<(Tile, Data), Fault> {
        match self.resolve(addr) {
            Err(f) => Err(f),
            Ok(tile) => if self.memory.contains_key(tile) {
                Ok((tile, self.memory[tile]))
            } else {
                Err(Fault::EmptyTile(tile))
            },
        }
    }

    /// The same machine with the counter moved on by one.
    pub open spec fn advanced(self) -> Machine {
        Machine { counter: (self.counter + 1) as usize, ..self }
    }

    /// What `instr` does to the machine, the counter included.
    pub open spec fn execute(self, instr: Instr) -> Result<Machine, Fault> {
        match instr {
            Instr::Inbox => if self.inbox.len() == 0 {
                Ok(Machine { counter: usize::MAX, ..self })
            } else {
                Ok(
                    Machine {
                        hands: Some(self.inbox[0]),
                        inbox: self.inbox.remove(0),
                        ..self
                    }.advanced(),
                )
            },
            Instr::Outbox => match self.hands {
                None => Err(Fault::EmptyHands),
                Some(d) => Ok(
                    Machine { hands: None, outbox: self.outbox.push(d), ..self }.advanced(),
                ),
            },
            Instr::CopyFrom(addr) => match self.fetch(addr) {
                Err(f) => Err(f),
                Ok((_, d)) => Ok(Machine { hands: Some(d), ..self }.advanced()),
            },
            Instr::CopyTo(addr) => match self.resolve(addr) {
                Err(f) => Err(f),
                Ok(tile) => match self.hands {
                    None => Err(Fault::EmptyHands),
                    Some(d) => Ok(Machine { memory: self.memory.insert(tile, d), ..self }.advanced()),
                },
            },
            Instr::Add(addr) => match self.hands {
                None => Err(Fault::EmptyHands),
                Some(a) => match self.fetch(addr) {
                    Err(f) => Err(f),
                    Ok((_, b)) => match (a, b) {
                        (Data::Number(x), Data::Number(y)) => Ok(
                            Machine { hands: Some(Data::Number(wrap_i64(x + y))), ..self }.advanced(),
                        ),
                        _ => Err(Fault::InvalidOperation(add_letter_reason())),
                    },
                },
            },
            Instr::Sub(addr) => match self.hands {
                None => Err(Fault::EmptyHands),
                Some(a) => match self.fetch(addr) {
                    Err(f) => Err(f),
                    Ok((_, b)) => match (a, b) {
                        (Data::Number(x), Data::Number(y)) => Ok(
                            Machine { hands: Some(Data::Number(wrap_i64(x - y))), ..self }.advanced(),
                        ),
                        (Data::Char(x), Data::Char(y)) => Ok(
                            Machine {
                                hands: Some(Data::Number((x as int - y as int) as i64)),
                                ..self
                            }.advanced(),
                        ),
                        _ => Err(Fault::InvalidOperation(sub_mixed_reason())),
                    },
                },
            },
            Instr::BumpUp(addr) => match self.fetch(addr) {
                Err(f) => Err(f),
                Ok((tile, d)) => match d {
                    Data::Number(x) => {
                        let bumped = Data::Number(wrap_i64(x + 1));
                        Ok(
                            Machine {
                                hands: Some(bumped),
                                memory: self.memory.insert(tile, bumped),
                                ..self
                            }.advanced(),
                        )
                    },
                    Data::Char(_) => Err(Fault::InvalidOperation(bump_up_letter_reason())),
                },
            },
            Instr::BumpDown(addr) => match self.fetch(addr) {
                Err(f) => Err(f),
                Ok((tile, d)) => match d {
                    Data::Number(x) => {
                        let bumped = Data::Number(wrap_i64(x - 1));
                        Ok(
                            Machine {
                                hands: Some(bumped),
                                memory: self.memory.insert(tile, bumped),
                                ..self
                            }.advanced(),
                        )
                    },
                    Data::Char(_) => Err(Fault::InvalidOperation(bump_down_letter_reason())),
                },
            },
            Instr::Jump(line) => Ok(Machine { counter: line, ..self }),
            Instr::JumpNeg(line) => match self.hands {
                Some(Data::Number(x)) if x < 0 => Ok(Machine { counter: line, ..self }),
                _ => Ok(self.advanced()),
            },
            Instr::JumpZero(line) => match self.hands {
                Some(Data::Number(x)) if x == 0 => Ok(Machine { counter: line, ..self }),
                _ => Ok(self.advanced()),
            },
        }
    }

    /// One step: a halted machine stays as it is, a running one executes the
    /// instruction under the counter.
    pub open spec fn step(self) -> Result<Machine, Fault> {
        if self.running() {
            self.execute(self.program[self.counter as int])
        } else {
            Ok(self)
        }
    }

    /// Whether every value in the machine is one of the language.
    pub open spec fn holds_values(self) -> bool {
        &&& self.hands matches Some(d) ==> d.is_value()
        &&& forall|tile: Tile| self.memory.contains_key(tile) ==> (#[trigger] self.memory[tile]).is_value()
        &&& forall|i: int| 0 <= i < self.inbox.len() ==> (#[trigger] self.inbox[i]).is_value()
        &&& forall|i: int| 0 <= i < self.outbox.len() ==> (#[trigger] self.outbox[i]).is_value()
    }

    /// The machine after at most `n` steps: it goes no further once it has
    /// halted, nor past a step that fails.
    pub open spec fn advance(self, n: nat) -> Machine
        decreases n,
    {
        if n == 0 || !self.running() {
            self
        } else {
            match self.step() {
                Err(_) => self,
                Ok(next) => next.advance((n - 1) as nat),
            }
        }
    }

    /// The fault of the first failing step among the first `n`, if one fails.
    pub open spec fn fault_within(self, n: nat) -> Option<Fault>
        decreases n,
    {
        if n == 0 || !self.running() {
            None
        } else {
            match self.step() {
                Err(f) => Some(f),
                Ok(next) => next.fault_within((n - 1) as nat),
            }
        }
    }

    /// Whether the run is over within `n` steps: the machine has halted or a
    /// step has failed.
    pub open spec fn ends_within(self, n: nat) -> bool {
        self.fault_within(n) is Some || !self.advance(n).running()
    }

    /// Whether the run ends at all.
    pub open spec fn halts(self) -> bool {
        exists|n: nat| self.ends_within(n)
    }

    /// What `n` steps make of the run: the fault if a step failed, else the
    /// output so far.
    pub open spec fn result_after(self, n: nat) -> Result<Seq<Data>, Fault> {
        match self.fault_within(n) {
            Some(f) => Err(f),
            None => Ok(self.advance(n).outbox),
        }
    }

    /// The result of a run that ends: the first fault, or the output at the
    /// halt.
    pub open spec fn outcome(self) -> Result<Seq<Data>, Fault> {
        self.result_after(choose|n: nat| self.ends_within(n))
    }
}

/// A run that has ended within `n` steps is the same after any more steps.
pub proof fn lemma_ended_run_stays(m: Machine, n: nat, k: nat)
    requires
        m.ends_within(n),
        n <= k,
    ensures
        m.ends_within(k),
        m.advance(k) == m.advance(n),
        m.fault_within(k) == m.fault_within(n),
    decreases n,
{
    if !m.running() {
    } else if n == 0 {
    } else {
        match m.step() {
            Err(_) => {},
            Ok(next) => {
                lemma_ended_run_stays(next, (n - 1) as nat, (k - 1) as nat);
            },
        }
    }
}

/// The result of a run does not depend on how long one waits for it: every
/// number of steps within which the run ends gives the result that
/// [`Machine::outcome`] names, so equal machines have equal results.
pub proof fn lemma_outcome_is_determined(m: Machine, n: nat)
    requires
        m.ends_within(n),
    ensures
        m.halts(),
        m.outcome() == m.result_after(n),
{
    let c = choose|c: nat| m.ends_within(c);
    if c <= n {
        lemma_ended_run_stays(m, c, n);
    } else {
        lemma_ended_run_stays(m, n, c);
    }
}

/// One more step after `a` steps that did not fail is a step of the machine
/// reached.
pub proof fn lemma_advance_one_more(m: Machine, a: nat)
    requires
        m.fault_within(a) is None,
    ensures
        match m.advance(a).step() {
            Ok(next) => m.advance(a + 1) == next && m.fault_within(a + 1) is None,
            Err(f) => m.advance(a + 1) == m.advance(a) && m.fault_within(a + 1) == Some(f),
        },
{
    lemma_advance_add(m, a, 1);
    let r = m.advance(a);
    reveal_with_fuel(Machine::advance, 2);
    reveal_with_fuel(Machine::fault_within, 2);
    assert(r.advance(1) == if !r.running() {
        r
    } else {
        match r.step() {
            Err(_) => r,
            Ok(next) => next,
        }
    });
}

/// Steps add up: `a + b` steps are `a` steps and then `b` more, unless one
/// of the first `a` fails.
pub proof fn lemma_advance_add(m: Machine, a: nat, b: nat)
    ensures
        m.fault_within(a) is None ==> m.advance(a + b) == m.advance(a).advance(b),
        m.fault_within(a) is None ==> m.fault_within(a + b) == m.advance(a).fault_within(b),
        m.fault_within(a) is Some ==> m.advance(a + b) == m.advance(a),
        m.fault_within(a) is Some ==> m.fault_within(a + b) == m.fault_within(a),
    decreases a,
{
    if a == 0 {
    } else if !m.running() {
        assert(m.advance(a) == m);
        assert(m.advance(b) == m);
    } else {
        match m.step() {
            Err(_) => {},
            Ok(next) => {
                lemma_advance_add(next, (a - 1) as nat, b);
            },
        }
    }
}

/// In a machine that fits, moving the counter on from an instruction adds
/// one to it.
pub proof fn lemma_advanced_adds_one(m: Machine)
    requires
        m.fits(),
        m.running(),
    ensures
        m.advanced().counter == m.counter + 1,
{
}

/// A step leaves the program as it is and empties no tile; only `COPYTO`,
/// `BUMPUP` and `BUMPDN` change the memory at all.
pub proof fn lemma_step_keeps_program_and_tiles(m: Machine)
    requires
        m.step() is Ok,
    ensures
        m.step()->Ok_0.program == m.program,
        forall|tile: Tile| m.memory.contains_key(tile) ==> m.step()->Ok_0.memory.contains_key(tile),
        m.running() && !(m.program[m.counter as int] is CopyTo) && !(m.program[m.counter as int]
            is BumpUp) && !(m.program[m.counter as int] is BumpDown) ==> m.step()->Ok_0.memory
            == m.memory,
        !m.running() ==> m.step()->Ok_0 == m,
{
}

/// A step of a machine that holds only values of the language gives such a
/// machine.
pub proof fn lemma_step_keeps_values(m: Machine)
    requires
        m.holds_values(),
        m.step() is Ok,
    ensures
        m.step()->Ok_0.holds_values(),
{
}

/// However far a machine goes, its program stays, no tile is emptied, and
/// if it held only values of the language, it still does.
pub proof fn lemma_advance_keeps(m: Machine, n: nat)
    ensures
        m.advance(n).program == m.program,
        forall|tile: Tile| m.memory.contains_key(tile) ==> m.advance(n).memory.contains_key(tile),
        m.holds_values() ==> m.advance(n).holds_values(),
    decreases n,
{
    if n > 0 && m.running() {
        match m.step() {
            Err(_) => {},
            Ok(next) => {
                lemma_step_keeps_program_and_tiles(m);
                if m.holds_values() {
                    lemma_step_keeps_values(m);
                }
                lemma_advance_keeps(next, (n - 1) as nat);
            },
        }
    }
}

/// Two runs from the same text, memory and input end alike: whatever number
/// of steps each is given, if both have ended by then, they give the same
/// output or the same fault.
pub proof fn lemma_runs_agree(
    text: Seq<u8>,
    memory: Map<Tile, Data>,
    inbox: Seq<Data>,
    first: nat,
    second: nat,
)
    requires
        Machine::start(program_of(text), memory, inbox).ends_within(first),
        Machine::start(program_of(text), memory, inbox).ends_within(second),
    ensures
        Machine::start(program_of(text), memory, inbox).result_after(first) == Machine::start(
            program_of(text),
            memory,
            inbox,
        ).result_after(second),
{
    let m = Machine::start(program_of(text), memory, inbox);
    lemma_outcome_is_determined(m, first);
    lemma_outcome_is_determined(m, second);
}

/// `ADD` fails as an invalid operation whenever the tile it names holds a
/// letter, whatever value the accumulator holds. (With nothing in the
/// accumulator the fault is `EmptyHands`, which comes first.)
pub proof fn lemma_add_refuses_letters(m: Machine, addr: Addr, held: Data, tile: Tile, letter: char)
    requires
        m.hands == Some(held),
        m.fetch(addr) == Ok::<(Tile, Data), Fault>((tile, Data::Char(letter))),
    ensures
        m.execute(Instr::Add(addr)) == Err::<Machine, Fault>(
            Fault::InvalidOperation(add_letter_reason()),
        ),
        m.running() && m.program[m.counter as int] == Instr::Add(addr) ==> m.step() == Err::<
            Machine,
            Fault,
        >(Fault::InvalidOperation(add_letter_reason())),
{
}

/// `INBOX` on an empty input ends the run without a fault: the machine halts
/// with that step, and the result of the run is the output so far.
pub proof fn lemma_starved_machine_halts(m: Machine)
    requires
        m.fits(),
        m.starving(),
    ensures
        m.step() == Ok::<Machine, Fault>(Machine { counter: usize::MAX, ..m }),
        m.halts(),
        m.outcome() == Ok::<Seq<Data>, Fault>(m.outbox),
{
    reveal_with_fuel(Machine::advance, 2);
    reveal_with_fuel(Machine::fault_within, 2);
    assert(m.ends_within(1));
    lemma_outcome_is_determined(m, 1);
}

/// A machine that has halted stays as it is, and the result of its run is
/// its output.
pub proof fn lemma_halted_machine_rests(m: Machine, n: nat)
    requires
        !m.running(),
    ensures
        m.advance(n) == m,
        m.halts(),
        m.outcome() == Ok::<Seq<Data>, Fault>(m.outbox),
{
    assert(m.ends_within(0));
    lemma_outcome_is_determined(m, 0);
}

/// The program that takes a value in and puts it out, over and over.
pub open spec fn copy_loop() -> Seq<Instr> {
    seq![Instr::Inbox, Instr::Outbox, Instr::Jump(0)]
}

/// One round of the copy loop: three steps move the front of the input to
/// the end of the output and come back to the start.
proof fn lemma_copy_loop_round(m: Machine)
    requires
        m.program == copy_loop(),
        m.counter == 0,
        m.inbox.len() > 0,
    ensures
        m.fault_within(3) is None,
        m.advance(1).running(),
        m.advance(2).running(),
        m.advance(3) == (Machine {
            hands: None,
            inbox: m.inbox.remove(0),
            outbox: m.outbox.push(m.inbox[0]),
            ..m
        }),
{
    reveal_with_fuel(Machine::advance, 4);
    reveal_with_fuel(Machine::fault_within, 4);
    let m1 = m.step()->Ok_0;
    assert(m1.counter == 1);
    let m2 = m1.step()->Ok_0;
    assert(m2.counter == 2);
    let m3 = m2.step()->Ok_0;
    assert(m3.counter == 0);
}

/// The copy loop on any input: it never fails, it runs for three steps for
/// each value of the input and halts with the step after them, and by then
/// it has put out, behind what was out before, the whole input in its order.
pub proof fn lemma_copy_loop_runs(m: Machine)
    requires
        m.program == copy_loop(),
        m.counter == 0,
    ensures
        m.fault_within(3 * m.inbox.len() + 1) is None,
        forall|k: nat| k <= 3 * m.inbox.len() ==> (#[trigger] m.advance(k)).running(),
        !m.advance(3 * m.inbox.len() + 1).running(),
        m.advance(3 * m.inbox.len() + 1).outbox == m.outbox + m.inbox,
        m.advance(3 * m.inbox.len() + 1).inbox.len() == 0,
        m.advance(3 * m.inbox.len() + 1).memory == m.memory,
    decreases m.inbox.len(),
{
    let n = m.inbox.len();
    if n == 0 {
        reveal_with_fuel(Machine::advance, 2);
        reveal_with_fuel(Machine::fault_within, 2);
        assert(m.outbox + m.inbox =~= m.outbox);
        assert forall|k: nat| k <= 0 implies (#[trigger] m.advance(k)).running() by {}
    } else {
        lemma_copy_loop_round(m);
        let next = m.advance(3);
        lemma_copy_loop_runs(next);
        let rest = (3 * next.inbox.len() + 1) as nat;
        lemma_advance_add(m, 3, rest);
        assert(3 + rest == 3 * n + 1);
        assert(next.outbox + next.inbox =~= m.outbox + m.inbox);
        assert forall|k: nat| k <= 3 * n implies (#[trigger] m.advance(k)).running() by {
            if k >= 3 {
                lemma_advance_add(m, 3, (k - 3) as nat);
                assert(m.advance(k) == next.advance((k - 3) as nat));
            } else if k == 0 {
            } else if k == 1 {
            } else {
            }
        }
    }
}

/// A program made of `INBOX` and `OUTBOX` in a loop copies its input to its
/// output: started on any memory and input, the run ends, without a fault,
/// and its output is the input, unchanged and in order.
pub proof fn lemma_copy_loop_copies(memory: Map<Tile, Data>, inbox: Seq<Data>)
    ensures
        Machine::start(copy_loop(), memory, inbox).halts(),
        Machine::start(copy_loop(), memory, inbox).outcome() == Ok::<Seq<Data>, Fault>(inbox),
{
    let m = Machine::start(copy_loop(), memory, inbox);
    lemma_copy_loop_runs(m);
    lemma_outcome_is_determined(m, 3 * inbox.len() + 1);
    assert(m.outbox + m.inbox =~= inbox);
}

/// A machine with a program loaded, ready to run or to be stepped.
pub struct Cpu {
    program: Vec<Instr>,
    accumulator: Option<Data>,
    memory: Memory,
    inbox: Vec<Data>,
    outbox: Vec<Data>,
    counter: usize,
}

impl View for Cpu {
    type V = Machine;

    closed spec fn view(&self) -> Machine {
        Machine {
            program: self.program@,
            hands: self.accumulator,
            memory: self.memory@,
            inbox: self.inbox@,
            outbox: self.outbox@,
            counter: self.counter,
        }
    }
}

impl Cpu {
    /// A machine about to start the program that `source` writes, on
    /// `memory` and `inbox`, with nothing in the accumulator and nothing put
    /// out.
    pub fn new(source: &str, memory: Memory, inbox: Vec<Data>) -> (cpu: Cpu)
        ensures
            cpu@ == Machine::start(program_of(source.spec_bytes()), memory@, inbox@),
            cpu@.fits(),
    {
        Cpu::load(parse(source), memory, inbox)
    }

    /// A machine about to start `program` on `memory` and `inbox`, with
    /// nothing in the accumulator and nothing put out.
    pub fn load(program: Vec<Instr>, memory: Memory, inbox: Vec<Data>) -> (cpu: Cpu)
        ensures
            cpu@ == Machine::start(program@, memory@, inbox@),
            cpu@.fits(),
    {
        assert(program@.len() == program.len());
        Cpu { program, accumulator: None, memory, inbox, outbox: Vec::new(), counter: 0 }
    }

    /// The value in the accumulator, if there is one.
    pub fn hands(&self) -> (held: Option<Data>)
        ensures
            held == self@.hands,
    {
        self.accumulator
    }

    /// The value in a tile, if it holds one.
    pub fn tile(&self, tile: Tile) -> (held: Option<Data>)
        ensures
            held == if self@.memory.contains_key(tile) {
                Some(self@.memory[tile])
            } else {
                None
            },
    {
        match self.memory.get(&tile) {
            Some(d) => Some(*d),
            None => None,
        }
    }

    /// The tiles that hold a value.
    pub fn memory(&self) -> (memory: &Memory)
        ensures
            memory@ == self@.memory,
    {
        &self.memory
    }

    /// The position of the next instruction.
    pub fn counter(&self) -> (at: usize)
        ensures
            at == self@.counter,
    {
        self.counter
    }

    /// The program.
    pub fn program(&self) -> (program: &Vec<Instr>)
        ensures
            program@ == self@.program,
    {
        &self.program
    }

    /// The input that is still to be read.
    pub fn input(&self) -> (inbox: &Vec<Data>)
        ensures
            inbox@ == self@.inbox,
    {
        &self.inbox
    }

    /// The output so far.
    pub fn output(&self) -> (outbox: &Vec<Data>)
        ensures
            outbox@ == self@.outbox,
    {
        &self.outbox
    }

    /// Ends the use of the machine and hands over its output.
    pub fn into_output(self) -> (outbox: Vec<Data>)
        ensures
            outbox@ == self@.outbox,
    {
        self.outbox
    }

    /// The program of a machine fits: every position in it is a `usize`.
    pub proof fn lemma_fits(&self)
        ensures
            self@.fits(),
    {
        assert(self.program@.len() == self.program.len());
    }

    /// Whether there is an instruction under the counter.
    pub fn is_running(&self) -> (b: bool)
        ensures
            b == self@.running(),
            self@.fits(),
    {
        self.counter < self.program.len()
    }

    /// Whether the next step is an `INBOX` that finds the input empty.
    pub fn is_starving(&self) -> (b: bool)
        ensures
            b == self@.starving(),
    {
        self.counter < self.program.len() && self.program[self.counter] == Instr::Inbox
            && self.inbox.len() == 0
    }

    /// The value in the accumulator; `EmptyHands` if there is none.
    pub fn get_hands(&self) -> (res: Result<Data, RuntimeError>)
        ensures
            match self@.held() {
                Ok(d) => res == Ok::<Data, RuntimeError>(d),
                Err(f) => res matches Err(e) && e@ == f,
            },
    {
        match self.accumulator {
            Some(d) => Ok(d),
            None => Err(RuntimeError::EmptyHands),
        }
    }

    /// The tile that `addr` names: the tile itself for a direct address; for
    /// an indirect one the tile whose index is the number stored in the
    /// named tile, `EmptyTile` if that tile holds nothing and
    /// `BadTileAddress` if it holds a letter.
    pub fn get_tile_idx(&self, addr: &Addr) -> (res: Result<Tile, RuntimeError>)
        ensures
            match self@.resolve(*addr) {
                Ok(tile) => res == Ok::<Tile, RuntimeError>(tile),
                Err(f) => res matches Err(e) && e@ == f,
            },
    {
        match addr {
            Addr::Direct(i) => Ok(*i),
            Addr::Ref(i) => match self.memory.get(i) {
                Some(Data::Number(n)) => Ok(number_as_tile(*n)),
                Some(Data::Char(_)) => bad_address(*i),
                None => empty_tile(*i),
            },
        }
    }

    /// The tile that `addr` names and the value in it; `EmptyTile` if it
    /// holds nothing, and the faults of resolving the address.
    pub fn get_tile(&self, addr: &Addr) -> (res: Result<(Tile, Data), RuntimeError>)
        ensures
            match self@.fetch(*addr) {
                Ok(found) => res == Ok::<(Tile, Data), RuntimeError>(found),
                Err(f) => res matches Err(e) && e@ == f,
            },
    {
        let tile = self.get_tile_idx(addr)?;
        match self.memory.get(&tile) {
            Some(d) => Ok((tile, *d)),
            None => empty_tile(tile),
        }
    }

    /// Executes the instruction under the counter and moves the counter;
    /// does nothing on a halted machine. A step that fails leaves the
    /// machine as it was.
    pub fn step(&mut self) -> (res: Result<(), RuntimeError>)
        ensures
            match old(self)@.step() {
                Ok(m) => res is Ok && final(self)@ == m,
                Err(f) => res matches Err(e) && e@ == f && final(self)@ == old(self)@,
            },
            old(self)@.fits(),
            final(self)@.fits(),
    {
        if !self.is_running() {
            return Ok(());
        }
        assert(self.counter < self.program.len());
        let instr = self.program[self.counter];
        match instr {
            Instr::Inbox => {
                if self.inbox.len() == 0 {
                    self.counter = usize::MAX;
                    return Ok(());
                }
                let front = self.inbox.remove(0);
                self.accumulator = Some(front);
            },
            Instr::Outbox => {
                let data = match self.accumulator {
                    Some(d) => d,
                    None => {
                        return Err(RuntimeError::EmptyHands);
                    },
                };
                self.accumulator = None;
                self.outbox.push(data);
            },
            Instr::CopyFrom(addr) => {
                let (_, data) = self.get_tile(&addr)?;
                self.accumulator = Some(data);
            },
            Instr::CopyTo(addr) => {
                let tile = self.get_tile_idx(&addr)?;
                let data = self.get_hands()?;
                self.memory.insert(tile, data);
            },
            Instr::Add(addr) => {
                let held = self.get_hands()?;
                let (_, operand) = self.get_tile(&addr)?;
                match (held, operand) {
                    (Data::Number(a), Data::Number(b)) => {
                        self.accumulator = Some(Data::Number(a.wrapping_add(b)));
                    },
                    _ => {
                        return invalid_op("You can't ADD with a letter");
                    },
                }
            },
            Instr::Sub(addr) => {
                let held = self.get_hands()?;
                let (_, operand) = self.get_tile(&addr)?;
                match (held, operand) {
                    (Data::Number(a), Data::Number(b)) => {
                        self.accumulator = Some(Data::Number(a.wrapping_sub(b)));
                    },
                    (Data::Char(a), Data::Char(b)) => {
                        let n: i64 = a as i64 - b as i64;
                        self.accumulator = Some(Data::Number(n));
                    },
                    _ => {
                        return invalid_op("You can't SUB with mixed operands");
                    },
                }
            },
            Instr::BumpUp(addr) => {
                let (tile, data) = self.get_tile(&addr)?;
                match data {
                    Data::Number(a) => {
                        let bumped = Data::Number(a.wrapping_add(1));
                        self.memory.insert(tile, bumped);
                        self.accumulator = Some(bumped);
                    },
                    Data::Char(_) => {
                        return invalid_op("You can't BUMP+ with a letter");
                    },
                }
            },
            Instr::BumpDown(addr) => {
                let (tile, data) = self.get_tile(&addr)?;
                match data {
                    Data::Number(a) => {
                        let bumped = Data::Number(a.wrapping_sub(1));
                        self.memory.insert(tile, bumped);
                        self.accumulator = Some(bumped);
                    },
                    Data::Char(_) => {
                        return invalid_op("You can't BUMP- with a letter");
                    },
                }
            },
            Instr::Jump(line) => {
                self.counter = line;
            },
            Instr::JumpNeg(line) => {
                let taken = match self.accumulator {
                    Some(Data::Number(i)) => i < 0,
                    _ => false,
                };
                if taken {
                    self.counter = line;
                } else {
                    self.counter += 1;
                }
            },
            Instr::JumpZero(line) => {
                let taken = match self.accumulator {
                    Some(Data::Number(i)) => i == 0,
                    _ => false,
                };
                if taken {
                    self.counter = line;
                } else {
                    self.counter += 1;
                }
            },
        }
        if !instr.is_jump() {
            self.counter += 1;
        }
        Ok(())
    }

    /// Steps until the machine halts, a step fails, or `limit` steps are
    /// done, whichever comes first. `Ok(true)` says that the machine has
    /// halted, `Ok(false)` that it would go on.
    pub fn run_steps(&mut self, limit: usize) -> (res: Result<bool, RuntimeError>)
        ensures
            final(self)@ == old(self)@.advance(limit as nat),
            match old(self)@.fault_within(limit as nat) {
                Some(f) => res matches Err(e) && e@ == f,
                None => res == Ok::<bool, RuntimeError>(!final(self)@.running()),
            },
            old(self)@.fits(),
            final(self)@.fits(),
    {
        let ghost start = self@;
        proof {
            self.lemma_fits();
        }
        let mut done: usize = 0;
        while done < limit && self.is_running()
            invariant
                start == old(self)@,
                start.fits(),
                done <= limit,
                start.fault_within(done as nat) is None,
                self@ == start.advance(done as nat),
            decreases limit - done,
        {
            proof {
                lemma_advance_one_more(start, done as nat);
                lemma_advance_add(start, done as nat + 1, (limit - done - 1) as nat);
            }
            self.step()?;
            done += 1;
        }
        proof {
            lemma_advance_add(start, done as nat, (limit - done) as nat);
        }
        Ok(!self.is_running())
    }

    /// Runs the program to its end: the output at the halt, or the fault of
    /// the first step that fails. It is for runs that end; [`Cpu::run_steps`]
    /// takes any.
    pub fn run(self) -> (res: Result<Vec<Data>, RuntimeError>)
        requires
            self@.halts(),
        ensures
            match self@.outcome() {
                Ok(out) => res matches Ok(v) && v@ == out,
                Err(f) => res matches Err(e) && e@ == f,
            },
    {
        let ghost start = self@;
        let ghost fuel = choose|n: nat| start.ends_within(n);
        let ghost done: nat = 0;
        let mut cpu = self;
        while cpu.is_running()
            invariant
                start == self@,
                start.ends_within(fuel),
                done <= fuel,
                start.fault_within(done) is None,
                cpu@ == start.advance(done),
            decreases fuel - done,
        {
            proof {
                lemma_advance_one_more(start, done);
                if cpu@.step() is Err {
                    lemma_outcome_is_determined(start, done + 1);
                }
            }
            cpu.step()?;
            proof {
                done = done + 1;
            }
        }
        proof {
            lemma_outcome_is_determined(start, done);
        }
        Ok(cpu.outbox)
    }
}

/// The tile index that `n` stands for: `n` itself where it is a valid
/// index, its low bits otherwise.
pub fn number_as_tile(n: i64) -> (tile: Tile)
    ensures
        tile == tile_of_number(n),
{
    #[verifier::truncate]
    (n as usize)
}

} // verus!
