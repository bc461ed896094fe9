//! From statements to instructions: labels are bound to positions of the
//! program, and jumps get the position that their label is bound to.
use crate::grammar::Word;
use crate::op::Instr;
use crate::parser::Token;
use vstd::prelude::*;

verus! {

/// The statements that a sequence of tokens stands for.
pub open spec fn words_in(tokens: Seq<Token<'_>>) -> Seq<Word> {
    tokens.map_values(|t: Token<'_>| t@)
}

/// How many of the statements are instructions, that is, no label.
pub open spec fn instruction_count(words: Seq<Word>) -> nat
    decreases words.len(),
{
    if words.len() == 0 {
        0
    } else if words.last().is_label() {
        instruction_count(words.drop_last())
    } else {
        instruction_count(words.drop_last()) + 1
    }
}

/// The label table: each name that is defined, with the number of
/// instructions that stand before its definition. Of two definitions of one
/// name the later counts.
pub open spec fn bindings(words: Seq<Word>) -> Map<Seq<u8>, nat>
    decreases words.len(),
{
    if words.len() == 0 {
        Map::empty()
    } else {
        let before = bindings(words.drop_last());
        match words.last() {
            Word::Label(name) => before.insert(name, instruction_count(words.drop_last())),
            _ => before,
        }
    }
}

/// The jump to what `table` binds `name` to, made by `jump`; none where the
/// name is not bound.
pub open spec fn bound_jump(
    name: Seq<u8>,
    table: Map<Seq<u8>, nat>,
    jump: spec_fn(usize) -> Instr,
) -> Option<Instr> {
    if table.contains_key(name) {
        Some(jump(table[name] as usize))
    } else {
        None
    }
}

/// The instruction that a statement becomes under a label table. A label
/// becomes none, and so does a jump to a name that the table does not bind.
pub open spec fn instruction_of(word: Word, table: Map<Seq<u8>, nat>) -> Option<Instr> {
    match word {
        Word::Label(_) => None,
        Word::Inbox => Some(Instr::Inbox),
        Word::Outbox => Some(Instr::Outbox),
        Word::CopyTo(a) => Some(Instr::CopyTo(a)),
        Word::CopyFrom(a) => Some(Instr::CopyFrom(a)),
        Word::Add(a) => Some(Instr::Add(a)),
        Word::Sub(a) => Some(Instr::Sub(a)),
        Word::BumpUp(a) => Some(Instr::BumpUp(a)),
        Word::BumpDown(a) => Some(Instr::BumpDown(a)),
        Word::Jump(name) => bound_jump(name, table, |line: usize| Instr::Jump(line)),
        Word::JumpNeg(name) => bound_jump(name, table, |line: usize| Instr::JumpNeg(line)),
        Word::JumpZero(name) => bound_jump(name, table, |line: usize| Instr::JumpZero(line)),
    }
}

/// The instructions that the statements become under a label table, in
/// their order.
pub open spec fn emit(words: Seq<Word>, table: Map<Seq<u8>, nat>) -> Seq<Instr>
    decreases words.len(),
{
    if words.len() == 0 {
        Seq::empty()
    } else {
        match instruction_of(words.last(), table) {
            Some(instr) => emit(words.drop_last(), table).push(instr),
            None => emit(words.drop_last(), table),
        }
    }
}

/// The program that the statements make: what they become under their own
/// label table.
pub open spec fn instructions_of(words: Seq<Word>) -> Seq<Instr> {
    emit(words, bindings(words))
}

/// Whether a statement is a jump to a name that the table does not bind.
pub open spec fn is_unbound_jump(word: Word, table: Map<Seq<u8>, nat>) -> bool {
    match word {
        Word::Jump(name) | Word::JumpNeg(name) | Word::JumpZero(name) => !table.contains_key(
            name,
        ),
        _ => false,
    }
}

/// How many of the statements are jumps to names that the table does not
/// bind.
pub open spec fn unbound_jumps(words: Seq<Word>, table: Map<Seq<u8>, nat>) -> nat
    decreases words.len(),
{
    if words.len() == 0 {
        0
    } else if is_unbound_jump(words.last(), table) {
        unbound_jumps(words.drop_last(), table) + 1
    } else {
        unbound_jumps(words.drop_last(), table)
    }
}

/// What statements in a row become is what the first of them become,
/// followed by what the rest become.
pub proof fn lemma_emit_in_parts(first: Seq<Word>, rest: Seq<Word>, table: Map<Seq<u8>, nat>)
    ensures
        emit(first + rest, table) == emit(first, table) + emit(rest, table),
    decreases rest.len(),
{
    if rest.len() == 0 {
        assert(first + rest =~= first);
        assert(emit(first, table) + emit(rest, table) =~= emit(first, table));
    } else {
        lemma_emit_in_parts(first, rest.drop_last(), table);
        assert((first + rest).drop_last() =~= first + rest.drop_last());
        assert((first + rest).last() == rest.last());
        match instruction_of(rest.last(), table) {
            Some(instr) => {
                assert(emit(first, table) + emit(rest.drop_last(), table).push(instr) =~= (emit(
                    first,
                    table,
                ) + emit(rest.drop_last(), table)).push(instr));
            },
            None => {},
        }
    }
}

/// A jump to a name that is bound nowhere leaves nothing in the program:
/// the program is that of the statements before it, followed by that of the
/// statements behind it.
pub proof fn lemma_unbound_jump_is_dropped(
    before: Seq<Word>,
    jump: Word,
    behind: Seq<Word>,
    table: Map<Seq<u8>, nat>,
)
    requires
        is_unbound_jump(jump, table),
    ensures
        emit(before + seq![jump] + behind, table) == emit(before, table) + emit(behind, table),
{
    lemma_emit_in_parts(before + seq![jump], behind, table);
    lemma_emit_in_parts(before, seq![jump], table);
    assert(seq![jump].drop_last() =~= Seq::<Word>::empty());
    assert(emit(seq![jump], table) =~= Seq::<Instr>::empty()) by {
        reveal_with_fuel(emit, 2);
    }
    assert(emit(before, table) + Seq::<Instr>::empty() =~= emit(before, table));
}

/// The program has one instruction for each statement that is no label and
/// no jump to an unbound name.
pub proof fn lemma_program_length(words: Seq<Word>, table: Map<Seq<u8>, nat>)
    ensures
        emit(words, table).len() + unbound_jumps(words, table) == instruction_count(words),
    decreases words.len(),
{
    if words.len() > 0 {
        lemma_program_length(words.drop_last(), table);
    }
}

/// A label is bound to the number of instructions that stand before its
/// last definition.
pub proof fn lemma_label_is_bound(before: Seq<Word>, name: Seq<u8>, behind: Seq<Word>)
    requires
        forall|i: int| 0 <= i < behind.len() ==> #[trigger] behind[i] != Word::Label(name),
    ensures
        bindings(before + seq![Word::Label(name)] + behind).contains_key(name),
        bindings(before + seq![Word::Label(name)] + behind)[name] == instruction_count(before),
    decreases behind.len(),
{
    let all = before + seq![Word::Label(name)] + behind;
    if behind.len() == 0 {
        assert(all.drop_last() =~= before);
        assert(all.last() == Word::Label(name));
    } else {
        lemma_label_is_bound(before, name, behind.drop_last());
        assert(all.drop_last() =~= before + seq![Word::Label(name)] + behind.drop_last());
        assert(all.last() == behind[behind.len() - 1]);
    }
}

/// A label, an `INBOX` and a jump back to the label make a program of two
/// instructions, the jump going to the `INBOX` at position 0, whatever the
/// name of the label.
pub proof fn lemma_jump_back_to_start(name: Seq<u8>)
    ensures
        instructions_of(seq![Word::Label(name), Word::Inbox, Word::Jump(name)]) == seq![
            Instr::Inbox,
            Instr::Jump(0),
        ],
{
    let words = seq![Word::Label(name), Word::Inbox, Word::Jump(name)];
    let empty = Seq::<Word>::empty();
    lemma_label_is_bound(empty, name, seq![Word::Inbox, Word::Jump(name)]);
    assert(empty + seq![Word::Label(name)] + seq![Word::Inbox, Word::Jump(name)] =~= words);
    let table = bindings(words);
    assert(table[name] == 0);
    assert(words.drop_last() =~= seq![Word::Label(name), Word::Inbox]);
    assert(words.drop_last().drop_last() =~= seq![Word::Label(name)]);
    assert(words.drop_last().drop_last().drop_last() =~= empty);
    reveal_with_fuel(emit, 4);
    assert(emit(words, table) =~= seq![Instr::Inbox, Instr::Jump(0)]);
}

/// The table that a list of entries stands for: a later entry overrides an
/// earlier one of the same name.
pub open spec fn table_of(entries: Seq<(&[u8], usize)>) -> Map<Seq<u8>, nat>
    decreases entries.len(),
{
    if entries.len() == 0 {
        Map::empty()
    } else {
        table_of(entries.drop_last()).insert(entries.last().0@, entries.last().1 as nat)
    }
}

/// Entries that do not bear `name` change nothing about it in the table.
proof fn lemma_table_skips(entries: Seq<(&[u8], usize)>, k: int, name: Seq<u8>)
    requires
        0 <= k <= entries.len(),
        forall|j: int| k <= j < entries.len() ==> (#[trigger] entries[j]).0@ != name,
    ensures
        table_of(entries).contains_key(name) == table_of(entries.take(k)).contains_key(name),
        table_of(entries).contains_key(name) ==> table_of(entries)[name] == table_of(
            entries.take(k),
        )[name],
    decreases entries.len() - k,
{
    if k == entries.len() {
        assert(entries.take(k) =~= entries);
    } else {
        let shorter = entries.drop_last();
        assert(entries.last() == entries[entries.len() - 1]);
        lemma_table_skips(shorter, k, name);
        assert(shorter.take(k) =~= entries.take(k));
    }
}

/// Whether two byte strings are the same.
pub fn same_bytes(a: &[u8], b: &[u8]) -> (same: bool)
    ensures
        same == (a@ == b@),
{
    if a.len() != b.len() {
        return false;
    }
    let mut i: usize = 0;
    while i < a.len()
        invariant
            i <= a@.len(),
            a@.len() == b@.len(),
            forall|j: int| 0 <= j < i ==> a@[j] == b@[j],
        decreases a@.len() - i,
    {
        if a[i] != b[i] {
            return false;
        }
        i += 1;
    }
    assert(a@ =~= b@);
    true
}

/// What the table binds `name` to.
pub fn lookup(entries: &Vec<(&[u8], usize)>, name: &[u8]) -> (line: Option<usize>)
    ensures
        match line {
            Some(n) => table_of(entries@).contains_key(name@) && table_of(entries@)[name@] == n,
            None => !table_of(entries@).contains_key(name@),
        },
{
    let mut i = entries.len();
    while i > 0
        invariant
            i <= entries@.len(),
            forall|j: int| i <= j < entries@.len() ==> (#[trigger] entries@[j]).0@ != name@,
        decreases i,
    {
        i -= 1;
        let (bound, line) = entries[i];
        if same_bytes(bound, name) {
            proof {
                lemma_table_skips(entries@, i + 1, name@);
                let upto = entries@.take(i + 1);
                assert(upto.last() == entries@[i as int]);
            }
            return Some(line);
        }
    }
    proof {
        lemma_table_skips(entries@, 0, name@);
        assert(entries@.take(0) =~= Seq::<(&[u8], usize)>::empty());
    }
    None
}

/// The instruction that a statement becomes under the table, if any.
pub fn instruction(token: &Token<'_>, entries: &Vec<(&[u8], usize)>) -> (instr: Option<Instr>)
    ensures
        instr == instruction_of(token@, table_of(entries@)),
{
    match *token {
        Token::Label(_) => None,
        Token::Inbox => Some(Instr::Inbox),
        Token::Outbox => Some(Instr::Outbox),
        Token::CopyTo(a) => Some(Instr::CopyTo(a)),
        Token::CopyFrom(a) => Some(Instr::CopyFrom(a)),
        Token::Add(a) => Some(Instr::Add(a)),
        Token::Sub(a) => Some(Instr::Sub(a)),
        Token::BumpUp(a) => Some(Instr::BumpUp(a)),
        Token::BumpDown(a) => Some(Instr::BumpDown(a)),
        Token::Jump(name) => match lookup(entries, name) {
            Some(line) => Some(Instr::Jump(line)),
            None => None,
        },
        Token::JumpNeg(name) => match lookup(entries, name) {
            Some(line) => Some(Instr::JumpNeg(line)),
            None => None,
        },
        Token::JumpZero(name) => match lookup(entries, name) {
            Some(line) => Some(Instr::JumpZero(line)),
            None => None,
        },
    }
}

/// The program that the statements make. Each label is bound to the number
/// of instructions before it; each jump gets the number that its label is
/// bound to, and is left out where the label is defined nowhere.
pub fn assemble(tokens: &Vec<Token<'_>>) -> (program: Vec<Instr>)
    ensures
        program@ == instructions_of(words_in(tokens@)),
{
    let ghost words = words_in(tokens@);
    let mut entries: Vec<(&[u8], usize)> = Vec::new();
    let mut count: usize = 0;
    let mut i: usize = 0;
    while i < tokens.len()
        invariant
            i <= tokens@.len(),
            words == words_in(tokens@),
            count == instruction_count(words.take(i as int)),
            count <= i,
            table_of(entries@) == bindings(words.take(i as int)),
        decreases tokens@.len() - i,
    {
        proof {
            assert(words.take(i + 1).drop_last() =~= words.take(i as int));
            assert(words.take(i + 1).last() == tokens@[i as int]@);
        }
        match tokens[i] {
            Token::Label(name) => {
                proof {
                    assert(entries@.push((name, count)).drop_last() =~= entries@);
                }
                entries.push((name, count));
            },
            _ => {
                count += 1;
            },
        }
        i += 1;
    }
    assert(words.take(i as int) =~= words);
    let mut program: Vec<Instr> = Vec::new();
    let mut i: usize = 0;
    while i < tokens.len()
        invariant
            i <= tokens@.len(),
            words == words_in(tokens@),
            table_of(entries@) == bindings(words),
            program@ == emit(words.take(i as int), bindings(words)),
        decreases tokens@.len() - i,
    {
        proof {
            assert(words.take(i + 1).drop_last() =~= words.take(i as int));
            assert(words.take(i + 1).last() == tokens@[i as int]@);
        }
        match instruction(&tokens[i], &entries) {
            Some(instr) => {
                program.push(instr);
            },
            None => {},
        }
        i += 1;
    }
    assert(words.take(i as int) =~= words);
    program
}

} // verus!
