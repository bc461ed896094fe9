//! The instruction set that the machine executes.
use vstd::prelude::*;

verus! {

/// How an instruction names the tile it works on.
#[derive(Debug, Copy, Clone, PartialEq, Eq, Structural)]
pub enum Addr {
    /// The tile with this index.
    Direct(usize),
    /// The tile whose index is the number stored in the tile with this index.
    Ref(usize),
}

/// One instruction. Jump targets are positions in the program.
#[derive(Debug, Copy, Clone, PartialEq, Eq, Structural)]
pub enum Instr {
    Inbox,
    Outbox,
    CopyTo(Addr),
    CopyFrom(Addr),
    Add(Addr),
    Sub(Addr),
    BumpUp(Addr),
    BumpDown(Addr),
    Jump(usize),
    JumpZero(usize),
    JumpNeg(usize),
}

impl Instr {
    /// Whether the instruction is one of the three jumps.
    pub open spec fn spec_is_jump(&self) -> bool {
        self is Jump || self is JumpNeg || self is JumpZero
    }

    /// Whether the instruction is one of the three jumps.
    #[verifier::when_used_as_spec(spec_is_jump)]
    pub fn is_jump(&self) -> (b: bool)
        ensures
            b == self.spec_is_jump(),
    {
        match *self {
            Instr::Jump(_) | Instr::JumpNeg(_) | Instr::JumpZero(_) => true,
            _ => false,
        }
    }
}

} // verus!
