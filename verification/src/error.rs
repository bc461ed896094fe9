//! What can go wrong while a program runs.
use vstd::prelude::*;
use vstd::string::StringExecFns;

verus! {

/// The mathematical content of a [`RuntimeError`].
pub enum Fault {
    /// The tile used as a pointer holds a letter.
    BadTileAddress(usize),
    /// An instruction needed a value in the accumulator and found none.
    EmptyHands,
    /// An instruction needed a value in this tile and found none.
    EmptyTile(usize),
    /// A typing rule of the language was broken; the text says which.
    InvalidOperation(Seq<char>),
}

/// The error that ends a run.
#[derive(Debug)]
pub enum RuntimeError {
    BadTileAddress(usize),
    EmptyHands,
    EmptyTile(usize),
    InvalidOperation(String),
}

impl View for RuntimeError {
    type V = Fault;

    open spec fn view(&self) -> Fault {
        match *self {
            RuntimeError::BadTileAddress(tile) => Fault::BadTileAddress(tile),
            RuntimeError::EmptyHands => Fault::EmptyHands,
            RuntimeError::EmptyTile(tile) => Fault::EmptyTile(tile),
            RuntimeError::InvalidOperation(msg) => Fault::InvalidOperation(msg@),
        }
    }
}

/// Fails because the tile used as a pointer holds a letter.
pub fn bad_address<T>(tile: usize) -> (res: Result<T, RuntimeError>)
    ensures
        res matches Err(e) && e@ == Fault::BadTileAddress(tile),
{
    Err(RuntimeError::BadTileAddress(tile))
}

/// Fails because the tile holds nothing.
pub fn empty_tile<T>(tile: usize) -> (res: Result<T, RuntimeError>)
    ensures
        res matches Err(e) && e@ == Fault::EmptyTile(tile),
{
    Err(RuntimeError::EmptyTile(tile))
}

/// Fails because a typing rule was broken, with `msg` as the reason.
pub fn invalid_op<T>(msg: &str) -> (res: Result<T, RuntimeError>)
    ensures
        res matches Err(e) && e@ == Fault::InvalidOperation(msg@),
{
    Err(RuntimeError::InvalidOperation(String::from_str(msg)))
}

} // verus!
