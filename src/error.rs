use vstd::prelude::*;

verus! {

/// What can go wrong while building or editing a board.
#[derive(Debug, PartialEq, Eq)]
pub enum GameError {
    /// The initial-state text holds no dimension line.
    EmptyInput,
    /// A record is not two comma-separated decimal integers.
    InvalidFormat,
    /// A declared width or height is zero.
    InvalidDimensions,
    /// A coordinate lies outside a board of the given size.
    OutOfBounds { x: usize, y: usize, width: usize, height: usize },
    /// Reading the initial-state file failed; holds the reader's message.
    IoFailure(String),
}

} // verus!
