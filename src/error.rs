use vstd::prelude::*;
use crate::position::{ExpressionIdentifier, Position};

verus! {

/// Why a grid could not be compiled. Every error is fatal: nothing is
/// emitted.
#[derive(Clone, Copy, Debug, PartialEq, Eq, Structural)]
pub enum CompileError {
    /// A glyph outside the instruction set, and where it stands.
    InvalidCharacter { ch: char, position: Position },
    /// The grid holds no start glyph.
    MissingStart,
    /// The grid holds more than one start glyph.
    MultipleStart,
    /// An instruction without inverse semantics (write, read, string
    /// literal) is reached in inverse mode, in the block with this key.
    UnsupportedInverseOperation { key: ExpressionIdentifier },
    /// A number or string literal runs off the grid; the position is where
    /// the literal starts.
    OutOfBoundsLiteral { position: Position },
}

} // verus!
