//! What can go wrong when text or a control sequence is read.

use vstd::prelude::*;

verus! {

/// The kinds of modifier that a control sequence can stand for.
#[derive(Clone, Copy, Debug, PartialEq, Eq, Structural)]
pub enum Family {
    Intensity,
    Colour,
    Background,
    Clear,
    MoveCursor,
}

/// Why text is no control sequence, or a control sequence no modifier.
#[derive(Clone, Copy, Debug, PartialEq, Eq, Structural)]
pub enum ModifierError {
    /// The text does not begin with a control sequence.
    NotAModifier,
    /// One of the integers of the sequence does not fit in 32 bits.
    ParameterOutOfRange,
    /// The first integer of a style sequence is no 16-bit code.
    CodeOutOfRange { value: i32 },
    /// The sequence ends in a letter that the family does not use.
    UnexpectedTerminator { family: Family, terminator: char },
    /// The sequence has another number of parameters than the family asks for.
    ArityMismatch { family: Family, expected: usize, found: usize },
    /// The code is missing where the family needs one, present where it has none,
    /// or the code or a parameter has a value that the family gives no meaning.
    UnrecognizedCode { family: Family, code: Option<u16> },
    /// The colour asked for is no entry of the 256-colour table.
    PaletteIndexOutOfRange { family: Family, index: i32 },
    /// No family gives the sequence a meaning.
    UnsupportedCode { code: Option<u16>, terminator: char },
}

} // verus!
