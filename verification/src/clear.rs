//! Clearing the display or the line.

use vstd::prelude::*;
use vstd::std_specs::convert::TryFromSpecImpl;
use vstd::string::StringSliceAdditionalSpecFns;
use vstd::utf8::*;
use crate::error::{Family, ModifierError};
use crate::escape_code::{parsed, ANSIEscapeCode, EscapeCodeView, DEFAULT_SEPARATOR};
use crate::traits::{written, written_len, HasLength, IntoANSIEscapeCode};

verus! {

/// The letter that ends a sequence that clears the display.
pub const DISPLAY: char = 'J';

/// The letter that ends a sequence that clears the line.
pub const LINE: char = 'K';

/// What is wiped off the terminal.
#[derive(Clone, Copy, Debug, PartialEq, Eq, Structural)]
pub enum Clear {
    EntireDisplay,
    DisplayBelowCursor,
    DisplayAboveCursor,
    EntireLine,
    LineAfterCursor,
    LineBeforeCursor,
}

impl Clear {
    /// The letter that ends the sequence.
    pub open spec fn spec_terminator(self) -> char {
        match self {
            Clear::EntireDisplay | Clear::DisplayBelowCursor | Clear::DisplayAboveCursor => DISPLAY,
            Clear::EntireLine | Clear::LineAfterCursor | Clear::LineBeforeCursor => LINE,
        }
    }

    /// The parameter that says which part is cleared.
    pub open spec fn spec_extent(self) -> i32 {
        match self {
            Clear::EntireDisplay | Clear::EntireLine => 2,
            Clear::DisplayBelowCursor | Clear::LineAfterCursor => 0,
            Clear::DisplayAboveCursor | Clear::LineBeforeCursor => 1,
        }
    }

    /// What a control sequence means as a clearing.  It has to end in `J` or `K`,
    /// have one parameter at most and no code.  A missing parameter counts as 0.
    pub open spec fn decoded(c: EscapeCodeView) -> Result<Clear, ModifierError> {
        if c.end_char != DISPLAY && c.end_char != LINE {
            Err(ModifierError::UnexpectedTerminator { family: Family::Clear, terminator: c.end_char })
        } else if c.modifiers.len() > 1 {
            Err(
                ModifierError::ArityMismatch {
                    family: Family::Clear,
                    expected: 1,
                    found: c.modifiers.len() as usize,
                },
            )
        } else if c.code is Some {
            Err(ModifierError::UnrecognizedCode { family: Family::Clear, code: c.code })
        } else {
            let extent = if c.modifiers.len() == 0 {
                0
            } else {
                c.modifiers[0]
            };
            if extent == 0 {
                Ok(
                    if c.end_char == DISPLAY {
                        Clear::DisplayBelowCursor
                    } else {
                        Clear::LineAfterCursor
                    },
                )
            } else if extent == 1 {
                Ok(
                    if c.end_char == DISPLAY {
                        Clear::DisplayAboveCursor
                    } else {
                        Clear::LineBeforeCursor
                    },
                )
            } else if extent == 2 {
                Ok(
                    if c.end_char == DISPLAY {
                        Clear::EntireDisplay
                    } else {
                        Clear::EntireLine
                    },
                )
            } else {
                Err(ModifierError::UnrecognizedCode { family: Family::Clear, code: c.code })
            }
        }
    }

    /// The control sequence that clears, written out.
    pub fn to_string(&self) -> (r: String)
        ensures
            encode_utf8(r@) == self.escape_code().text(),
    {
        written(self)
    }
}

impl IntoANSIEscapeCode for Clear {
    /// The parameter is always written, also where a sequence without it would mean
    /// the same.
    open spec fn escape_code(&self) -> EscapeCodeView {
        EscapeCodeView {
            code: None,
            modifiers: seq![self.spec_extent()],
            sep: DEFAULT_SEPARATOR,
            end_char: self.spec_terminator(),
            source: None,
        }
    }

    fn into_ansi_escape_code(&self) -> (r: ANSIEscapeCode) {
        let (extent, terminator): (i32, char) = match self {
            Clear::EntireDisplay => (2, DISPLAY),
            Clear::DisplayBelowCursor => (0, DISPLAY),
            Clear::DisplayAboveCursor => (1, DISPLAY),
            Clear::EntireLine => (2, LINE),
            Clear::LineAfterCursor => (0, LINE),
            Clear::LineBeforeCursor => (1, LINE),
        };
        let mut parameters: Vec<i32> = Vec::new();
        parameters.push(extent);
        assert(parameters@ =~= seq![self.spec_extent()]);
        ANSIEscapeCode::new(None, Some(parameters), terminator)
    }
}

impl HasLength for Clear {
    open spec fn spec_len(&self) -> nat {
        self.escape_code().text().len()
    }

    fn len(&self) -> (n: usize) {
        written_len(self)
    }
}

impl<'a> TryFrom<&'a ANSIEscapeCode> for Clear {
    type Error = ModifierError;

    fn try_from(value: &'a ANSIEscapeCode) -> (r: Result<Clear, ModifierError>) {
        let display = value.end_char == DISPLAY;
        if !display && value.end_char != LINE {
            return Err(
                ModifierError::UnexpectedTerminator {
                    family: Family::Clear,
                    terminator: value.end_char,
                },
            );
        }
        let found = value.modifiers.len();
        if found > 1 {
            return Err(ModifierError::ArityMismatch { family: Family::Clear, expected: 1, found });
        }
        if value.code.is_some() {
            return Err(ModifierError::UnrecognizedCode { family: Family::Clear, code: value.code });
        }
        let extent: i32 = if found == 0 {
            0
        } else {
            value.modifiers[0]
        };
        match (extent, display) {
            (0, true) => Ok(Clear::DisplayBelowCursor),
            (0, false) => Ok(Clear::LineAfterCursor),
            (1, true) => Ok(Clear::DisplayAboveCursor),
            (1, false) => Ok(Clear::LineBeforeCursor),
            (2, true) => Ok(Clear::EntireDisplay),
            (2, false) => Ok(Clear::EntireLine),
            _ => Err(ModifierError::UnrecognizedCode { family: Family::Clear, code: value.code }),
        }
    }
}

impl<'a> TryFromSpecImpl<&'a ANSIEscapeCode> for Clear {
    open spec fn obeys_try_from_spec() -> bool {
        true
    }

    open spec fn try_from_spec(v: &'a ANSIEscapeCode) -> Result<Clear, ModifierError> {
        Clear::decoded(v@)
    }
}

impl TryFrom<ANSIEscapeCode> for Clear {
    type Error = ModifierError;

    fn try_from(value: ANSIEscapeCode) -> (r: Result<Clear, ModifierError>) {
        Clear::try_from(&value)
    }
}

impl TryFromSpecImpl<ANSIEscapeCode> for Clear {
    open spec fn obeys_try_from_spec() -> bool {
        true
    }

    open spec fn try_from_spec(v: ANSIEscapeCode) -> Result<Clear, ModifierError> {
        Clear::decoded(v@)
    }
}

impl<'a> TryFrom<&'a str> for Clear {
    type Error = ModifierError;

    /// Reads the control sequence that `value` begins with, as a clearing.
    fn try_from(value: &'a str) -> (r: Result<Clear, ModifierError>) {
        match ANSIEscapeCode::try_from(value) {
            Ok(code) => Clear::try_from(&code),
            Err(e) => Err(e),
        }
    }
}

impl<'a> TryFromSpecImpl<&'a str> for Clear {
    open spec fn obeys_try_from_spec() -> bool {
        true
    }

    open spec fn try_from_spec(v: &'a str) -> Result<Clear, ModifierError> {
        match parsed(v.spec_bytes()) {
            Ok(c) => Clear::decoded(c),
            Err(e) => Err(e),
        }
    }
}

} // verus!
