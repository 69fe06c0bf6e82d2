//! The colour of the text.

use vstd::prelude::*;
use vstd::std_specs::convert::TryFromSpecImpl;
use vstd::string::StringSliceAdditionalSpecFns;
use vstd::utf8::*;
use crate::error::{Family, ModifierError};
use crate::escape_code::{parsed, ANSIEscapeCode, EscapeCodeView};
use crate::palette::{
    cube_index, decode, encode, index_by_name, name_of, palette_code, palette_decoded,
    palette_name, CUBE_START, GRAY_START,
};
use crate::text::same_text;
use crate::traits::{written, written_len, HasLength, IntoANSIEscapeCode};

verus! {

/// The code that sets the colour of the text.
pub const SET_COLOUR: u16 = 38;

/// The code that gives the colour of the text back to the terminal.
pub const RESET_COLOUR: u16 = 39;

/// A colour for the text that follows.
#[derive(Clone, Copy, Debug, PartialEq, Eq, Structural)]
pub enum Colour {
    /// The colour that the terminal uses by itself.
    Reset,
    /// An entry of the table of 256 colours.
    Palette(u8),
}

impl Colour {
    /// The entry of the table, or nothing for [`Colour::Reset`].
    pub open spec fn spec_index(self) -> Option<u8> {
        match self {
            Colour::Reset => None,
            Colour::Palette(i) => Some(i),
        }
    }

    /// The name of the colour.
    pub open spec fn spec_name(self) -> Seq<char> {
        match self {
            Colour::Reset => "Reset"@,
            Colour::Palette(i) => palette_name(i),
        }
    }

    /// What a control sequence means as a colour of the text.
    pub open spec fn decoded(c: EscapeCodeView) -> Result<Colour, ModifierError> {
        match palette_decoded(c, Family::Colour, SET_COLOUR, RESET_COLOUR) {
            Ok(Some(i)) => Ok(Colour::Palette(i)),
            Ok(None) => Ok(Colour::Reset),
            Err(e) => Err(e),
        }
    }

    /// One of the sixteen standard colours, if `index` is below 16.
    pub fn standard(index: u8) -> (r: Option<Colour>)
        ensures
            r == if index < CUBE_START {
                Some(Colour::Palette(index))
            } else {
                None
            },
    {
        if index < CUBE_START {
            Some(Colour::Palette(index))
        } else {
            None
        }
    }

    /// The colour of the cube with the given levels, if each is below 6.
    pub fn cube(r: u8, g: u8, b: u8) -> (c: Option<Colour>)
        ensures
            c == if r < 6 && g < 6 && b < 6 {
                Some(Colour::Palette(cube_index(r, g, b)))
            } else {
                None
            },
    {
        if r < 6 && g < 6 && b < 6 {
            Some(Colour::Palette(CUBE_START + 36 * r + 6 * g + b))
        } else {
            None
        }
    }

    /// The grey of the given step, if it is below 24.
    pub fn grayscale(step: u8) -> (c: Option<Colour>)
        ensures
            c == if step < 24 {
                Some(Colour::Palette((GRAY_START + step) as u8))
            } else {
                None
            },
    {
        if step < 24 {
            Some(Colour::Palette(GRAY_START + step))
        } else {
            None
        }
    }

    /// The entry of the table, or nothing for [`Colour::Reset`].
    pub fn index(&self) -> (r: Option<u8>)
        ensures
            r == self.spec_index(),
    {
        match self {
            Colour::Reset => None,
            Colour::Palette(i) => Some(*i),
        }
    }

    /// The name of the colour.
    pub fn name(&self) -> (r: String)
        ensures
            r@ == self.spec_name(),
    {
        match self {
            Colour::Reset => "Reset".to_owned(),
            Colour::Palette(i) => name_of(*i),
        }
    }

    /// Finds the colour of the given name.  Upper and lower case count.
    pub fn by_name(name: &str) -> (r: Option<Colour>)
        ensures
            match r {
                Some(c) => c.spec_name() == name@,
                None => forall|c: Colour| c.spec_name() != name@,
            },
    {
        if same_text(name, "Reset") {
            Some(Colour::Reset)
        } else {
            match index_by_name(name) {
                Some(i) => Some(Colour::Palette(i)),
                None => None,
            }
        }
    }

    /// The modifier that undoes this one: the colour of the terminal, whatever this one is and whatever
    /// text it was applied to.
    pub fn resetter(&self, input: Option<&str>) -> (r: Colour)
        ensures
            r == Colour::Reset,
    {
        Colour::Reset
    }

    /// The control sequence that selects the colour, written out.
    pub fn to_string(&self) -> (r: String)
        ensures
            encode_utf8(r@) == self.escape_code().text(),
    {
        written(self)
    }
}

impl IntoANSIEscapeCode for Colour {
    open spec fn escape_code(&self) -> EscapeCodeView {
        palette_code(self.spec_index(), SET_COLOUR, RESET_COLOUR)
    }

    fn into_ansi_escape_code(&self) -> (r: ANSIEscapeCode) {
        encode(self.index(), SET_COLOUR, RESET_COLOUR)
    }
}

impl HasLength for Colour {
    open spec fn spec_len(&self) -> nat {
        self.escape_code().text().len()
    }

    fn len(&self) -> (n: usize) {
        written_len(self)
    }
}

impl<'a> TryFrom<&'a ANSIEscapeCode> for Colour {
    type Error = ModifierError;

    fn try_from(value: &'a ANSIEscapeCode) -> (r: Result<Colour, ModifierError>) {
        match decode(value, Family::Colour, SET_COLOUR, RESET_COLOUR) {
            Ok(Some(i)) => Ok(Colour::Palette(i)),
            Ok(None) => Ok(Colour::Reset),
            Err(e) => Err(e),
        }
    }
}

impl<'a> TryFromSpecImpl<&'a ANSIEscapeCode> for Colour {
    open spec fn obeys_try_from_spec() -> bool {
        true
    }

    open spec fn try_from_spec(v: &'a ANSIEscapeCode) -> Result<Colour, ModifierError> {
        Colour::decoded(v@)
    }
}

impl TryFrom<ANSIEscapeCode> for Colour {
    type Error = ModifierError;

    fn try_from(value: ANSIEscapeCode) -> (r: Result<Colour, ModifierError>) {
        Colour::try_from(&value)
    }
}

impl TryFromSpecImpl<ANSIEscapeCode> for Colour {
    open spec fn obeys_try_from_spec() -> bool {
        true
    }

    open spec fn try_from_spec(v: ANSIEscapeCode) -> Result<Colour, ModifierError> {
        Colour::decoded(v@)
    }
}

impl<'a> TryFrom<&'a str> for Colour {
    type Error = ModifierError;

    /// Reads the control sequence that `value` begins with, as a colour of the text.
    fn try_from(value: &'a str) -> (r: Result<Colour, ModifierError>) {
        match ANSIEscapeCode::try_from(value) {
            Ok(code) => Colour::try_from(&code),
            Err(e) => Err(e),
        }
    }
}

impl<'a> TryFromSpecImpl<&'a str> for Colour {
    open spec fn obeys_try_from_spec() -> bool {
        true
    }

    open spec fn try_from_spec(v: &'a str) -> Result<Colour, ModifierError> {
        match parsed(v.spec_bytes()) {
            Ok(c) => Colour::decoded(c),
            Err(e) => Err(e),
        }
    }
}

} // verus!
