//! The colour behind the text.

use vstd::prelude::*;
use vstd::std_specs::convert::TryFromSpecImpl;
use vstd::string::StringSliceAdditionalSpecFns;
use vstd::utf8::*;
use crate::error::{Family, ModifierError};
use crate::escape_code::{parsed, ANSIEscapeCode, EscapeCodeView};
use crate::palette::{
    cube_index, decode, encode, index_by_name, name_of, palette_code, palette_decoded,
    palette_name, CUBE_START, GRAY_START,
};
use crate::text::same_text;
use crate::traits::{written, written_len, HasLength, IntoANSIEscapeCode};

verus! {

/// The code that sets the colour behind the text.
pub const SET_BACKGROUND: u16 = 48;

/// The code that gives the colour behind the text back to the terminal.
pub const RESET_BACKGROUND: u16 = 49;

/// A colour behind the text that follows.
#[derive(Clone, Copy, Debug, PartialEq, Eq, Structural)]
pub enum Background {
    /// The colour that the terminal uses by itself.
    Reset,
    /// An entry of the table of 256 colours.
    Palette(u8),
}

impl Background {
    /// The entry of the table, or nothing for [`Background::Reset`].
    pub open spec fn spec_index(self) -> Option<u8> {
        match self {
            Background::Reset => None,
            Background::Palette(i) => Some(i),
        }
    }

    /// The name of the colour.
    pub open spec fn spec_name(self) -> Seq<char> {
        match self {
            Background::Reset => "Reset"@,
            Background::Palette(i) => palette_name(i),
        }
    }

    /// What a control sequence means as a colour behind the text.
    pub open spec fn decoded(c: EscapeCodeView) -> Result<Background, ModifierError> {
        match palette_decoded(c, Family::Background, SET_BACKGROUND, RESET_BACKGROUND) {
            Ok(Some(i)) => Ok(Background::Palette(i)),
            Ok(None) => Ok(Background::Reset),
            Err(e) => Err(e),
        }
    }

    /// One of the sixteen standard colours, if `index` is below 16.
    pub fn standard(index: u8) -> (r: Option<Background>)
        ensures
            r == if index < CUBE_START {
                Some(Background::Palette(index))
            } else {
                None
            },
    {
        if index < CUBE_START {
            Some(Background::Palette(index))
        } else {
            None
        }
    }

    /// The colour of the cube with the given levels, if each is below 6.
    pub fn cube(r: u8, g: u8, b: u8) -> (c: Option<Background>)
        ensures
            c == if r < 6 && g < 6 && b < 6 {
                Some(Background::Palette(cube_index(r, g, b)))
            } else {
                None
            },
    {
        if r < 6 && g < 6 && b < 6 {
            Some(Background::Palette(CUBE_START + 36 * r + 6 * g + b))
        } else {
            None
        }
    }

    /// The grey of the given step, if it is below 24.
    pub fn grayscale(step: u8) -> (c: Option<Background>)
        ensures
            c == if step < 24 {
                Some(Background::Palette((GRAY_START + step) as u8))
            } else {
                None
            },
    {
        if step < 24 {
            Some(Background::Palette(GRAY_START + step))
        } else {
            None
        }
    }

    /// The entry of the table, or nothing for [`Background::Reset`].
    pub fn index(&self) -> (r: Option<u8>)
        ensures
            r == self.spec_index(),
    {
        match self {
            Background::Reset => None,
            Background::Palette(i) => Some(*i),
        }
    }

    /// The name of the colour.
    pub fn name(&self) -> (r: String)
        ensures
            r@ == self.spec_name(),
    {
        match self {
            Background::Reset => "Reset".to_owned(),
            Background::Palette(i) => name_of(*i),
        }
    }

    /// Finds the colour of the given name.  Upper and lower case count.
    pub fn by_name(name: &str) -> (r: Option<Background>)
        ensures
            match r {
                Some(c) => c.spec_name() == name@,
                None => forall|c: Background| c.spec_name() != name@,
            },
    {
        if same_text(name, "Reset") {
            Some(Background::Reset)
        } else {
            match index_by_name(name) {
                Some(i) => Some(Background::Palette(i)),
                None => None,
            }
        }
    }

    /// The modifier that undoes this one: the colour of the terminal, whatever this one is and whatever
    /// text it was applied to.
    pub fn resetter(&self, input: Option<&str>) -> (r: Background)
        ensures
            r == Background::Reset,
    {
        Background::Reset
    }

    /// The control sequence that selects the colour, written out.
    pub fn to_string(&self) -> (r: String)
        ensures
            encode_utf8(r@) == self.escape_code().text(),
    {
        written(self)
    }
}

impl IntoANSIEscapeCode for Background {
    open spec fn escape_code(&self) -> EscapeCodeView {
        palette_code(self.spec_index(), SET_BACKGROUND, RESET_BACKGROUND)
    }

    fn into_ansi_escape_code(&self) -> (r: ANSIEscapeCode) {
        encode(self.index(), SET_BACKGROUND, RESET_BACKGROUND)
    }
}

impl HasLength for Background {
    open spec fn spec_len(&self) -> nat {
        self.escape_code().text().len()
    }

    fn len(&self) -> (n: usize) {
        written_len(self)
    }
}

impl<'a> TryFrom<&'a ANSIEscapeCode> for Background {
    type Error = ModifierError;

    fn try_from(value: &'a ANSIEscapeCode) -> (r: Result<Background, ModifierError>) {
        match decode(value, Family::Background, SET_BACKGROUND, RESET_BACKGROUND) {
            Ok(Some(i)) => Ok(Background::Palette(i)),
            Ok(None) => Ok(Background::Reset),
            Err(e) => Err(e),
        }
    }
}

impl<'a> TryFromSpecImpl<&'a ANSIEscapeCode> for Background {
    open spec fn obeys_try_from_spec() -> bool {
        true
    }

    open spec fn try_from_spec(v: &'a ANSIEscapeCode) -> Result<Background, ModifierError> {
        Background::decoded(v@)
    }
}

impl TryFrom<ANSIEscapeCode> for Background {
    type Error = ModifierError;

    fn try_from(value: ANSIEscapeCode) -> (r: Result<Background, ModifierError>) {
        Background::try_from(&value)
    }
}

impl TryFromSpecImpl<ANSIEscapeCode> for Background {
    open spec fn obeys_try_from_spec() -> bool {
        true
    }

    open spec fn try_from_spec(v: ANSIEscapeCode) -> Result<Background, ModifierError> {
        Background::decoded(v@)
    }
}

impl<'a> TryFrom<&'a str> for Background {
    type Error = ModifierError;

    /// Reads the control sequence that `value` begins with, as a colour behind the text.
    fn try_from(value: &'a str) -> (r: Result<Background, ModifierError>) {
        match ANSIEscapeCode::try_from(value) {
            Ok(code) => Background::try_from(&code),
            Err(e) => Err(e),
        }
    }
}

impl<'a> TryFromSpecImpl<&'a str> for Background {
    open spec fn obeys_try_from_spec() -> bool {
        true
    }

    open spec fn try_from_spec(v: &'a str) -> Result<Background, ModifierError> {
        match parsed(v.spec_bytes()) {
            Ok(c) => Background::decoded(c),
            Err(e) => Err(e),
        }
    }
}

} // verus!
