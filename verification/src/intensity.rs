//! How strongly text is drawn.

use vstd::prelude::*;
use vstd::std_specs::convert::TryFromSpecImpl;
use vstd::string::StringSliceAdditionalSpecFns;
use vstd::utf8::*;
use crate::error::{Family, ModifierError};
use crate::escape_code::{parsed, ANSIEscapeCode, EscapeCodeView, DEFAULT_SEPARATOR, STYLE_TERMINATOR};
use crate::text::same_text;
use crate::traits::{written, written_len, HasLength, IntoANSIEscapeCode};

verus! {

/// The weight of the text that follows.
#[derive(Clone, Copy, Debug, PartialEq, Eq, Structural)]
pub enum Intensity {
    Normal,
    Bold,
    Faint,
}

impl Intensity {
    /// The code that selects the intensity.
    pub open spec fn spec_index(self) -> u16 {
        match self {
            Intensity::Normal => 22,
            Intensity::Bold => 1,
            Intensity::Faint => 2,
        }
    }

    /// The name of the intensity.
    pub open spec fn spec_name(self) -> Seq<char> {
        match self {
            Intensity::Normal => "Normal"@,
            Intensity::Bold => "Bold"@,
            Intensity::Faint => "Faint"@,
        }
    }

    /// What a control sequence means as an intensity: it has to end in `m`, have no
    /// parameters, and carry one of the three codes.
    pub open spec fn decoded(c: EscapeCodeView) -> Result<Intensity, ModifierError> {
        if c.end_char != STYLE_TERMINATOR {
            Err(
                ModifierError::UnexpectedTerminator {
                    family: Family::Intensity,
                    terminator: c.end_char,
                },
            )
        } else if c.modifiers.len() != 0 {
            Err(
                ModifierError::ArityMismatch {
                    family: Family::Intensity,
                    expected: 0,
                    found: c.modifiers.len() as usize,
                },
            )
        } else if c.code == Some(22u16) {
            Ok(Intensity::Normal)
        } else if c.code == Some(1u16) {
            Ok(Intensity::Bold)
        } else if c.code == Some(2u16) {
            Ok(Intensity::Faint)
        } else {
            Err(ModifierError::UnrecognizedCode { family: Family::Intensity, code: c.code })
        }
    }

    /// The code that selects the intensity.
    pub fn index(&self) -> (r: u16)
        ensures
            r == self.spec_index(),
    {
        match self {
            Intensity::Normal => 22,
            Intensity::Bold => 1,
            Intensity::Faint => 2,
        }
    }

    /// The name of the intensity.
    pub fn name(&self) -> (r: &'static str)
        ensures
            r@ == self.spec_name(),
    {
        match self {
            Intensity::Normal => "Normal",
            Intensity::Bold => "Bold",
            Intensity::Faint => "Faint",
        }
    }

    /// Finds the intensity of the given name.  Upper and lower case count.
    pub fn by_name(name: &str) -> (r: Option<Intensity>)
        ensures
            match r {
                Some(i) => i.spec_name() == name@,
                None => forall|i: Intensity| i.spec_name() != name@,
            },
    {
        if same_text(name, "Normal") {
            Some(Intensity::Normal)
        } else if same_text(name, "Bold") {
            Some(Intensity::Bold)
        } else if same_text(name, "Faint") {
            Some(Intensity::Faint)
        } else {
            None
        }
    }

    /// The modifier that undoes this one: normal intensity, whatever this one is and whatever
    /// text it was applied to.
    pub fn resetter(&self, input: Option<&str>) -> (r: Intensity)
        ensures
            r == Intensity::Normal,
    {
        Intensity::Normal
    }

    /// The control sequence that selects the intensity, written out.
    pub fn to_string(&self) -> (r: String)
        ensures
            encode_utf8(r@) == self.escape_code().text(),
    {
        written(self)
    }
}

impl Default for Intensity {
    fn default() -> (r: Intensity)
        ensures
            r == Intensity::Normal,
    {
        Intensity::Normal
    }
}

impl IntoANSIEscapeCode for Intensity {
    open spec fn escape_code(&self) -> EscapeCodeView {
        EscapeCodeView {
            code: Some(self.spec_index()),
            modifiers: Seq::empty(),
            sep: DEFAULT_SEPARATOR,
            end_char: STYLE_TERMINATOR,
            source: None,
        }
    }

    fn into_ansi_escape_code(&self) -> (r: ANSIEscapeCode) {
        ANSIEscapeCode::new(Some(self.index()), None, STYLE_TERMINATOR)
    }
}

impl HasLength for Intensity {
    open spec fn spec_len(&self) -> nat {
        self.escape_code().text().len()
    }

    fn len(&self) -> (n: usize) {
        written_len(self)
    }
}

impl<'a> TryFrom<&'a ANSIEscapeCode> for Intensity {
    type Error = ModifierError;

    fn try_from(value: &'a ANSIEscapeCode) -> (r: Result<Intensity, ModifierError>) {
        if value.end_char != STYLE_TERMINATOR {
            return Err(
                ModifierError::UnexpectedTerminator {
                    family: Family::Intensity,
                    terminator: value.end_char,
                },
            );
        }
        if value.modifiers.len() != 0 {
            return Err(
                ModifierError::ArityMismatch {
                    family: Family::Intensity,
                    expected: 0,
                    found: value.modifiers.len(),
                },
            );
        }
        match value.code {
            Some(22) => Ok(Intensity::Normal),
            Some(1) => Ok(Intensity::Bold),
            Some(2) => Ok(Intensity::Faint),
            _ => Err(ModifierError::UnrecognizedCode { family: Family::Intensity, code: value.code }),
        }
    }
}

impl<'a> TryFromSpecImpl<&'a ANSIEscapeCode> for Intensity {
    open spec fn obeys_try_from_spec() -> bool {
        true
    }

    open spec fn try_from_spec(v: &'a ANSIEscapeCode) -> Result<Intensity, ModifierError> {
        Intensity::decoded(v@)
    }
}

impl TryFrom<ANSIEscapeCode> for Intensity {
    type Error = ModifierError;

    fn try_from(value: ANSIEscapeCode) -> (r: Result<Intensity, ModifierError>) {
        Intensity::try_from(&value)
    }
}

impl TryFromSpecImpl<ANSIEscapeCode> for Intensity {
    open spec fn obeys_try_from_spec() -> bool {
        true
    }

    open spec fn try_from_spec(v: ANSIEscapeCode) -> Result<Intensity, ModifierError> {
        Intensity::decoded(v@)
    }
}

impl<'a> TryFrom<&'a str> for Intensity {
    type Error = ModifierError;

    /// Reads the control sequence that `value` begins with, as an intensity.
    fn try_from(value: &'a str) -> (r: Result<Intensity, ModifierError>) {
        match ANSIEscapeCode::try_from(value) {
            Ok(code) => Intensity::try_from(&code),
            Err(e) => Err(e),
        }
    }
}

impl<'a> TryFromSpecImpl<&'a str> for Intensity {
    open spec fn obeys_try_from_spec() -> bool {
        true
    }

    open spec fn try_from_spec(v: &'a str) -> Result<Intensity, ModifierError> {
        match parsed(v.spec_bytes()) {
            Ok(c) => Intensity::decoded(c),
            Err(e) => Err(e),
        }
    }
}

} // verus!
