//! Moving the cursor.

use vstd::prelude::*;
use vstd::std_specs::convert::TryFromSpecImpl;
use vstd::string::StringSliceAdditionalSpecFns;
use vstd::utf8::*;
use crate::error::{Family, ModifierError};
use crate::escape_code::{parsed, ANSIEscapeCode, EscapeCodeView, DEFAULT_SEPARATOR};
use crate::search::{visible_len, LengthWithoutModifiers};
use crate::traits::{written, written_len, HasLength, IntoANSIEscapeCode};

verus! {

/// The letter that ends a move upwards.
pub const UP: char = 'A';

/// The letter that ends a move downwards.
pub const DOWN: char = 'B';

/// The letter that ends a move to the right.
pub const RIGHT: char = 'C';

/// The letter that ends a move to the left.
pub const LEFT: char = 'D';

/// The letter that ends a move to a given place.
pub const PLACE: char = 'H';

/// Where the cursor goes.  A distance may be negative: the cursor then goes the
/// other way.
#[derive(Clone, Copy, Debug)]
pub enum MoveCursor {
    Up(i32),
    Down(i32),
    Right(i32),
    Left(i32),
    /// The upper left corner.
    Origin,
    /// The place given by the two parameters of the sequence, in their order.
    Absolute(i32, i32),
}

impl MoveCursor {
    /// Two moves are the same when they say the same, when one goes the other way by
    /// the negated distance, or when one is the origin and the other the place
    /// `(0, 0)`.
    pub open spec fn same_as(self, other: MoveCursor) -> bool {
        match (self, other) {
            (MoveCursor::Up(m), MoveCursor::Up(n)) => m == n,
            (MoveCursor::Down(m), MoveCursor::Down(n)) => m == n,
            (MoveCursor::Right(m), MoveCursor::Right(n)) => m == n,
            (MoveCursor::Left(m), MoveCursor::Left(n)) => m == n,
            (MoveCursor::Up(m), MoveCursor::Down(n)) => m + n == 0,
            (MoveCursor::Down(m), MoveCursor::Up(n)) => m + n == 0,
            (MoveCursor::Right(m), MoveCursor::Left(n)) => m + n == 0,
            (MoveCursor::Left(m), MoveCursor::Right(n)) => m + n == 0,
            (MoveCursor::Origin, MoveCursor::Origin) => true,
            (MoveCursor::Absolute(a, b), MoveCursor::Absolute(c, d)) => a == c && b == d,
            (MoveCursor::Origin, MoveCursor::Absolute(a, b)) => a == 0 && b == 0,
            (MoveCursor::Absolute(a, b), MoveCursor::Origin) => a == 0 && b == 0,
            _ => false,
        }
    }

    /// The sequence for a move by `distance` that ends in `forward` where the distance
    /// is not negative.  A negative distance is written as its magnitude with the
    /// letter `backward`, unless the magnitude cannot be held in 32 bits: the distance
    /// then stays as it is.
    pub open spec fn relative(distance: i32, forward: char, backward: char) -> EscapeCodeView {
        if i32::MIN < distance < 0 {
            EscapeCodeView {
                code: None,
                modifiers: seq![(-distance) as i32],
                sep: DEFAULT_SEPARATOR,
                end_char: backward,
                source: None,
            }
        } else {
            EscapeCodeView {
                code: None,
                modifiers: seq![distance],
                sep: DEFAULT_SEPARATOR,
                end_char: forward,
                source: None,
            }
        }
    }

    /// What a control sequence means as a move of the cursor.  It has to end in one of
    /// `A`, `B`, `C`, `D` and `H`, have two parameters for `H` and one for the others,
    /// and no code.  The place `(0, 0)` is read as the origin.
    pub open spec fn decoded(c: EscapeCodeView) -> Result<MoveCursor, ModifierError> {
        if c.end_char != UP && c.end_char != DOWN && c.end_char != RIGHT && c.end_char != LEFT
            && c.end_char != PLACE {
            Err(
                ModifierError::UnexpectedTerminator {
                    family: Family::MoveCursor,
                    terminator: c.end_char,
                },
            )
        } else if c.end_char == PLACE && c.modifiers.len() != 2 {
            Err(
                ModifierError::ArityMismatch {
                    family: Family::MoveCursor,
                    expected: 2,
                    found: c.modifiers.len() as usize,
                },
            )
        } else if c.end_char != PLACE && c.modifiers.len() != 1 {
            Err(
                ModifierError::ArityMismatch {
                    family: Family::MoveCursor,
                    expected: 1,
                    found: c.modifiers.len() as usize,
                },
            )
        } else if c.code is Some {
            Err(ModifierError::UnrecognizedCode { family: Family::MoveCursor, code: c.code })
        } else if c.end_char == UP {
            Ok(MoveCursor::Up(c.modifiers[0]))
        } else if c.end_char == DOWN {
            Ok(MoveCursor::Down(c.modifiers[0]))
        } else if c.end_char == RIGHT {
            Ok(MoveCursor::Right(c.modifiers[0]))
        } else if c.end_char == LEFT {
            Ok(MoveCursor::Left(c.modifiers[0]))
        } else if c.modifiers[0] == 0 && c.modifiers[1] == 0 {
            Ok(MoveCursor::Origin)
        } else {
            Ok(MoveCursor::Absolute(c.modifiers[0], c.modifiers[1]))
        }
    }

    /// The number of places that writing `input` moves the cursor to the right: the
    /// bytes of the text that belong to none of its modifiers, or none where there is
    /// no text.
    pub open spec fn shift(input: Option<Seq<u8>>) -> int {
        match input {
            Some(text) => visible_len(text),
            None => 0,
        }
    }

    /// True when the distance of the move back can be held in 32 bits.
    pub open spec fn can_reset(self, input: Option<Seq<u8>>) -> bool {
        match self {
            MoveCursor::Right(n) => n + MoveCursor::shift(input) <= i32::MAX,
            MoveCursor::Left(n) => n - MoveCursor::shift(input) >= i32::MIN,
            _ => true,
        }
    }

    /// The move that undoes this one after `input` was written.  A move up or down is
    /// undone by the same distance the other way.  A move to the right is undone by a
    /// move to the left that also covers what the text moved the cursor; a move to the
    /// left by a move to the right that is shorter by as much.  A move to a given
    /// place stays as it is.
    pub open spec fn reset(self, input: Option<Seq<u8>>) -> MoveCursor {
        match self {
            MoveCursor::Up(n) => MoveCursor::Down(n),
            MoveCursor::Down(n) => MoveCursor::Up(n),
            MoveCursor::Right(n) => MoveCursor::Left((n + MoveCursor::shift(input)) as i32),
            MoveCursor::Left(n) => MoveCursor::Right((n - MoveCursor::shift(input)) as i32),
            MoveCursor::Origin => MoveCursor::Origin,
            MoveCursor::Absolute(a, b) => MoveCursor::Absolute(a, b),
        }
    }

    /// Tells whether the move can be undone after `input` was written: whether the
    /// distance of the move back can be held in 32 bits.
    pub fn resettable(&self, input: Option<&str>) -> (r: bool)
        ensures
            r == self.can_reset(text_of(input)),
    {
        match self {
            MoveCursor::Right(n) => {
                let shift = written_shift(input);
                shift <= 0xffff_ffff && *n as i64 + shift as i64 <= 0x7fff_ffff
            },
            MoveCursor::Left(n) => {
                let shift = written_shift(input);
                shift <= 0xffff_ffff && *n as i64 - shift as i64 >= -0x8000_0000
            },
            _ => true,
        }
    }

    /// The move that undoes this one after `input` was written.
    pub fn resetter(&self, input: Option<&str>) -> (r: MoveCursor)
        requires
            self.can_reset(text_of(input)),
        ensures
            r == self.reset(text_of(input)),
    {
        match self {
            MoveCursor::Up(n) => MoveCursor::Down(*n),
            MoveCursor::Down(n) => MoveCursor::Up(*n),
            MoveCursor::Right(n) => {
                let shift = written_shift(input);
                MoveCursor::Left((*n as i64 + shift as i64) as i32)
            },
            MoveCursor::Left(n) => {
                let shift = written_shift(input);
                MoveCursor::Right((*n as i64 - shift as i64) as i32)
            },
            MoveCursor::Origin => MoveCursor::Origin,
            MoveCursor::Absolute(a, b) => MoveCursor::Absolute(*a, *b),
        }
    }

    /// The control sequence that moves the cursor, written out.
    pub fn to_string(&self) -> (r: String)
        ensures
            encode_utf8(r@) == self.escape_code().text(),
    {
        written(self)
    }
}

/// The bytes of a text that may be missing.
pub open spec fn text_of(input: Option<&str>) -> Option<Seq<u8>> {
    match input {
        Some(text) => Some(text.spec_bytes()),
        None => None,
    }
}

/// Counts the places that writing `input` moves the cursor.
fn written_shift(input: Option<&str>) -> (n: usize)
    ensures
        n == MoveCursor::shift(text_of(input)),
{
    match input {
        Some(text) => text.len_without_modifiers(),
        None => 0,
    }
}

/// Builds the sequence that [`MoveCursor::relative`] describes.
fn encode_relative(distance: i32, forward: char, backward: char) -> (r: ANSIEscapeCode)
    ensures
        r@ == MoveCursor::relative(distance, forward, backward),
{
    let mut parameters: Vec<i32> = Vec::new();
    if distance < 0 && distance != i32::MIN {
        parameters.push(-distance);
        assert(parameters@ =~= seq![(-distance) as i32]);
        ANSIEscapeCode::new(None, Some(parameters), backward)
    } else {
        parameters.push(distance);
        assert(parameters@ =~= seq![distance]);
        ANSIEscapeCode::new(None, Some(parameters), forward)
    }
}

impl PartialEq for MoveCursor {
    fn eq(&self, other: &Self) -> (r: bool) {
        match (*self, *other) {
            (MoveCursor::Up(m), MoveCursor::Up(n)) => m == n,
            (MoveCursor::Down(m), MoveCursor::Down(n)) => m == n,
            (MoveCursor::Right(m), MoveCursor::Right(n)) => m == n,
            (MoveCursor::Left(m), MoveCursor::Left(n)) => m == n,
            (MoveCursor::Up(m), MoveCursor::Down(n)) => m as i64 + n as i64 == 0,
            (MoveCursor::Down(m), MoveCursor::Up(n)) => m as i64 + n as i64 == 0,
            (MoveCursor::Right(m), MoveCursor::Left(n)) => m as i64 + n as i64 == 0,
            (MoveCursor::Left(m), MoveCursor::Right(n)) => m as i64 + n as i64 == 0,
            (MoveCursor::Origin, MoveCursor::Origin) => true,
            (MoveCursor::Absolute(a, b), MoveCursor::Absolute(c, d)) => a == c && b == d,
            (MoveCursor::Origin, MoveCursor::Absolute(a, b)) => a == 0 && b == 0,
            (MoveCursor::Absolute(a, b), MoveCursor::Origin) => a == 0 && b == 0,
            _ => false,
        }
    }
}

impl vstd::std_specs::cmp::PartialEqSpecImpl for MoveCursor {
    open spec fn obeys_eq_spec() -> bool {
        true
    }

    open spec fn eq_spec(&self, other: &Self) -> bool {
        self.same_as(*other)
    }
}

impl IntoANSIEscapeCode for MoveCursor {
    open spec fn escape_code(&self) -> EscapeCodeView {
        match self {
            MoveCursor::Up(n) => MoveCursor::relative(*n, UP, DOWN),
            MoveCursor::Down(n) => MoveCursor::relative(*n, DOWN, UP),
            MoveCursor::Right(n) => MoveCursor::relative(*n, RIGHT, LEFT),
            MoveCursor::Left(n) => MoveCursor::relative(*n, LEFT, RIGHT),
            MoveCursor::Origin => EscapeCodeView {
                code: None,
                modifiers: seq![0i32, 0i32],
                sep: DEFAULT_SEPARATOR,
                end_char: PLACE,
                source: None,
            },
            MoveCursor::Absolute(a, b) => EscapeCodeView {
                code: None,
                modifiers: seq![*a, *b],
                sep: DEFAULT_SEPARATOR,
                end_char: PLACE,
                source: None,
            },
        }
    }

    fn into_ansi_escape_code(&self) -> (r: ANSIEscapeCode) {
        match self {
            MoveCursor::Up(n) => encode_relative(*n, UP, DOWN),
            MoveCursor::Down(n) => encode_relative(*n, DOWN, UP),
            MoveCursor::Right(n) => encode_relative(*n, RIGHT, LEFT),
            MoveCursor::Left(n) => encode_relative(*n, LEFT, RIGHT),
            MoveCursor::Origin => {
                let mut parameters: Vec<i32> = Vec::new();
                parameters.push(0);
                parameters.push(0);
                assert(parameters@ =~= seq![0i32, 0i32]);
                ANSIEscapeCode::new(None, Some(parameters), PLACE)
            },
            MoveCursor::Absolute(a, b) => {
                let mut parameters: Vec<i32> = Vec::new();
                parameters.push(*a);
                parameters.push(*b);
                assert(parameters@ =~= seq![*a, *b]);
                ANSIEscapeCode::new(None, Some(parameters), PLACE)
            },
        }
    }
}

impl HasLength for MoveCursor {
    open spec fn spec_len(&self) -> nat {
        self.escape_code().text().len()
    }

    fn len(&self) -> (n: usize) {
        written_len(self)
    }
}

impl<'a> TryFrom<&'a ANSIEscapeCode> for MoveCursor {
    type Error = ModifierError;

    fn try_from(value: &'a ANSIEscapeCode) -> (r: Result<MoveCursor, ModifierError>) {
        let letter = value.end_char;
        if letter != UP && letter != DOWN && letter != RIGHT && letter != LEFT && letter != PLACE {
            return Err(
                ModifierError::UnexpectedTerminator { family: Family::MoveCursor, terminator: letter },
            );
        }
        let found = value.modifiers.len();
        let expected: usize = if letter == PLACE {
            2
        } else {
            1
        };
        if found != expected {
            return Err(ModifierError::ArityMismatch { family: Family::MoveCursor, expected, found });
        }
        if value.code.is_some() {
            return Err(
                ModifierError::UnrecognizedCode { family: Family::MoveCursor, code: value.code },
            );
        }
        let first = value.modifiers[0];
        if letter == UP {
            Ok(MoveCursor::Up(first))
        } else if letter == DOWN {
            Ok(MoveCursor::Down(first))
        } else if letter == RIGHT {
            Ok(MoveCursor::Right(first))
        } else if letter == LEFT {
            Ok(MoveCursor::Left(first))
        } else {
            let second = value.modifiers[1];
            if first == 0 && second == 0 {
                Ok(MoveCursor::Origin)
            } else {
                Ok(MoveCursor::Absolute(first, second))
            }
        }
    }
}

impl<'a> TryFromSpecImpl<&'a ANSIEscapeCode> for MoveCursor {
    open spec fn obeys_try_from_spec() -> bool {
        true
    }

    open spec fn try_from_spec(v: &'a ANSIEscapeCode) -> Result<MoveCursor, ModifierError> {
        MoveCursor::decoded(v@)
    }
}

impl TryFrom<ANSIEscapeCode> for MoveCursor {
    type Error = ModifierError;

    fn try_from(value: ANSIEscapeCode) -> (r: Result<MoveCursor, ModifierError>) {
        MoveCursor::try_from(&value)
    }
}

impl TryFromSpecImpl<ANSIEscapeCode> for MoveCursor {
    open spec fn obeys_try_from_spec() -> bool {
        true
    }

    open spec fn try_from_spec(v: ANSIEscapeCode) -> Result<MoveCursor, ModifierError> {
        MoveCursor::decoded(v@)
    }
}

impl<'a> TryFrom<&'a str> for MoveCursor {
    type Error = ModifierError;

    /// Reads the control sequence that `value` begins with, as a move of the cursor.
    fn try_from(value: &'a str) -> (r: Result<MoveCursor, ModifierError>) {
        match ANSIEscapeCode::try_from(value) {
            Ok(code) => MoveCursor::try_from(&code),
            Err(e) => Err(e),
        }
    }
}

impl<'a> TryFromSpecImpl<&'a str> for MoveCursor {
    open spec fn obeys_try_from_spec() -> bool {
        true
    }

    open spec fn try_from_spec(v: &'a str) -> Result<MoveCursor, ModifierError> {
        match parsed(v.spec_bytes()) {
            Ok(c) => MoveCursor::decoded(c),
            Err(e) => Err(e),
        }
    }
}

} // verus!
