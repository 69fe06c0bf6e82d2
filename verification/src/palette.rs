//! The table of 256 colours that foreground and background share.
//!
//! Entries 0 to 15 are the standard colours, 16 to 231 a cube of six levels each of
//! red, green and blue, and 232 to 255 a ramp of greys.

use vstd::prelude::*;
use vstd::string::*;
use crate::error::{Family, ModifierError};
use crate::escape_code::{ANSIEscapeCode, EscapeCodeView, DEFAULT_SEPARATOR, STYLE_TERMINATOR};
use crate::text::same_text;

verus! {

/// The first entry of the colour cube.
pub const CUBE_START: u8 = 16;

/// The first entry of the ramp of greys.
pub const GRAY_START: u8 = 232;

/// The parameter that announces an entry of the table.
pub const INDEXED: i32 = 5;

/// The character that shows the digit `d`.
pub open spec fn digit_char(d: int) -> char {
    ((0x30 + d) as u8) as char
}

/// The name of a standard colour.
pub open spec fn standard_name(index: u8) -> Seq<char> {
    if index == 0 {
        "Black"@
    } else if index == 1 {
        "Red"@
    } else if index == 2 {
        "Green"@
    } else if index == 3 {
        "Yellow"@
    } else if index == 4 {
        "Blue"@
    } else if index == 5 {
        "Magenta"@
    } else if index == 6 {
        "Cyan"@
    } else if index == 7 {
        "White"@
    } else if index == 8 {
        "BrightBlack"@
    } else if index == 9 {
        "BrightRed"@
    } else if index == 10 {
        "BrightGreen"@
    } else if index == 11 {
        "BrightYellow"@
    } else if index == 12 {
        "BrightBlue"@
    } else if index == 13 {
        "BrightMagenta"@
    } else if index == 14 {
        "BrightCyan"@
    } else {
        "BrightWhite"@
    }
}

/// The name of an entry of the table: that of a standard colour, `R`, `G` and `B`
/// each with its level for an entry of the cube, or `Grayscale` with the step for a
/// grey.
pub open spec fn palette_name(index: u8) -> Seq<char> {
    if index < CUBE_START {
        standard_name(index)
    } else if index < GRAY_START {
        let k = index - CUBE_START;
        seq![
            'R',
            digit_char(k / 36),
            'G',
            digit_char((k / 6) % 6),
            'B',
            digit_char(k % 6),
        ]
    } else {
        let step = index - GRAY_START;
        if step < 10 {
            "Grayscale"@.push(digit_char(step as int))
        } else {
            "Grayscale"@.push(digit_char(step / 10)).push(digit_char(step % 10))
        }
    }
}

/// The entry of the cube with the given levels of red, green and blue.
pub open spec fn cube_index(r: u8, g: u8, b: u8) -> u8
    recommends
        r < 6,
        g < 6,
        b < 6,
{
    (CUBE_START + 36 * r + 6 * g + b) as u8
}

/// The control sequence that selects an entry of the table, or gives the colour back
/// to the terminal where `index` is nothing.
pub open spec fn palette_code(index: Option<u8>, set: u16, reset: u16) -> EscapeCodeView {
    match index {
        Some(i) => EscapeCodeView {
            code: Some(set),
            modifiers: seq![INDEXED, i as i32],
            sep: DEFAULT_SEPARATOR,
            end_char: STYLE_TERMINATOR,
            source: None,
        },
        None => EscapeCodeView {
            code: Some(reset),
            modifiers: Seq::empty(),
            sep: DEFAULT_SEPARATOR,
            end_char: STYLE_TERMINATOR,
            source: None,
        },
    }
}

/// What a control sequence means as a colour.  It has to end in `m`.  The code
/// decides first: `reset` takes no parameter; `set` takes two, the number 5 and an
/// entry of the table; any other code is not recognised.
pub open spec fn palette_decoded(c: EscapeCodeView, family: Family, set: u16, reset: u16) -> Result<
    Option<u8>,
    ModifierError,
> {
    if c.end_char != STYLE_TERMINATOR {
        Err(ModifierError::UnexpectedTerminator { family, terminator: c.end_char })
    } else if c.code == Some(reset) {
        if c.modifiers.len() == 0 {
            Ok(None)
        } else {
            Err(
                ModifierError::ArityMismatch {
                    family,
                    expected: 0,
                    found: c.modifiers.len() as usize,
                },
            )
        }
    } else if c.code == Some(set) {
        if c.modifiers.len() != 2 {
            Err(
                ModifierError::ArityMismatch {
                    family,
                    expected: 2,
                    found: c.modifiers.len() as usize,
                },
            )
        } else if c.modifiers[0] != INDEXED {
            Err(ModifierError::UnrecognizedCode { family, code: c.code })
        } else if c.modifiers[1] < 0 || c.modifiers[1] > 255 {
            Err(ModifierError::PaletteIndexOutOfRange { family, index: c.modifiers[1] })
        } else {
            Ok(Some(c.modifiers[1] as u8))
        }
    } else {
        Err(ModifierError::UnrecognizedCode { family, code: c.code })
    }
}

/// Builds the control sequence that [`palette_code`] describes.
pub fn encode(index: Option<u8>, set: u16, reset: u16) -> (r: ANSIEscapeCode)
    ensures
        r@ == palette_code(index, set, reset),
{
    match index {
        Some(i) => {
            let mut parameters: Vec<i32> = Vec::new();
            parameters.push(INDEXED);
            parameters.push(i as i32);
            assert(parameters@ =~= seq![INDEXED, i as i32]);
            ANSIEscapeCode::new(Some(set), Some(parameters), STYLE_TERMINATOR)
        },
        None => ANSIEscapeCode::new(Some(reset), None, STYLE_TERMINATOR),
    }
}

/// Reads a control sequence as [`palette_decoded`] describes.
pub fn decode(value: &ANSIEscapeCode, family: Family, set: u16, reset: u16) -> (r: Result<
    Option<u8>,
    ModifierError,
>)
    requires
        set != reset,
    ensures
        r == palette_decoded(value@, family, set, reset),
{
    if value.end_char != STYLE_TERMINATOR {
        return Err(ModifierError::UnexpectedTerminator { family, terminator: value.end_char });
    }
    let found = value.modifiers.len();
    match value.code {
        Some(code) if code == reset => {
            if found == 0 {
                Ok(None)
            } else {
                Err(ModifierError::ArityMismatch { family, expected: 0, found })
            }
        },
        Some(code) if code == set => {
            if found != 2 {
                Err(ModifierError::ArityMismatch { family, expected: 2, found })
            } else if value.modifiers[0] != INDEXED {
                Err(ModifierError::UnrecognizedCode { family, code: value.code })
            } else {
                let index = value.modifiers[1];
                if index < 0 || index > 255 {
                    Err(ModifierError::PaletteIndexOutOfRange { family, index })
                } else {
                    Ok(Some(index as u8))
                }
            }
        },
        _ => Err(ModifierError::UnrecognizedCode { family, code: value.code }),
    }
}

/// The name of a standard colour.
pub fn standard_name_of(index: u8) -> (r: &'static str)
    requires
        index < CUBE_START,
    ensures
        r@ == standard_name(index),
{
    match index {
        0 => "Black",
        1 => "Red",
        2 => "Green",
        3 => "Yellow",
        4 => "Blue",
        5 => "Magenta",
        6 => "Cyan",
        7 => "White",
        8 => "BrightBlack",
        9 => "BrightRed",
        10 => "BrightGreen",
        11 => "BrightYellow",
        12 => "BrightBlue",
        13 => "BrightMagenta",
        14 => "BrightCyan",
        _ => "BrightWhite",
    }
}

/// The character that shows a digit.
pub fn digit(d: u8) -> (c: char)
    requires
        d < 10,
    ensures
        c == digit_char(d as int),
{
    (0x30 + d) as char
}

/// The name of an entry of the table.
pub fn name_of(index: u8) -> (r: String)
    ensures
        r@ == palette_name(index),
{
    if index < CUBE_START {
        String::from_str(standard_name_of(index))
    } else if index < GRAY_START {
        let k = index - CUBE_START;
        let mut name = String::new();
        name.push('R');
        name.push(digit(k / 36));
        name.push('G');
        name.push(digit((k / 6) % 6));
        name.push('B');
        name.push(digit(k % 6));
        assert(name@ =~= palette_name(index));
        name
    } else {
        let step = index - GRAY_START;
        let mut name = String::from_str("Grayscale");
        if step >= 10 {
            name.push(digit(step / 10));
        }
        name.push(digit(step % 10));
        name
    }
}

/// Finds the entry of the given name.  Upper and lower case count.
pub fn index_by_name(name: &str) -> (r: Option<u8>)
    ensures
        match r {
            Some(i) => palette_name(i) == name@,
            None => forall|i: u8| palette_name(i) != name@,
        },
{
    let mut i: u8 = 0;
    loop
        invariant
            forall|j: u8| j < i ==> palette_name(j) != name@,
        decreases 255 - i,
    {
        let candidate = name_of(i);
        if same_text(name, candidate.as_str()) {
            return Some(i);
        }
        if i == 255 {
            return None;
        }
        i = i + 1;
    }
}


/// What tells the names of the standard colours apart: the length, the first
/// character and the seventh, where there is one.
pub open spec fn name_key(name: Seq<char>) -> (nat, char, char) {
    (
        name.len(),
        name[0],
        if name.len() > 6 {
            name[6]
        } else {
            ' '
        },
    )
}

/// The key of the name of each standard colour.
pub proof fn lemma_standard_keys()
    ensures
        name_key(standard_name(0)) == (5nat, 'B', ' '),
        name_key(standard_name(1)) == (3nat, 'R', ' '),
        name_key(standard_name(2)) == (5nat, 'G', ' '),
        name_key(standard_name(3)) == (6nat, 'Y', ' '),
        name_key(standard_name(4)) == (4nat, 'B', ' '),
        name_key(standard_name(5)) == (7nat, 'M', 'a'),
        name_key(standard_name(6)) == (4nat, 'C', ' '),
        name_key(standard_name(7)) == (5nat, 'W', ' '),
        name_key(standard_name(8)) == (11nat, 'B', 'B'),
        name_key(standard_name(9)) == (9nat, 'B', 'R'),
        name_key(standard_name(10)) == (11nat, 'B', 'G'),
        name_key(standard_name(11)) == (12nat, 'B', 'Y'),
        name_key(standard_name(12)) == (10nat, 'B', 'B'),
        name_key(standard_name(13)) == (13nat, 'B', 'M'),
        name_key(standard_name(14)) == (10nat, 'B', 'C'),
        name_key(standard_name(15)) == (11nat, 'B', 'W'),
        name_key("Reset"@) == (5nat, 'R', ' '),
        "Grayscale"@.len() == 9,
        "Grayscale"@[0] == 'G',
{
    reveal_strlit("Black");
    reveal_strlit("Red");
    reveal_strlit("Green");
    reveal_strlit("Yellow");
    reveal_strlit("Blue");
    reveal_strlit("Magenta");
    reveal_strlit("Cyan");
    reveal_strlit("White");
    reveal_strlit("BrightBlack");
    reveal_strlit("BrightRed");
    reveal_strlit("BrightGreen");
    reveal_strlit("BrightYellow");
    reveal_strlit("BrightBlue");
    reveal_strlit("BrightMagenta");
    reveal_strlit("BrightCyan");
    reveal_strlit("BrightWhite");
    reveal_strlit("Reset");
    reveal_strlit("Grayscale");
}

/// The key of the name of an entry that is no standard colour, and the characters
/// that tell such names apart.
pub proof fn lemma_other_keys(index: u8)
    requires
        index >= CUBE_START,
    ensures
        index < GRAY_START ==> {
            &&& palette_name(index).len() == 6
            &&& palette_name(index)[0] == 'R'
            &&& palette_name(index)[1] == digit_char((index - CUBE_START) / 36)
            &&& palette_name(index)[3] == digit_char(((index - CUBE_START) / 6) % 6)
            &&& palette_name(index)[5] == digit_char((index - CUBE_START) % 6)
        },
        index >= GRAY_START ==> {
            &&& palette_name(index)[0] == 'G'
            &&& index - GRAY_START < 10 ==> palette_name(index).len() == 10 && palette_name(
                index,
            )[9] == digit_char((index - GRAY_START) as int)
            &&& index - GRAY_START >= 10 ==> palette_name(index).len() == 11 && palette_name(
                index,
            )[9] == digit_char((index - GRAY_START) / 10) && palette_name(index)[10] == digit_char(
                (index - GRAY_START) % 10,
            )
        },
{
    lemma_standard_keys();
}

/// Different digits are shown by different characters.
pub proof fn lemma_digit_chars_distinct(a: int, b: int)
    requires
        0 <= a < 10,
        0 <= b < 10,
        digit_char(a) == digit_char(b),
    ensures
        a == b,
{
    assert(digit_char(a) as u32 == 0x30 + a);
    assert(digit_char(b) as u32 == 0x30 + b);
}

/// No two entries of the table have the same name, and none is named `Reset`.
pub proof fn law_palette_names_distinct(i: u8, j: u8)
    ensures
        palette_name(i) == palette_name(j) ==> i == j,
        palette_name(i) != "Reset"@,
{
    lemma_standard_keys();
    if i >= CUBE_START {
        lemma_other_keys(i);
    }
    if j >= CUBE_START {
        lemma_other_keys(j);
    }
    if palette_name(i) == palette_name(j) {
        assert(name_key(palette_name(i)) == name_key(palette_name(j)));
        if i >= GRAY_START && j >= GRAY_START {
            let a = i - GRAY_START;
            let b = j - GRAY_START;
            if a < 10 {
                lemma_digit_chars_distinct(a as int, b as int);
            } else {
                lemma_digit_chars_distinct(a / 10, b / 10);
                lemma_digit_chars_distinct(a % 10, b % 10);
            }
        } else if i >= CUBE_START && j >= CUBE_START && i < GRAY_START && j < GRAY_START {
            let a = i - CUBE_START;
            let b = j - CUBE_START;
            lemma_digit_chars_distinct(a / 36, b / 36);
            lemma_digit_chars_distinct((a / 6) % 6, (b / 6) % 6);
            lemma_digit_chars_distinct(a % 6, b % 6);
        }
    }
    if palette_name(i) == "Reset"@ {
        assert(name_key(palette_name(i)) == name_key("Reset"@));
    }
}

} // verus!
