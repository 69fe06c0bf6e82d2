use conch::{
    ANSIEscapeCode, Background, Clear, Colour, HasLength, Intensity, Modifier, ModifierError,
    MoveCursor,
};

fn bright_yellow() -> Modifier {
    Modifier::Colour(Colour::by_name("BrightYellow").unwrap())
}

fn bright_green() -> Modifier {
    Modifier::Colour(Colour::by_name("BrightGreen").unwrap())
}

fn bright_red_background() -> Modifier {
    Modifier::Background(Background::by_name("BrightRed").unwrap())
}

#[test]
fn from_name_simple_colour() {
    assert_eq!(Modifier::colour("Black"), Some(Modifier::Colour(Colour::Palette(0))));
    assert_eq!(Modifier::colour("Black"), Some(Modifier::Colour(Colour::standard(0).unwrap())));
}

#[test]
fn from_name_simple_background() {
    assert_eq!(
        Modifier::background("BrightBlue"),
        Some(Modifier::Background(Background::Palette(12)))
    );
}

#[test]
fn from_name_simple_intensity() {
    assert_eq!(Modifier::intensity("Bold"), Some(Modifier::Intensity(Intensity::Bold)));
}

#[test]
fn from_name_non_existent_colour() {
    assert_eq!(Modifier::colour("BadChoice"), None);
}

#[test]
fn from_name_non_existent_background() {
    assert_eq!(Modifier::background("BadChoice"), None);
}

#[test]
fn from_name_non_existent_intensity() {
    assert_eq!(Modifier::intensity("BadChoice"), None);
}

#[test]
fn from_name_is_case_sensitive() {
    assert_eq!(Modifier::colour("black"), None);
    assert_eq!(Modifier::intensity("bold"), None);
    assert_eq!(Modifier::background("reset"), None);
    assert_eq!(Modifier::background("Reset"), Some(Modifier::Background(Background::Reset)));
}

#[test]
fn parsing_simple_colour() {
    let parsed: Result<Modifier, ModifierError> = Modifier::try_from("\x1b[38:5:125m");
    assert_eq!(parsed, Ok(Modifier::Colour(Colour::by_name("R3G0B1").unwrap())));
    assert_eq!(parsed, Ok(Modifier::Colour(Colour::cube(3, 0, 1).unwrap())));
}

#[test]
fn parsing_simple_background() {
    let parsed: Result<Modifier, ModifierError> = Modifier::try_from("\x1b[48:5:125m");
    assert_eq!(parsed, Ok(Modifier::Background(Background::by_name("R3G0B1").unwrap())));
}

#[test]
fn parsing_simple_intensity_1() {
    assert_eq!(Modifier::try_from("\x1b[1m"), Ok(Modifier::Intensity(Intensity::Bold)));
}

#[test]
fn parsing_simple_intensity_2() {
    assert_eq!(Modifier::try_from("\x1b[2m"), Ok(Modifier::Intensity(Intensity::Faint)));
}

#[test]
fn parsing_simple_intensity_22() {
    assert_eq!(Modifier::try_from("\x1b[22m"), Ok(Modifier::Intensity(Intensity::Normal)));
}

#[test]
fn parsing_hands_on_why_text_is_no_sequence() {
    assert_eq!(Modifier::try_from("plain"), Err(ModifierError::NotAModifier));
    assert_eq!(Modifier::try_from("x\x1b[1m"), Err(ModifierError::NotAModifier));
    assert_eq!(
        Modifier::try_from("\x1b[70000m"),
        Err(ModifierError::CodeOutOfRange { value: 70000 })
    );
    assert_eq!(Modifier::try_from("\x1b[3000000000A"), Err(ModifierError::ParameterOutOfRange));
}

#[test]
fn parsing_unsupported_code() {
    assert_eq!(
        Modifier::try_from("\x1b[7m"),
        Err(ModifierError::UnsupportedCode { code: Some(7), terminator: 'm' })
    );
    assert_eq!(
        Modifier::try_from("\x1b[1Z"),
        Err(ModifierError::UnsupportedCode { code: None, terminator: 'Z' })
    );
    // Why a family refused is not reported.
    assert_eq!(
        Modifier::try_from("\x1b[38;5m"),
        Err(ModifierError::UnsupportedCode { code: Some(38), terminator: 'm' })
    );
    let owned = ANSIEscapeCode::new(Some(7), None, 'm');
    assert_eq!(
        Modifier::try_from(owned),
        Err(ModifierError::UnsupportedCode { code: Some(7), terminator: 'm' })
    );
}

#[test]
fn parsing_every_family() {
    assert_eq!(Modifier::try_from("\x1b[39m"), Ok(Modifier::Colour(Colour::Reset)));
    assert_eq!(Modifier::try_from("\x1b[49m"), Ok(Modifier::Background(Background::Reset)));
    assert_eq!(Modifier::try_from("\x1b[2K"), Ok(Modifier::Clear(Clear::EntireLine)));
    assert_eq!(Modifier::try_from("\x1b[3C"), Ok(Modifier::MoveCursor(MoveCursor::Right(3))));
}

#[test]
fn add_colour_background() {
    let result = bright_yellow() + bright_red_background();
    assert_eq!(result, Modifier::Combo(vec![bright_yellow(), bright_red_background()]));
}

#[test]
fn add_assign_colour_background() {
    let mut result = bright_yellow();
    result += bright_red_background();
    assert_eq!(result, Modifier::Combo(vec![bright_yellow(), bright_red_background()]));
}

#[test]
fn add_colour_background_intensity() {
    let mut result = bright_yellow();
    result = result + bright_red_background();
    result = result + Modifier::Intensity(Intensity::Bold);
    assert_eq!(
        result,
        Modifier::Combo(vec![
            bright_yellow(),
            bright_red_background(),
            Modifier::Intensity(Intensity::Bold)
        ])
    );
}

#[test]
fn add_assign_colour_background_intensity() {
    let mut result = bright_yellow();
    result += bright_red_background();
    result += Modifier::Intensity(Intensity::Bold);
    assert_eq!(
        result,
        Modifier::Combo(vec![
            bright_yellow(),
            bright_red_background(),
            Modifier::Intensity(Intensity::Bold)
        ])
    );
}

#[test]
fn add_colour_background_colour() {
    let mut result = bright_yellow();
    result = result + bright_green();
    result = result + bright_red_background();
    assert_eq!(
        result,
        Modifier::Combo(vec![bright_yellow(), bright_green(), bright_red_background()])
    );
}

#[test]
fn add_assign_colour_background_colour() {
    let mut result = bright_yellow();
    result += bright_green();
    result += bright_red_background();
    assert_eq!(
        result,
        Modifier::Combo(vec![bright_yellow(), bright_green(), bright_red_background()])
    );
}

#[test]
fn add_two_rows_joins_them() {
    let left = bright_yellow() + bright_green();
    let right = bright_red_background() + Modifier::Intensity(Intensity::Faint);
    assert_eq!(
        left + right,
        Modifier::Combo(vec![
            bright_yellow(),
            bright_green(),
            bright_red_background(),
            Modifier::Intensity(Intensity::Faint)
        ])
    );
}

#[test]
fn add_nothing_changes_nothing() {
    assert_eq!(Modifier::Nothing + bright_yellow(), bright_yellow());
    assert_eq!(bright_yellow() + Modifier::Nothing, bright_yellow());
    assert_eq!(Modifier::Nothing + Modifier::Nothing, Modifier::Nothing);
    let row = bright_yellow() + bright_green();
    assert_eq!(row.clone() + Modifier::Nothing, row);
    let mut same = row.clone();
    same += Modifier::Nothing;
    assert_eq!(same, row);
}

#[test]
fn add_is_associative() {
    let a = bright_yellow();
    let b = bright_red_background() + Modifier::Intensity(Intensity::Bold);
    let c = Modifier::MoveCursor(MoveCursor::Up(1));
    assert_eq!((a.clone() + b.clone()) + c.clone(), a + (b + c));
}

#[test]
fn wraps_like_its_family() {
    let red = Colour::by_name("BrightRed").unwrap();
    assert_eq!(Modifier::Colour(red).wraps("Hello, World!"), red.wraps("Hello, World!"));
    assert_eq!(
        Modifier::Intensity(Intensity::Bold).wraps("Hello, World!"),
        Intensity::Bold.wraps("Hello, World!")
    );
    assert_eq!(Intensity::Bold.wraps("Hello, World!").as_str(), "\x1b[1mHello, World!\x1b[22m");
    assert_eq!(
        Background::Palette(1).wraps("x").as_str(),
        "\x1b[48;5;1mx\x1b[49m"
    );
}

#[test]
fn wraps_a_row_from_the_inside_out() {
    let row = Modifier::colour("BrightRed").unwrap() + Modifier::intensity("Bold").unwrap();
    assert_eq!(
        row.wraps("Hello, world!").as_str(),
        "\u{1b}[38;5;9m\u{1b}[1mHello, world!\u{1b}[22m\u{1b}[39m"
    );
}

#[test]
fn wraps_nothing_and_clear() {
    assert_eq!(Modifier::Nothing.wraps("text").as_str(), "text");
    assert_eq!(Modifier::Combo(vec![]).wraps("text").as_str(), "text");
    assert_eq!(Modifier::Clear(Clear::EntireLine).wraps("text").as_str(), "\x1b[2Ktext");
}

#[test]
fn wraps_with_moves() {
    let row = Modifier::MoveCursor(MoveCursor::Right(32)) + Modifier::background("BrightRed").unwrap();
    assert_eq!(
        row.wraps("Shifted36").as_str(),
        "\x1b[32C\x1b[48;5;9mShifted36\x1b[49m\x1b[41D"
    );
    let row = Modifier::MoveCursor(MoveCursor::Left(6)) + Modifier::colour("BrightRed").unwrap();
    // Six to the left and eight written: the cursor stands two to the right.
    assert_eq!(row.wraps("LongWord").as_str(), "\x1b[6D\x1b[38;5;9mLongWord\x1b[39m\x1b[2D");
}

#[test]
fn resetter_of_a_row_is_reversed() {
    let row = bright_yellow() + bright_red_background() + Modifier::Intensity(Intensity::Bold);
    assert_eq!(
        row.resetter(None),
        Modifier::Combo(vec![
            Modifier::Intensity(Intensity::Normal),
            Modifier::Background(Background::Reset),
            Modifier::Colour(Colour::Reset),
        ])
    );
    assert_eq!(Modifier::Clear(Clear::EntireLine).resetter(None), Modifier::Nothing);
    assert_eq!(Modifier::Nothing.resetter(Some("x")), Modifier::Nothing);
}

#[test]
fn length_counts_the_modifier_only() {
    assert_eq!(Modifier::Intensity(Intensity::Bold).len(), 4);
    assert_eq!(bright_yellow().len(), 10);
    assert_eq!((bright_yellow() + Modifier::Intensity(Intensity::Normal)).len(), 15);
    assert_eq!(Modifier::Nothing.len(), 0);
    assert_eq!(Modifier::Combo(vec![]).len(), 0);
}

#[test]
fn to_string_of_a_row() {
    let row = bright_yellow() + Modifier::Intensity(Intensity::Bold);
    assert_eq!(row.to_string().as_str(), "\x1b[38;5;11m\x1b[1m");
    assert_eq!(Modifier::Nothing.to_string().as_str(), "");
}

#[test]
fn equality_of_rows_goes_by_meaning() {
    let a = Modifier::Combo(vec![Modifier::MoveCursor(MoveCursor::Up(5))]);
    let b = Modifier::Combo(vec![Modifier::MoveCursor(MoveCursor::Down(-5))]);
    assert_eq!(a, b);
    assert_ne!(a, Modifier::MoveCursor(MoveCursor::Up(5)));
    assert_ne!(a, Modifier::Combo(vec![]));
}

#[test]
fn from_a_family() {
    assert_eq!(Modifier::from(Intensity::Bold), Modifier::Intensity(Intensity::Bold));
    assert_eq!(Modifier::from(Colour::Reset), Modifier::Colour(Colour::Reset));
    assert_eq!(Modifier::from(Background::Reset), Modifier::Background(Background::Reset));
    assert_eq!(Modifier::from(Clear::EntireLine), Modifier::Clear(Clear::EntireLine));
    assert_eq!(Modifier::from(MoveCursor::Origin), Modifier::MoveCursor(MoveCursor::Origin));
}

#[test]
fn wrappable_without_moves() {
    let row = bright_yellow() + bright_red_background() + Modifier::Clear(Clear::EntireLine);
    assert!(!row.moves_cursor());
    assert!(row.wrappable("any text"));
    assert_eq!(row.try_wraps("x"), Some(row.wraps("x")));
    assert!(!Modifier::Nothing.moves_cursor());
    assert!(!Modifier::Combo(vec![]).moves_cursor());
}

#[test]
fn wrappable_with_moves() {
    let right = Modifier::MoveCursor(MoveCursor::Right(i32::MAX - 3));
    assert!(right.moves_cursor());
    assert!(right.wrappable("abc"));
    assert!(!right.wrappable("abcd"));
    assert!(right.wrappable("\x1b[1mabc\x1b[22m"));
    assert_eq!(right.try_wraps("abcd"), None);
    assert_eq!(
        right.try_wraps("abc"),
        Some(String::from("\x1b[2147483644Cabc\x1b[2147483647D"))
    );
    let left = Modifier::MoveCursor(MoveCursor::Left(i32::MIN + 2));
    assert!(left.wrappable("ab"));
    assert!(!left.wrappable("abc"));
    assert_eq!(left.try_wraps("ab"), Some(String::from("\x1b[2147483646Cab\x1b[-2147483648C")));
    let up = Modifier::MoveCursor(MoveCursor::Up(i32::MAX));
    assert!(up.wrappable("a long text"));
    // Inside a row each move is put round what the members after it make of the
    // text.
    let row = Modifier::Combo(vec![
        bright_yellow(),
        Modifier::Combo(vec![right.clone(), bright_green()]),
    ]);
    assert!(row.moves_cursor());
    assert!(row.wrappable("abc"));
    assert!(!row.wrappable("abcd"));
    assert!(MoveCursor::Right(i32::MAX).resettable(None));
    assert!(!MoveCursor::Right(i32::MAX).resettable(Some("a")));
    assert!(MoveCursor::Left(i32::MIN).resettable(Some("")));
    assert!(!MoveCursor::Left(i32::MIN).resettable(Some("a")));
    assert!(MoveCursor::Origin.resettable(Some("a")));
}
