use conch::{
    ANSIEscapeCode, Family, HasLength, IntoANSIEscapeCode, Modifier, ModifierError, MoveCursor,
};

fn parse(text: &str) -> Result<MoveCursor, ModifierError> {
    MoveCursor::try_from(text)
}

#[test]
fn move_cursor_try_from_simple_up() {
    assert_eq!(parse("\x1b[1A"), Ok(MoveCursor::Up(1)));
}

#[test]
fn move_cursor_try_from_simple_down() {
    assert_eq!(parse("\x1b[2B"), Ok(MoveCursor::Down(2)));
}

#[test]
fn move_cursor_try_from_simple_right() {
    assert_eq!(parse("\x1b[3C"), Ok(MoveCursor::Right(3)));
}

#[test]
fn move_cursor_try_from_simple_left() {
    assert_eq!(parse("\x1b[4D"), Ok(MoveCursor::Left(4)));
}

#[test]
fn move_cursor_try_from_simple_origin() {
    assert_eq!(parse("\x1b[0;0H"), Ok(MoveCursor::Absolute(0, 0)));
    assert!(matches!(parse("\x1b[0;0H"), Ok(MoveCursor::Origin)));
}

#[test]
fn move_cursor_try_from_simple_absolute() {
    assert_eq!(parse("\x1b[10;20H"), Ok(MoveCursor::Absolute(10, 20)));
    assert!(matches!(parse("\x1b[10;20H"), Ok(MoveCursor::Absolute(10, 20))));
}

#[test]
fn move_cursor_try_from_negative_up() {
    assert_eq!(parse("\x1b[-1A"), Ok(MoveCursor::Up(-1)));
    assert!(matches!(parse("\x1b[-1A"), Ok(MoveCursor::Up(-1))));
}

#[test]
fn move_cursor_try_from_zero_up() {
    assert_eq!(parse("\x1b[0A"), Ok(MoveCursor::Up(0)));
}

#[test]
fn move_cursor_try_from_negative_absolute() {
    assert_eq!(parse("\x1b[-2;-60H"), Ok(MoveCursor::Absolute(-2, -60)));
}

#[test]
fn move_cursor_eq_up_and_up() {
    assert_eq!(MoveCursor::Up(30), MoveCursor::Up(30));
}

#[test]
fn move_cursor_eq_up_and_down_negative() {
    assert_eq!(MoveCursor::Up(30), MoveCursor::Down(-30));
}

#[test]
fn move_cursor_eq_up_and_down() {
    assert_ne!(MoveCursor::Up(30), MoveCursor::Down(30));
}

#[test]
fn move_cursor_eq_down_and_up_negative() {
    assert_eq!(MoveCursor::Down(30), MoveCursor::Up(-30));
}

#[test]
fn move_cursor_eq_up_and_right() {
    assert_ne!(MoveCursor::Up(30), MoveCursor::Right(30));
}

#[test]
fn move_cursor_eq_right_and_up() {
    assert_ne!(MoveCursor::Right(30), MoveCursor::Up(30));
}

#[test]
fn move_cursor_eq_right_and_left() {
    assert_ne!(MoveCursor::Right(30), MoveCursor::Left(30));
}

#[test]
fn move_cursor_eq_right_and_left_negative() {
    assert_eq!(MoveCursor::Right(30), MoveCursor::Left(-30));
}

#[test]
fn move_cursor_eq_left_and_right_negative() {
    assert_eq!(MoveCursor::Left(30), MoveCursor::Right(-30));
}

#[test]
fn move_cursor_eq_absolute_and_absolute() {
    assert_eq!(MoveCursor::Absolute(123, 456), MoveCursor::Absolute(123, 456));
}

#[test]
fn move_cursor_eq_absolute_and_absolute_different() {
    assert_ne!(MoveCursor::Absolute(123, 456), MoveCursor::Absolute(0, 456));
}

#[test]
fn move_cursor_eq_absolute_and_origin() {
    assert_eq!(MoveCursor::Absolute(0, 0), MoveCursor::Origin);
}

#[test]
fn move_cursor_eq_origin_and_absolute() {
    assert_eq!(MoveCursor::Origin, MoveCursor::Absolute(0, 0));
}

#[test]
fn move_cursor_eq_absolute_and_up() {
    assert_ne!(MoveCursor::Absolute(30, 0), MoveCursor::Up(30));
}

#[test]
fn move_cursor_eq_smallest_distance_has_no_opposite() {
    assert_ne!(MoveCursor::Up(i32::MIN), MoveCursor::Down(i32::MIN));
    assert_eq!(MoveCursor::Up(i32::MIN), MoveCursor::Up(i32::MIN));
    assert_eq!(MoveCursor::Up(i32::MAX), MoveCursor::Down(-i32::MAX));
}

#[test]
fn move_cursor_resetter_simple_up() {
    assert_eq!(MoveCursor::Up(5).resetter(Some("Hello, World!")), MoveCursor::Down(5));
}

#[test]
fn move_cursor_resetter_simple_down() {
    assert_eq!(MoveCursor::Down(5).resetter(Some("Hello, World!")), MoveCursor::Up(5));
}

#[test]
fn move_cursor_resetter_simple_right() {
    let reset = MoveCursor::Right(5).resetter(Some("Hello, World!"));
    assert!(matches!(reset, MoveCursor::Left(18)));
    assert!(matches!(MoveCursor::Right(5).resetter(None), MoveCursor::Left(5)));
}

#[test]
fn move_cursor_resetter_simple_left() {
    let reset = MoveCursor::Left(5).resetter(Some("Hello, World!"));
    assert!(matches!(reset, MoveCursor::Right(-8)));
    assert!(matches!(MoveCursor::Left(5).resetter(None), MoveCursor::Right(5)));
}

#[test]
fn move_cursor_resetter_counts_visible_bytes_only() {
    let reset = MoveCursor::Right(2).resetter(Some("\x1b[1mHi\x1b[22m"));
    assert!(matches!(reset, MoveCursor::Left(4)));
}

#[test]
fn move_cursor_resetter_of_places() {
    assert!(matches!(MoveCursor::Origin.resetter(Some("abc")), MoveCursor::Origin));
    assert!(matches!(
        MoveCursor::Absolute(3, 4).resetter(Some("abc")),
        MoveCursor::Absolute(3, 4)
    ));
}

#[test]
fn move_cursor_encodes_negative_distance_the_other_way() {
    assert_eq!(
        MoveCursor::Right(-1).into_ansi_escape_code(),
        ANSIEscapeCode::new(None, Some(vec![1]), 'D')
    );
    assert_eq!(
        ANSIEscapeCode::from(&MoveCursor::Right(-1)),
        ANSIEscapeCode::new(None, Some(vec![1]), 'D')
    );
    assert_eq!(MoveCursor::Up(-7).to_string().as_str(), "\x1b[7B");
    assert_eq!(MoveCursor::Down(-7).to_string().as_str(), "\x1b[7A");
    assert_eq!(MoveCursor::Left(-7).to_string().as_str(), "\x1b[7C");
    assert_eq!(MoveCursor::Left(7).to_string().as_str(), "\x1b[7D");
    assert_eq!(MoveCursor::Up(i32::MIN).to_string().as_str(), "\x1b[-2147483648A");
}

#[test]
fn move_cursor_encodes_places() {
    assert_eq!(MoveCursor::Origin.to_string().as_str(), "\x1b[0;0H");
    assert_eq!(MoveCursor::Absolute(10, 20).to_string().as_str(), "\x1b[10;20H");
    assert_eq!(MoveCursor::Absolute(10, 20).len(), 8);
}

#[test]
fn move_cursor_round_trip() {
    let all = [
        MoveCursor::Up(3),
        MoveCursor::Up(-3),
        MoveCursor::Up(0),
        MoveCursor::Down(12),
        MoveCursor::Down(-12),
        MoveCursor::Right(i32::MAX),
        MoveCursor::Right(i32::MIN),
        MoveCursor::Left(-1),
        MoveCursor::Left(i32::MIN + 1),
        MoveCursor::Origin,
        MoveCursor::Absolute(0, 0),
        MoveCursor::Absolute(1, 2),
        MoveCursor::Absolute(-5, 7),
    ];
    for m in all {
        let code = m.into_ansi_escape_code();
        assert_eq!(MoveCursor::try_from(&code), Ok(m));
        assert_eq!(MoveCursor::try_from(m.to_string().as_str()), Ok(m));
        assert_eq!(Modifier::try_from(&code), Ok(Modifier::MoveCursor(m)));
    }
}

#[test]
fn move_cursor_rejects() {
    assert_eq!(
        parse("\x1b[1m"),
        Err(ModifierError::UnexpectedTerminator { family: Family::MoveCursor, terminator: 'm' })
    );
    assert_eq!(
        parse("\x1b[1;2A"),
        Err(ModifierError::ArityMismatch { family: Family::MoveCursor, expected: 1, found: 2 })
    );
    assert_eq!(
        parse("\x1b[1H"),
        Err(ModifierError::ArityMismatch { family: Family::MoveCursor, expected: 2, found: 1 })
    );
    let with_code = ANSIEscapeCode::new(Some(1), Some(vec![1]), 'A');
    assert_eq!(
        MoveCursor::try_from(&with_code),
        Err(ModifierError::UnrecognizedCode { family: Family::MoveCursor, code: Some(1) })
    );
}

#[test]
fn move_cursor_wraps() {
    assert_eq!(MoveCursor::Right(12).wraps("Shifted16").as_str(), "\x1b[12CShifted16\x1b[21D");
    assert_eq!(MoveCursor::Up(2).wraps("x").as_str(), "\x1b[2Ax\x1b[2B");
}
