use conch::{
    ANSIEscapeCode, Background, Colour, Family, HasLength, Intensity, IntoANSIEscapeCode,
    ModifierError,
};

#[test]
fn colour_names_of_the_table() {
    assert_eq!(Colour::Palette(0).name().as_str(), "Black");
    assert_eq!(Colour::Palette(1).name().as_str(), "Red");
    assert_eq!(Colour::Palette(7).name().as_str(), "White");
    assert_eq!(Colour::Palette(8).name().as_str(), "BrightBlack");
    assert_eq!(Colour::Palette(15).name().as_str(), "BrightWhite");
    assert_eq!(Colour::Palette(16).name().as_str(), "R0G0B0");
    assert_eq!(Colour::Palette(69).name().as_str(), "R1G2B5");
    assert_eq!(Colour::Palette(231).name().as_str(), "R5G5B5");
    assert_eq!(Colour::Palette(232).name().as_str(), "Grayscale0");
    assert_eq!(Colour::Palette(241).name().as_str(), "Grayscale9");
    assert_eq!(Colour::Palette(242).name().as_str(), "Grayscale10");
    assert_eq!(Colour::Palette(245).name().as_str(), "Grayscale13");
    assert_eq!(Colour::Palette(255).name().as_str(), "Grayscale23");
    assert_eq!(Colour::Reset.name().as_str(), "Reset");
    assert_eq!(Background::Palette(42).name().as_str(), "R0G4B2");
    assert_eq!(Background::Reset.name().as_str(), "Reset");
}

#[test]
fn colour_by_name_finds_every_name() {
    for index in 0..=255u8 {
        let colour = Colour::Palette(index);
        assert_eq!(Colour::by_name(colour.name().as_str()), Some(colour));
        let background = Background::Palette(index);
        assert_eq!(Background::by_name(background.name().as_str()), Some(background));
    }
    assert_eq!(Colour::by_name("Reset"), Some(Colour::Reset));
    assert_eq!(Background::by_name("Reset"), Some(Background::Reset));
}

#[test]
fn colour_by_name_of_known_entries() {
    assert_eq!(Colour::by_name("BrightRed"), Some(Colour::Palette(9)));
    assert_eq!(Colour::by_name("BrightBlue"), Some(Colour::Palette(12)));
    assert_eq!(Colour::by_name("R1G2B5"), Some(Colour::Palette(69)));
    assert_eq!(Colour::by_name("R3G0B1"), Some(Colour::Palette(125)));
    assert_eq!(Colour::by_name("Grayscale13"), Some(Colour::Palette(245)));
    assert_eq!(Background::by_name("R0G4B2"), Some(Background::Palette(42)));
}

#[test]
fn colour_by_name_rejects() {
    for name in [
        "", "BadChoice", "black", "BLACK", "Black ", " Black", "R6G0B0", "R0G6B0", "R0G0B6",
        "R0G0B", "R0G0B00", "Grayscale24", "Grayscale", "Grayscale01", "Grayscale-1", "Réd",
        "Bright", "BrightGrey",
    ] {
        assert_eq!(Colour::by_name(name), None, "{:?}", name);
        assert_eq!(Background::by_name(name), None, "{:?}", name);
    }
}

#[test]
fn colour_constructors() {
    assert_eq!(Colour::standard(9), Some(Colour::Palette(9)));
    assert_eq!(Colour::standard(16), None);
    assert_eq!(Colour::cube(1, 2, 5), Some(Colour::Palette(69)));
    assert_eq!(Colour::cube(0, 0, 0), Some(Colour::Palette(16)));
    assert_eq!(Colour::cube(5, 5, 5), Some(Colour::Palette(231)));
    assert_eq!(Colour::cube(6, 0, 0), None);
    assert_eq!(Colour::cube(0, 0, 6), None);
    assert_eq!(Colour::grayscale(13), Some(Colour::Palette(245)));
    assert_eq!(Colour::grayscale(23), Some(Colour::Palette(255)));
    assert_eq!(Colour::grayscale(24), None);
    assert_eq!(Background::cube(0, 4, 2), Some(Background::Palette(42)));
    assert_eq!(Colour::Palette(3).index(), Some(3));
    assert_eq!(Colour::Reset.index(), None);
}

#[test]
fn colour_to_string() {
    assert_eq!(Colour::Palette(9).to_string().as_str(), "\x1b[38;5;9m");
    assert_eq!(Colour::Palette(255).to_string().as_str(), "\x1b[38;5;255m");
    assert_eq!(Colour::Reset.to_string().as_str(), "\x1b[39m");
    assert_eq!(Background::Palette(9).to_string().as_str(), "\x1b[48;5;9m");
    assert_eq!(Background::Reset.to_string().as_str(), "\x1b[49m");
    assert_eq!(Colour::Palette(255).len(), 11);
    assert_eq!(Background::Reset.len(), 5);
}

#[test]
fn colour_round_trip() {
    for index in 0..=255u8 {
        let colour = Colour::Palette(index);
        assert_eq!(Colour::try_from(&colour.into_ansi_escape_code()), Ok(colour));
        assert_eq!(Colour::try_from(colour.to_string().as_str()), Ok(colour));
        let background = Background::Palette(index);
        assert_eq!(Background::try_from(&background.into_ansi_escape_code()), Ok(background));
        assert_eq!(Background::try_from(background.to_string().as_str()), Ok(background));
    }
    assert_eq!(Colour::try_from(&Colour::Reset.into_ansi_escape_code()), Ok(Colour::Reset));
    assert_eq!(Colour::try_from(Colour::Reset.into_ansi_escape_code()), Ok(Colour::Reset));
    assert_eq!(Background::try_from("\x1b[49m"), Ok(Background::Reset));
}

#[test]
fn colour_rejects() {
    assert_eq!(
        Colour::try_from("\x1b[38;5;9H"),
        Err(ModifierError::UnexpectedTerminator { family: Family::Colour, terminator: 'H' })
    );
    assert_eq!(
        Colour::try_from("\x1b[38;5;256m"),
        Err(ModifierError::PaletteIndexOutOfRange { family: Family::Colour, index: 256 })
    );
    assert_eq!(
        Colour::try_from("\x1b[38;5;-1m"),
        Err(ModifierError::PaletteIndexOutOfRange { family: Family::Colour, index: -1 })
    );
    assert_eq!(
        Background::try_from("\x1b[48;5;1000m"),
        Err(ModifierError::PaletteIndexOutOfRange { family: Family::Background, index: 1000 })
    );
    assert_eq!(
        Colour::try_from("\x1b[38;2;1;2;3m"),
        Err(ModifierError::ArityMismatch { family: Family::Colour, expected: 2, found: 4 })
    );
    assert_eq!(
        Colour::try_from("\x1b[38m"),
        Err(ModifierError::ArityMismatch { family: Family::Colour, expected: 2, found: 0 })
    );
    assert_eq!(
        Colour::try_from("\x1b[39;1m"),
        Err(ModifierError::ArityMismatch { family: Family::Colour, expected: 0, found: 1 })
    );
    assert_eq!(
        Colour::try_from("\x1b[38;6;9m"),
        Err(ModifierError::UnrecognizedCode { family: Family::Colour, code: Some(38) })
    );
    assert_eq!(
        Colour::try_from("\x1b[48;5;9m"),
        Err(ModifierError::UnrecognizedCode { family: Family::Colour, code: Some(48) })
    );
    assert_eq!(
        Background::try_from("\x1b[38;5;9m"),
        Err(ModifierError::UnrecognizedCode { family: Family::Background, code: Some(38) })
    );
    let no_code = ANSIEscapeCode::new(None, Some(vec![5, 9]), 'm');
    assert_eq!(
        Colour::try_from(&no_code),
        Err(ModifierError::UnrecognizedCode { family: Family::Colour, code: None })
    );
}

#[test]
fn colour_resetter() {
    assert_eq!(Colour::Palette(9).resetter(Some("text")), Colour::Reset);
    assert_eq!(Colour::Reset.resetter(None), Colour::Reset);
    assert_eq!(Background::Palette(9).resetter(None), Background::Reset);
}

#[test]
fn intensity_codes_and_names() {
    assert_eq!(Intensity::Normal.index(), 22);
    assert_eq!(Intensity::Bold.index(), 1);
    assert_eq!(Intensity::Faint.index(), 2);
    assert_eq!(Intensity::Normal.name(), "Normal");
    assert_eq!(Intensity::by_name("Bold"), Some(Intensity::Bold));
    assert_eq!(Intensity::by_name("Faint"), Some(Intensity::Faint));
    assert_eq!(Intensity::by_name("Normal"), Some(Intensity::Normal));
    assert_eq!(Intensity::by_name("bold"), None);
    assert_eq!(Intensity::default(), Intensity::Normal);
    assert_eq!(Intensity::Bold.to_string().as_str(), "\x1b[1m");
    assert_eq!(Intensity::Normal.to_string().as_str(), "\x1b[22m");
    assert_eq!(Intensity::Normal.len(), 5);
    assert_eq!(Intensity::Bold.resetter(Some("x")), Intensity::Normal);
}

#[test]
fn intensity_round_trip() {
    for intensity in [Intensity::Normal, Intensity::Bold, Intensity::Faint] {
        assert_eq!(Intensity::try_from(&intensity.into_ansi_escape_code()), Ok(intensity));
        assert_eq!(Intensity::try_from(intensity.into_ansi_escape_code()), Ok(intensity));
        assert_eq!(Intensity::try_from(intensity.to_string().as_str()), Ok(intensity));
        assert_eq!(Intensity::by_name(intensity.name()), Some(intensity));
    }
}

#[test]
fn intensity_rejects() {
    assert_eq!(
        Intensity::try_from("\x1b[1A"),
        Err(ModifierError::UnexpectedTerminator { family: Family::Intensity, terminator: 'A' })
    );
    assert_eq!(
        Intensity::try_from("\x1b[1;2m"),
        Err(ModifierError::ArityMismatch { family: Family::Intensity, expected: 0, found: 1 })
    );
    assert_eq!(
        Intensity::try_from("\x1b[3m"),
        Err(ModifierError::UnrecognizedCode { family: Family::Intensity, code: Some(3) })
    );
    let no_code = ANSIEscapeCode::new(None, None, 'm');
    assert_eq!(
        Intensity::try_from(&no_code),
        Err(ModifierError::UnrecognizedCode { family: Family::Intensity, code: None })
    );
    assert_eq!(Intensity::try_from("bold"), Err(ModifierError::NotAModifier));
}
