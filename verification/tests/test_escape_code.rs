use conch::{ANSIEscapeCode, HasLength, ModifierError, DEFAULT_SEPARATOR};

fn code(code: Option<u16>, modifiers: Vec<i32>, end_char: char) -> ANSIEscapeCode {
    ANSIEscapeCode { code, modifiers, sep: DEFAULT_SEPARATOR, end_char, source_str: None }
}

#[test]
fn escape_code_parses_a_code() {
    let parsed: ANSIEscapeCode = "\x1b[30m".try_into().unwrap();
    assert_eq!(parsed, code(Some(30), Vec::new(), 'm'));
    assert_eq!(parsed.source_str.as_deref(), Some("\x1b[30m"));
    assert_eq!(parsed.sep, ';');
}

#[test]
fn escape_code_parses_parameters() {
    let parsed: ANSIEscapeCode = "\x1b[20;8H".try_into().unwrap();
    assert_eq!(parsed, code(None, vec![20, 8], 'H'));
}

#[test]
fn escape_code_parses_other_separator() {
    let parsed: ANSIEscapeCode = "\x1b[38:5:255m".try_into().unwrap();
    assert_eq!(parsed, code(Some(38), vec![5, 255], 'm'));
    assert_eq!(parsed.sep, DEFAULT_SEPARATOR);
    let mixed: ANSIEscapeCode = "\x1b[38;5:255m".try_into().unwrap();
    assert_eq!(mixed, parsed);
}

#[test]
fn escape_code_rejects_negative_code() {
    let parsed: Result<ANSIEscapeCode, _> = "\x1b[-1m".try_into();
    assert_eq!(parsed, Err(ModifierError::CodeOutOfRange { value: -1 }));
}

#[test]
fn escape_code_rejects_large_code() {
    assert_eq!(
        ANSIEscapeCode::try_from("\x1b[65536m"),
        Err(ModifierError::CodeOutOfRange { value: 65536 })
    );
    assert_eq!(ANSIEscapeCode::try_from("\x1b[65535m").unwrap().code, Some(65535));
}

#[test]
fn escape_code_rejects_missing_end() {
    let parsed: Result<ANSIEscapeCode, _> = "\x1b[38;5;0".try_into();
    assert_eq!(parsed, Err(ModifierError::NotAModifier));
}

#[test]
fn escape_code_rejects_text_before() {
    let parsed: Result<ANSIEscapeCode, _> = "FooBar\x1b[38;5;0".try_into();
    assert_eq!(parsed, Err(ModifierError::NotAModifier));
    assert_eq!(ANSIEscapeCode::try_from("FooBar\x1b[38;5;0m"), Err(ModifierError::NotAModifier));
}

#[test]
fn escape_code_rejects_malformed() {
    for text in [
        "", "\x1b", "\x1b[", "\x1b[m", "\x1b[;m", "\x1b[1;m", "\x1b[;1m", "\x1b[1;;2m", "\x1b[-m",
        "\x1b[--1m", "\x1b[1-m", "\x1b[+1m", "\x1b[1 m", "\x1b[1", "\x1b[1;", "\x1b]1m", "\x1b[1é",
        "\x1b[1[", "\x1b[1`", "\x1b[1{", "\x1b[1@", "\x1b[1,2m", "\x1b[1.5m",
    ] {
        assert_eq!(ANSIEscapeCode::try_from(text), Err(ModifierError::NotAModifier), "{:?}", text);
    }
}

#[test]
fn escape_code_reads_only_the_start() {
    let parsed = ANSIEscapeCode::try_from("\x1b[1mbold\x1b[22m").unwrap();
    assert_eq!(parsed, code(Some(1), vec![], 'm'));
    assert_eq!(parsed.source_str.as_deref(), Some("\x1b[1m"));
    assert_eq!(parsed.len(), 4);
    assert_eq!(ANSIEscapeCode::parse("\x1b[1mbold\x1b[22m"), Ok(4));
    assert_eq!(ANSIEscapeCode::parse("bold"), Err(ModifierError::NotAModifier));
}

#[test]
fn escape_code_reads_signs_and_zeros() {
    let parsed = ANSIEscapeCode::try_from("\x1b[-0012;0;-0;007z").unwrap();
    assert_eq!(parsed, code(None, vec![-12, 0, 0, 7], 'z'));
    assert_eq!(parsed.to_string().as_str(), "\x1b[-12;0;0;7z");
    // The length is that of the text that was read.
    assert_eq!(parsed.len(), 17);
}

#[test]
fn escape_code_reads_the_limits() {
    let parsed = ANSIEscapeCode::try_from("\x1b[-2147483648;2147483647A").unwrap();
    assert_eq!(parsed.modifiers, vec![i32::MIN, i32::MAX]);
    assert_eq!(parsed.to_string().as_str(), "\x1b[-2147483648;2147483647A");
    assert_eq!(
        ANSIEscapeCode::try_from("\x1b[2147483648A"),
        Err(ModifierError::ParameterOutOfRange)
    );
    assert_eq!(
        ANSIEscapeCode::try_from("\x1b[-2147483649A"),
        Err(ModifierError::ParameterOutOfRange)
    );
    assert_eq!(
        ANSIEscapeCode::try_from("\x1b[1;99999999999999999999999999999999A"),
        Err(ModifierError::ParameterOutOfRange)
    );
    // A parameter that does not fit is reported before a code that does not.
    assert_eq!(
        ANSIEscapeCode::try_from("\x1b[70000;99999999999m"),
        Err(ModifierError::ParameterOutOfRange)
    );
}

#[test]
fn escape_code_to_string() {
    assert_eq!(code(Some(38), vec![5, 9], 'm').to_string().as_str(), "\x1b[38;5;9m");
    assert_eq!(code(Some(0), vec![], 'm').to_string().as_str(), "\x1b[0m");
    assert_eq!(code(None, vec![-3], 'A').to_string().as_str(), "\x1b[-3A");
    assert_eq!(code(Some(65535), vec![i32::MIN], 'm').to_string().as_str(), "\x1b[65535;-2147483648m");
}

#[test]
fn escape_code_to_string_with_other_separator() {
    let written = code(Some(38), vec![5, 9], 'm').use_sep(':').to_string();
    assert_eq!(written.as_str(), "\x1b[38:5:9m");
}

#[test]
fn escape_code_to_string_without_integers() {
    // Such a value cannot come from a text, and what it writes is not read back.
    let empty = ANSIEscapeCode::new(None, None, 'H');
    assert_eq!(empty.to_string().as_str(), "\x1b[H");
    assert_eq!(empty.len(), 3);
    assert_eq!(ANSIEscapeCode::try_from("\x1b[H"), Err(ModifierError::NotAModifier));
}

#[test]
fn escape_code_new() {
    let made = ANSIEscapeCode::new(Some(1), Some(vec![2, 3]), 'm');
    assert_eq!(made.code, Some(1));
    assert_eq!(made.modifiers, vec![2, 3]);
    assert_eq!(made.sep, DEFAULT_SEPARATOR);
    assert_eq!(made.end_char, 'm');
    assert_eq!(made.source_str, None);
}

#[test]
fn escape_code_length_goes_by_source() {
    let made = ANSIEscapeCode::new(Some(1), None, 'm');
    assert_eq!(made.len(), 4);
    let with_source = made.add_source("\x1b[0001m");
    assert_eq!(with_source.len(), 7);
    assert_eq!(with_source.source_str.as_deref(), Some("\x1b[0001m"));
    assert_eq!(with_source.to_string().as_str(), "\x1b[1m");
}

#[test]
fn escape_code_length_counts_bytes() {
    let wide = ANSIEscapeCode::new(None, Some(vec![1, 2]), 'é').use_sep('→');
    assert_eq!(wide.to_string().as_str(), "\x1b[1→2é");
    assert_eq!(wide.len(), 9);
}

#[test]
fn escape_code_equality_ignores_separator_and_source() {
    let a = ANSIEscapeCode::new(Some(38), Some(vec![5, 9]), 'm');
    let b = ANSIEscapeCode::new(Some(38), Some(vec![5, 9]), 'm').use_sep(':').add_source("anything");
    assert_eq!(a, b);
    assert_ne!(a, ANSIEscapeCode::new(Some(38), Some(vec![5, 10]), 'm'));
    assert_ne!(a, ANSIEscapeCode::new(Some(38), Some(vec![5]), 'm'));
    assert_ne!(a, ANSIEscapeCode::new(Some(39), Some(vec![5, 9]), 'm'));
    assert_ne!(a, ANSIEscapeCode::new(None, Some(vec![5, 9]), 'm'));
    assert_ne!(a, ANSIEscapeCode::new(Some(38), Some(vec![5, 9]), 'M'));
}

#[test]
fn escape_code_is_read_back_as_written() {
    for text in ["\x1b[38:5:9m", "\x1b[0;0H", "\x1b[-7;08z", "\x1b[1m", "\x1b[00m"] {
        let first = ANSIEscapeCode::try_from(text).unwrap();
        let again = ANSIEscapeCode::try_from(first.to_string().as_str()).unwrap();
        assert_eq!(first, again);
    }
}
