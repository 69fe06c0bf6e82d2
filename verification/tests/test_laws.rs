use conch::strip::strip_modifiers;
use conch::{
    ANSIEscapeCode, Background, Clear, Colour, FindModifiers, HasLength, Intensity,
    IntoANSIEscapeCode, LengthWithoutModifiers, Modifier, ModifiersInText, MoveCursor,
};

fn samples() -> Vec<Modifier> {
    vec![
        Modifier::Intensity(Intensity::Bold),
        Modifier::Intensity(Intensity::Normal),
        Modifier::Colour(Colour::Palette(9)),
        Modifier::Colour(Colour::Reset),
        Modifier::Background(Background::Palette(200)),
        Modifier::Clear(Clear::EntireLine),
        Modifier::MoveCursor(MoveCursor::Up(3)),
        Modifier::MoveCursor(MoveCursor::Right(-4)),
        Modifier::MoveCursor(MoveCursor::Left(2)),
        Modifier::MoveCursor(MoveCursor::Origin),
        Modifier::MoveCursor(MoveCursor::Absolute(4, 5)),
        Modifier::Nothing,
        Modifier::Combo(vec![]),
        Modifier::Combo(vec![
            Modifier::Intensity(Intensity::Faint),
            Modifier::Combo(vec![
                Modifier::Colour(Colour::Palette(1)),
                Modifier::MoveCursor(MoveCursor::Right(7)),
            ]),
            Modifier::Nothing,
            Modifier::Background(Background::Reset),
        ]),
    ]
}

/// Takes out of `text` every control sequence that means something.
fn strip(text: &str) -> String {
    String::from_utf8(strip_modifiers(text)).unwrap()
}

/// The same, done by hand with the walk over the control sequences.
fn strip_by_hand(text: &str) -> String {
    let mut walk = ModifiersInText::new(text);
    let mut kept = String::new();
    let mut from = 0;
    while let Some((start, end)) = walk.next_match() {
        if Modifier::try_from(&text[start..end]).is_ok() {
            kept.push_str(&text[from..start]);
            from = end;
        }
    }
    kept.push_str(&text[from..]);
    kept
}

/// The single modifiers of `m` in their order.
fn leaves(m: &Modifier) -> Vec<Modifier> {
    match m {
        Modifier::Combo(members) => members.iter().flat_map(leaves).collect(),
        Modifier::Nothing => vec![],
        other => vec![other.clone()],
    }
}

#[test]
fn law_what_is_written_is_read_back() {
    for modifier in samples() {
        for leaf in leaves(&modifier) {
            let written = leaf.to_string();
            assert_eq!(Modifier::try_from(written.as_str()), Ok(leaf.clone()));
            assert_eq!(written.as_str().iter_modifiers().collect(), vec![leaf.clone()]);
            assert_eq!(leaf.len(), written.len());
        }
    }
}

#[test]
fn law_a_sequence_is_read_back_from_what_it_writes() {
    for text in [
        "\x1b[38:5:9m", "\x1b[0J", "\x1b[007;-08:9z", "\x1b[65535m", "\x1b[-2147483648A",
        "\x1b[0;0H", "\x1b[1mtrailing",
    ] {
        let first = ANSIEscapeCode::try_from(text).unwrap();
        let written = first.to_string();
        let second = ANSIEscapeCode::try_from(written.as_str()).unwrap();
        assert_eq!(first, second);
        assert_eq!(second.to_string(), written);
        assert_eq!(second.len(), written.len());
    }
}

#[test]
fn law_visible_length_and_modifiers_make_up_the_text() {
    for text in [
        "Hello, \x1b[38:5:69mWorld\x1b[48:5:42m!\x1b[49m\x1b[39m",
        "\x1b[1m\x1b[2m\x1b[22m",
        "no modifiers \x1b[7m at all \x1b[",
        "\x1b[2K\x1b[3A\x1b[0;0H\x1b[1;2Hé",
    ] {
        let sum: usize = text.iter_modifiers().collect().iter().map(|m| m.len()).sum();
        assert_eq!(text.len_without_modifiers() + sum, text.len());
    }
}

#[test]
fn law_wrapping_and_stripping_gives_the_text_back() {
    for modifier in samples() {
        for text in ["", "X", "Hello, World!", "é \x1b[ \x1b[7m \x1b[1;", "5m", "[1m", "\x1b"] {
            assert!(text.iter_modifiers().collect().is_empty());
            let wrapped = modifier.wraps(text);
            assert_eq!(strip(wrapped.as_str()), text);
        }
    }
}

#[test]
fn law_stripping_cuts_what_the_walk_finds() {
    for text in [
        "",
        "plain é text",
        "a\x1b[1mb\x1b[7mc\x1b[22m",
        "\x1b[1m\x1b[2m\x1b[3m\x1b[",
        "\x1b[99999999999Ax\x1b[0;0Hé\x1b[38;5;300m",
    ] {
        assert_eq!(strip(text), strip_by_hand(text));
    }
    assert_eq!(strip("a\x1b[1mb\x1b[7mc\x1b[22m"), "ab\x1b[7mc");
}

#[test]
fn law_wrapping_adds_nothing_that_stripping_leaves() {
    for modifier in samples() {
        let text = "a\x1b[1mb\x1b[7mc\x1b[22m";
        let wrapped = modifier.wraps(text);
        assert_eq!(strip(wrapped.as_str()), "ab\x1b[7mc");
        assert_eq!(strip(text), "ab\x1b[7mc");
    }
}

#[test]
fn law_wrapping_leaves_the_visible_length() {
    for modifier in samples() {
        let text = "Hello, World!";
        let wrapped = modifier.wraps(text);
        assert_eq!(wrapped.as_str().len_without_modifiers(), 13);
    }
}

#[test]
fn law_combine_is_associative() {
    let all = samples();
    for a in &all {
        for b in &all {
            for c in &all {
                let left = (a.clone() + b.clone()) + c.clone();
                let right = a.clone() + (b.clone() + c.clone());
                assert_eq!(left, right);
                assert_eq!(leaves(&left), leaves(&right));
                let mut expected = leaves(a);
                expected.extend(leaves(b));
                expected.extend(leaves(c));
                assert_eq!(leaves(&left), expected);
            }
        }
    }
}

#[test]
fn law_combine_is_not_commutative() {
    let a = Modifier::Intensity(Intensity::Bold);
    let b = Modifier::Colour(Colour::Palette(1));
    assert_ne!(a.clone() + b.clone(), b + a);
}

#[test]
fn law_a_row_writes_what_its_members_write() {
    for modifier in samples() {
        let expected: String = leaves(&modifier).iter().map(|m| m.to_string()).collect();
        assert_eq!(modifier.to_string(), expected);
        assert_eq!(modifier.len(), expected.len());
    }
}

#[test]
fn law_a_clone_is_the_same() {
    for modifier in samples() {
        assert_eq!(modifier.clone(), modifier);
    }
}

#[test]
fn law_families_are_read_back_from_their_sequences() {
    for index in [0u8, 1, 15, 16, 100, 231, 232, 255] {
        let code = Colour::Palette(index).into_ansi_escape_code();
        assert_eq!(Colour::try_from(&code), Ok(Colour::Palette(index)));
        assert_eq!(Modifier::try_from(&code), Ok(Modifier::Colour(Colour::Palette(index))));
    }
    for distance in [i32::MIN, i32::MIN + 1, -1, 0, 1, i32::MAX] {
        for m in [
            MoveCursor::Up(distance),
            MoveCursor::Down(distance),
            MoveCursor::Right(distance),
            MoveCursor::Left(distance),
            MoveCursor::Absolute(distance, 0),
            MoveCursor::Absolute(0, distance),
        ] {
            assert_eq!(MoveCursor::try_from(&m.into_ansi_escape_code()), Ok(m));
        }
    }
}
