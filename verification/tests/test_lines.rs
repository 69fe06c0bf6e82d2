use conch::{Lines, Modifier, MoveCursor};

fn caesar() -> Lines {
    Lines::from(vec!["veni", "vidi", "vici"])
}

#[test]
fn lines_simple_3_lines() {
    assert_eq!(caesar().to_string().as_str(), "veni\nvidi\nvici");
}

#[test]
fn lines_prefix() {
    assert_eq!(caesar().prefix("> ").to_string().as_str(), "> veni\n> vidi\n> vici");
}

#[test]
fn lines_spacing() {
    assert_eq!(caesar().spacing(2).to_string().as_str(), "veni\n\nvidi\n\nvici");
}

#[test]
fn lines_prefix_and_spacing() {
    assert_eq!(
        caesar().prefix("> ").spacing(2).to_string().as_str(),
        "> veni\n\n> vidi\n\n> vici"
    );
}

#[test]
fn lines_title() {
    assert_eq!(
        caesar().title("Julius Caesar").to_string().as_str(),
        "Julius Caesar\nveni\nvidi\nvici"
    );
}

#[test]
fn lines_title_prefix() {
    assert_eq!(
        caesar().title("Julius Caesar").title_prefix("Quotes of ").to_string().as_str(),
        "Quotes of Julius Caesar\nveni\nvidi\nvici"
    );
}

#[test]
fn lines_lines_modifier() {
    let lines = caesar()
        .title("Julius Caesar")
        .title_prefix("Quotes of ")
        .modifier(Modifier::colour("Grayscale13").unwrap());
    assert_eq!(
        lines.to_string().as_str(),
        "\u{1b}[38;5;245mQuotes of Julius Caesar\u{1b}[39m\n\
         \u{1b}[38;5;245mveni\u{1b}[39m\n\
         \u{1b}[38;5;245mvidi\u{1b}[39m\n\
         \u{1b}[38;5;245mvici\u{1b}[39m"
    );
}

#[test]
fn lines_lines_and_title_modifier() {
    let lines = caesar()
        .title("Julius Caesar")
        .title_prefix("Quotes of ")
        .modifier(Modifier::colour("Grayscale13").unwrap())
        .title_modifier(
            Modifier::colour("BrightRed").unwrap() + Modifier::intensity("Bold").unwrap(),
        );
    assert_eq!(
        lines.to_string().as_str(),
        "\u{1b}[38;5;9m\u{1b}[1mQuotes of Julius Caesar\u{1b}[22m\u{1b}[39m\n\
         \u{1b}[38;5;245mveni\u{1b}[39m\n\
         \u{1b}[38;5;245mvidi\u{1b}[39m\n\
         \u{1b}[38;5;245mvici\u{1b}[39m"
    );
}

#[test]
fn lines_title_takes_the_prefix_of_the_lines() {
    assert_eq!(
        caesar().title("Caesar").prefix("> ").to_string().as_str(),
        "> Caesar\n> veni\n> vidi\n> vici"
    );
}

#[test]
fn lines_title_alone() {
    assert_eq!(Lines::new(vec![]).title("Caesar").spacing(3).to_string().as_str(), "Caesar");
    assert_eq!(Lines::new(vec![]).to_string().as_str(), "");
}

#[test]
fn lines_without_spacing() {
    assert_eq!(caesar().spacing(0).to_string().as_str(), "venividivici");
    assert_eq!(caesar().title("T").spacing(0).to_string().as_str(), "Tvenividivici");
}

#[test]
fn lines_empty_lines_at_the_top_leave_no_gap() {
    let lines = Lines::from(vec!["", "", "a", "", "b"]);
    assert_eq!(lines.to_string().as_str(), "a\n\nb");
}

#[test]
fn lines_extend() {
    let lines = Lines::new(vec![String::from("a")])
        .extend(vec![String::from("b"), String::from("c")])
        .extend_one("d");
    assert_eq!(lines.to_string().as_str(), "a\nb\nc\nd");
    assert_eq!(lines.lines, vec!["a", "b", "c", "d"]);
    let back: Vec<String> = lines.into();
    assert_eq!(back, vec!["a", "b", "c", "d"]);
}

#[test]
fn lines_new_keeps_title_unset() {
    let lines = Lines::new(vec![String::from("a")]);
    assert_eq!(lines.title, None);
    assert_eq!(lines.title("t").title, Some(String::from("t")));
}

#[test]
fn lines_printable() {
    let lines = caesar().modifier(Modifier::colour("Red").unwrap());
    assert!(lines.is_printable());
    assert_eq!(lines.try_to_string(), Some(lines.to_string()));
    let far = Modifier::MoveCursor(MoveCursor::Right(i32::MAX - 4));
    let lines = caesar().modifier(far.clone());
    assert!(lines.is_printable());
    assert!(!caesar().prefix("> ").modifier(far.clone()).is_printable());
    assert_eq!(caesar().prefix("> ").modifier(far.clone()).try_to_string(), None);
    assert!(!caesar().title("Caesar").modifier(far.clone()).is_printable());
    assert!(caesar().title("Caesar").modifier(far.clone()).title_modifier(Modifier::Nothing).is_printable());
    assert!(!caesar().title("Caesar").title_modifier(far).is_printable());
}
