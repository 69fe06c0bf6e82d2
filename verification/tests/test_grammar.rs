use conch::{ANSIEscapeCode, ModifiersInText};
use regex::Regex;

const PATTERN: &str = r"\x1b\[((?:\-?[0-9]+[;:])*\-?[0-9]+)([A-Za-z])";

fn found_by_walk(text: &str) -> Vec<(usize, usize)> {
    let mut walk = ModifiersInText::new(text);
    let mut found = Vec::new();
    while let Some(range) = walk.next_match() {
        found.push(range);
    }
    found
}

fn found_by_pattern(pattern: &Regex, text: &str) -> Vec<(usize, usize)> {
    pattern.find_iter(text).map(|m| (m.start(), m.end())).collect()
}

struct Noise(u64);

impl Noise {
    fn next(&mut self) -> usize {
        self.0 = self.0.wrapping_mul(6364136223846793005).wrapping_add(1442695040888963407);
        (self.0 >> 33) as usize
    }

    fn text(&mut self, len: usize) -> String {
        let pieces = [
            "\x1b", "\x1b[", "[", "0", "1", "9", "12", "-", ";", ":", "m", "A", "H", "z", " ", "é",
            "\x1b[1m", "\x1b[38;5;", "x", "{", "@",
        ];
        let mut text = String::new();
        for _ in 0..len {
            text.push_str(pieces[self.next() % pieces.len()]);
        }
        text
    }
}

#[test]
fn grammar_agrees_with_the_pattern_on_chosen_texts() {
    let pattern = Regex::new(PATTERN).unwrap();
    for text in [
        "",
        "plain",
        "\x1b[1m",
        "\x1b[1;2;3m",
        "\x1b[1:2;3H",
        "\x1b[-1;-2A",
        "\x1b[1;m",
        "\x1b[;1m",
        "\x1b[1--2m",
        "\x1b[1-2m",
        "\x1b[m",
        "\x1b[1",
        "\x1b[1\x1b[2m",
        "\x1b\x1b[2m",
        "\x1b[\x1b[2m",
        "\x1b[1;\x1b[2m",
        "a\x1b[1mb\x1b[22mc",
        "\x1b[1m\x1b[2m\x1b[3m",
        "\x1b[99999999999999999999m",
        "\x1b[1é",
        "é\x1b[1mé",
        "\x1b[1mm",
        "\x1b[0;0H\x1b[2J",
    ] {
        assert_eq!(found_by_walk(text), found_by_pattern(&pattern, text), "{:?}", text);
    }
}

#[test]
fn grammar_agrees_with_the_pattern_on_many_texts() {
    let pattern = Regex::new(PATTERN).unwrap();
    let mut noise = Noise(7);
    for round in 0..3000 {
        let text = noise.text(1 + round % 24);
        assert_eq!(found_by_walk(&text), found_by_pattern(&pattern, &text), "{:?}", text);
    }
}

#[test]
fn grammar_at_the_start_agrees_with_the_anchored_pattern() {
    let anchored = Regex::new(&(String::from("^") + PATTERN)).unwrap();
    let mut noise = Noise(11);
    for round in 0..3000 {
        let text = noise.text(1 + round % 12);
        let expected = anchored.find(&text).map(|m| m.end());
        assert_eq!(ANSIEscapeCode::parse(&text).ok(), expected, "{:?}", text);
    }
}

#[test]
fn grammar_reads_what_the_pattern_captures() {
    let anchored = Regex::new(&(String::from("^") + PATTERN)).unwrap();
    let separator = Regex::new("[:;]").unwrap();
    let mut noise = Noise(13);
    let mut compared = 0;
    for round in 0..6000 {
        let text = String::from("\x1b[") + &noise.text(1 + round % 8);
        let Some(captures) = anchored.captures(&text) else {
            continue;
        };
        let integers: Option<Vec<i32>> = separator
            .split(captures.get(1).unwrap().as_str())
            .map(|piece| piece.parse::<i32>().ok())
            .collect();
        let letter = captures.get(2).unwrap().as_str().chars().next().unwrap();
        let parsed = ANSIEscapeCode::try_from(text.as_str());
        match integers {
            None => assert!(parsed.is_err(), "{:?}", text),
            Some(integers) if letter == 'm' => match u16::try_from(integers[0]) {
                Ok(code) => {
                    let parsed = parsed.unwrap();
                    assert_eq!(parsed.code, Some(code));
                    assert_eq!(parsed.modifiers, integers[1..].to_vec());
                    assert_eq!(parsed.end_char, letter);
                    assert_eq!(parsed.source_str.as_deref(), Some(captures.get(0).unwrap().as_str()));
                },
                Err(_) => assert!(parsed.is_err(), "{:?}", text),
            },
            Some(integers) => {
                let parsed = parsed.unwrap();
                assert_eq!(parsed.code, None);
                assert_eq!(parsed.modifiers, integers);
                assert_eq!(parsed.end_char, letter);
                assert_eq!(parsed.source_str.as_deref(), Some(captures.get(0).unwrap().as_str()));
            },
        }
        compared += 1;
    }
    assert!(compared > 100);
}
