use conch::RangeWithoutModifiers;

const TEXT: &str = "ab\x1b[1mcd\x1b[7mef\x1b[22m";
//                  01 2345   67 89..   ..

#[test]
fn range_index_without_modifiers() {
    let map = RangeWithoutModifiers::new(TEXT);
    assert_eq!(map.index_without_modifiers(0), 0);
    assert_eq!(map.index_without_modifiers(1), 1);
    assert_eq!(map.index_without_modifiers(2), 2);
    // Inside the first sequence: counted as where it starts.
    assert_eq!(map.index_without_modifiers(3), 2);
    assert_eq!(map.index_without_modifiers(5), 2);
    assert_eq!(map.index_without_modifiers(6), 2);
    assert_eq!(map.index_without_modifiers(7), 3);
    assert_eq!(map.index_without_modifiers(8), 4);
    // A sequence counts whether it means anything or not.
    assert_eq!(map.index_without_modifiers(12), 4);
    assert_eq!(map.index_without_modifiers(13), 5);
    assert_eq!(map.index_without_modifiers(14), 6);
    assert_eq!(map.index_without_modifiers(19), 6);
    assert_eq!(map.index_without_modifiers(TEXT.len()), 6);
    // Behind the end of the text nothing more is covered.
    assert_eq!(map.index_without_modifiers(100), 87);
}

#[test]
fn range_index_with_modifiers() {
    let map = RangeWithoutModifiers::new(TEXT);
    assert_eq!(map.index_with_modifiers(0), 0);
    assert_eq!(map.index_with_modifiers(1), 1);
    // The third visible byte stands after the first sequence; the place before it
    // is the place before the sequence.
    assert_eq!(map.index_with_modifiers(2), 2);
    assert_eq!(map.index_with_modifiers(3), 7);
    assert_eq!(map.index_with_modifiers(4), 8);
    assert_eq!(map.index_with_modifiers(5), 13);
    assert_eq!(map.index_with_modifiers(6), 14);
    assert_eq!(map.index_with_modifiers(7), 20);
    assert_eq!(map.index_with_modifiers(100), 113);
}

#[test]
fn range_with_is_the_inverse_of_without() {
    let map = RangeWithoutModifiers::new(TEXT);
    for plain in 0..30 {
        assert_eq!(map.index_without_modifiers(map.index_with_modifiers(plain)), plain);
    }
    for raw in 0..30 {
        let back = map.index_with_modifiers(map.index_without_modifiers(raw));
        let inside = [(2, 6), (8, 12), (14, 19)].iter().any(|(s, e)| *s < raw && raw <= *e);
        if inside {
            assert!(back < raw);
        } else {
            assert_eq!(back, raw);
        }
    }
}

#[test]
fn range_of_sequences_that_touch() {
    let map = RangeWithoutModifiers::new("\x1b[1m\x1b[2mab\x1b[22m");
    assert_eq!(map.index_without_modifiers(4), 0);
    assert_eq!(map.index_without_modifiers(8), 0);
    assert_eq!(map.index_without_modifiers(9), 1);
    assert_eq!(map.index_with_modifiers(0), 0);
    assert_eq!(map.index_with_modifiers(1), 9);
    assert_eq!(map.index_with_modifiers(2), 10);
    assert_eq!(map.index_with_modifiers(3), 16);
}

#[test]
fn range_of_plain_text_is_unchanged() {
    let map = RangeWithoutModifiers::new("plain text \x1b[ no sequence");
    for idx in 0..40 {
        assert_eq!(map.index_without_modifiers(idx), idx);
        assert_eq!(map.index_with_modifiers(idx), idx);
    }
}

#[test]
fn range_ranges() {
    let map = RangeWithoutModifiers::new(TEXT);
    assert_eq!(map.range_without_modifiers(0..8), 0..4);
    assert_eq!(map.range_without_modifiers(6..14), 2..6);
    assert_eq!(map.range_with_modifiers(0..2), 0..2);
    assert_eq!(map.range_with_modifiers(2..4), 2..8);
    assert_eq!(map.range_with_modifiers(3..6), 7..14);
}

#[test]
fn range_of_empty_text() {
    let map = RangeWithoutModifiers::new("");
    assert_eq!(map.index_without_modifiers(0), 0);
    assert_eq!(map.index_without_modifiers(5), 5);
    assert_eq!(map.index_with_modifiers(5), 5);
}
