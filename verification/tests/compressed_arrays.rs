use opy_rs::compression::{compressed_array_text, strip_common_low_zeros};
use opy_rs::text::compression_alphabet_chars;

fn digits(s: &str) -> Vec<char> {
    s.chars().collect()
}

#[test]
fn compression_alphabet_has_a_hundred_characters() {
    let alphabet = compression_alphabet_chars();
    assert_eq!(alphabet.len(), 100);
    assert_eq!(alphabet[0], '\u{1}');
    assert_eq!(alphabet[47], '2');
    assert_eq!(alphabet[99], '\u{a1}');
}

#[test]
fn numbers_are_encoded_in_digit_pairs_and_joined_by_zero() {
    let values = vec![digits("00521005"), digits("000")];
    let text = compressed_array_text(&values, false, 0);
    assert_eq!(text, "\u{1}\u{1a}\u{2}<0\u{1}");
}

#[test]
fn trailing_zeros_are_dropped_before_encoding() {
    let values = vec![digits("5000")];
    assert_eq!(compressed_array_text(&values, false, 0), "\u{6}");
    let values = vec![digits("123")];
    assert_eq!(compressed_array_text(&values, false, 0), "\u{16}\u{4}");
}

#[test]
fn vectors_pad_x_and_z_then_append_y() {
    let values = vec![digits("0051"), digits("00"), digits("1")];
    let text = compressed_array_text(&values, true, 6);
    assert_eq!(text, "\u{1}\u{10}\u{1}\u{2}\u{1}\u{1}\u{1}");
    let two = vec![
        digits("0051"),
        digits("00"),
        digits("1"),
        digits("0051"),
        digits("00"),
        digits("1"),
    ];
    assert_eq!(compressed_array_text(&two, true, 6), format!("{}0{}", text, text));
}

#[test]
fn common_low_zeros_are_stripped_from_every_value() {
    let mut values = vec![digits("0012"), digits("0030"), digits("00")];
    let removed = strip_common_low_zeros(&mut values);
    assert_eq!(removed, 2);
    assert_eq!(values, vec![digits("12"), digits("30"), digits("")]);
    let mut values = vec![digits("10"), digits("00")];
    assert_eq!(strip_common_low_zeros(&mut values), 0);
    assert_eq!(values, vec![digits("10"), digits("00")]);
}
