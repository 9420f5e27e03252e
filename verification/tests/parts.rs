//! Encodings, texts and times.
use authenticate_oauth2::clock::seconds_since_epoch;
use authenticate_oauth2::text::{characters, decimal_text, enclosed, same_text, split};
use authenticate_oauth2::{base64, now, percent};

#[test]
fn what_is_unreserved_stands_for_itself_and_nothing_else_does() {
    let all: String = (0u8..=127).map(char::from).collect();
    let encoded = percent::encode(&all);
    let plain: Vec<u8> =
        (0u8..=127).filter(|b| b.is_ascii_alphanumeric() || b"-._~".contains(b)).collect();
    let escapes = encoded.iter().filter(|b| **b == b'%').count();

    assert_eq!(plain.len(), 66);
    assert_eq!(escapes, 128 - 66);
    assert_eq!(encoded.len(), 66 + 3 * 62);
    assert_eq!(percent::encode("-._~aZ09"), b"-._~aZ09");
}

#[test]
fn bytes_are_escaped_in_upper_case_hexadecimal() {
    assert_eq!(percent::encode(""), b"");
    assert_eq!(percent::encode(" &=+%"), b"%20%26%3D%2B%25");
    assert_eq!(percent::encode("\u{7f}é…"), b"%7F%C3%A9%E2%80%A6");
}

#[test]
fn base64_has_the_values_of_its_standard() {
    assert_eq!(base64::encode(b""), "");
    assert_eq!(base64::encode(b"f"), "Zg==");
    assert_eq!(base64::encode(b"fo"), "Zm8=");
    assert_eq!(base64::encode(b"foo"), "Zm9v");
    assert_eq!(base64::encode(b"foob"), "Zm9vYg==");
    assert_eq!(base64::encode(b"fooba"), "Zm9vYmE=");
    assert_eq!(base64::encode(b"foobar"), "Zm9vYmFy");
    assert_eq!(base64::encode(&[0xff, 0xef, 0xbe, 0xfb, 0xff]), "/++++/8=");
}

#[test]
fn numbers_are_written_in_decimal() {
    assert_eq!(decimal_text(0), "0");
    assert_eq!(decimal_text(10), "10");
    assert_eq!(decimal_text(-1), "-1");
    assert_eq!(decimal_text(i64::MAX.into()), "9223372036854775807");
    assert_eq!(decimal_text(i64::MIN.into()), "-9223372036854775808");
    assert_eq!(decimal_text(u64::MAX.into()), "18446744073709551615");
    assert_eq!(decimal_text(i128::MIN), "-170141183460469231731687303715884105728");
}

#[test]
fn text_is_split_between_its_separators() {
    let pieces = |text: &str| -> Vec<String> {
        split(text, ' ').into_iter().map(|piece| piece.into_iter().collect()).collect()
    };

    assert_eq!(pieces(""), vec![""]);
    assert_eq!(pieces(" "), vec!["", ""]);
    assert_eq!(pieces("a é  …"), vec!["a", "é", "", "…"]);
}

#[test]
fn texts_are_compared_and_joined_by_their_characters() {
    assert!(same_text("é…", "é…"));
    assert!(!same_text("e", "é"));
    assert!(!same_text("a", "a "));
    assert_eq!(enclosed("'", "é", "' is"), "'é' is");
    assert_eq!(characters("aé…"), vec!['a', 'é', '…']);
}

#[test]
fn the_clock_is_held_to_its_range() {
    assert_eq!(seconds_since_epoch(None), 0);
    assert_eq!(seconds_since_epoch(Some(17)), 17);
    assert_eq!(seconds_since_epoch(Some(i64::MAX as u64)), i64::MAX);
    assert_eq!(seconds_since_epoch(Some(i64::MAX as u64 + 1)), i64::MAX);
    assert_eq!(seconds_since_epoch(Some(u64::MAX)), i64::MAX);
}

#[test]
fn it_is_later_than_when_this_was_written() {
    assert!(now() > 1_750_000_000);
}
