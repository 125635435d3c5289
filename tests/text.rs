use rcurl::args::header_arg;
use rcurl::text::{chars_of, decimal_string, parse_bounded, same_text, trim_span, word_spans};

#[test]
fn decimal_forms() {
    assert_eq!(decimal_string(0), "0");
    assert_eq!(decimal_string(80), "80");
    assert_eq!(decimal_string(65535), "65535");
    assert_eq!(decimal_string(u64::MAX), "18446744073709551615");
}

#[test]
fn bounded_numbers() {
    let cs = chars_of("x+123y");
    assert_eq!(parse_bounded(&cs, 1, 5, 1000), Some(123));
    assert_eq!(parse_bounded(&cs, 1, 5, 122), None);
    assert_eq!(parse_bounded(&cs, 1, 6, 1000), None);
    assert_eq!(parse_bounded(&cs, 1, 2, 1000), None);
    let big = chars_of("18446744073709551615");
    assert_eq!(parse_bounded(&big, 0, big.len(), u64::MAX), Some(u64::MAX));
    let bigger = chars_of("18446744073709551616");
    assert_eq!(parse_bounded(&bigger, 0, bigger.len(), u64::MAX), None);
}

#[test]
fn words_and_trimming() {
    let cs = chars_of("  a\tbc \u{3000}d  ");
    let spans = word_spans(&cs, 0, cs.len());
    let words: Vec<String> = spans.iter().map(|(a, b)| cs[*a..*b].iter().collect()).collect();
    assert_eq!(words, vec!["a", "bc", "d"]);
    let (a, b) = trim_span(&cs, 0, cs.len());
    let trimmed: String = cs[a..b].iter().collect();
    assert_eq!(trimmed, "a\tbc \u{3000}d");
}

#[test]
fn text_equality() {
    assert!(same_text("héllo", "héllo"));
    assert!(!same_text("héllo", "hello"));
    assert!(!same_text("a", "ab"));
}

#[test]
fn header_arguments() {
    assert_eq!(
        header_arg("Content-Type: application/json"),
        Some(("Content-Type".to_string(), " application/json".to_string()))
    );
    assert_eq!(header_arg("X:"), Some(("X".to_string(), String::new())));
    assert_eq!(header_arg("no colon"), None);
    assert_eq!(header_arg("a:b:c"), None);
}
