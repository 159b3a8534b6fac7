//! The singleton guard and its marker text.

use scout94::digits::parse_u32_text;
use scout94::digits::u32_to_decimal;
use scout94::guard::acquire;
use scout94::guard::marker_content;
use scout94::guard::marker_file_name;
use scout94::guard::marker_pid;
use scout94::guard::release;
use scout94::guard::AcquireOutcome;
use scout94::guard::MarkerFile;

#[test]
fn formats_identifiers_as_decimal_text() {
    assert_eq!(u32_to_decimal(0), "0");
    assert_eq!(u32_to_decimal(7), "7");
    assert_eq!(u32_to_decimal(12345), "12345");
    assert_eq!(u32_to_decimal(u32::MAX), "4294967295");
}

#[test]
fn parses_plain_decimal_text() {
    assert_eq!(parse_u32_text("12345"), Some(12345));
    assert_eq!(parse_u32_text("0"), Some(0));
    assert_eq!(parse_u32_text("007"), Some(7));
    assert_eq!(parse_u32_text("4294967295"), Some(u32::MAX));
}

#[test]
fn parses_text_with_whitespace_and_sign() {
    assert_eq!(parse_u32_text(" 42\n"), Some(42));
    assert_eq!(parse_u32_text("\t99\r\n"), Some(99));
    assert_eq!(parse_u32_text("+7"), Some(7));
}

#[test]
fn rejects_text_that_is_no_identifier() {
    assert_eq!(parse_u32_text(""), None);
    assert_eq!(parse_u32_text("   "), None);
    assert_eq!(parse_u32_text("abc"), None);
    assert_eq!(parse_u32_text("12a"), None);
    assert_eq!(parse_u32_text("-5"), None);
    assert_eq!(parse_u32_text("+"), None);
    assert_eq!(parse_u32_text("4294967296"), None);
}

#[test]
fn formatted_markers_parse_back() {
    for pid in [0u32, 1, 22, 65535, 4294967295] {
        assert_eq!(parse_u32_text(&u32_to_decimal(pid)), Some(pid));
    }
}

#[test]
fn marker_file_has_its_fixed_name() {
    assert_eq!(marker_file_name(), "scout94.pid");
}

#[test]
fn absent_marker_is_claimed_with_own_identifier() {
    let marker = MarkerFile { content: None };
    let (after, outcome) = acquire(marker, false, 4242);
    assert!(matches!(outcome, AcquireOutcome::Claimed));
    assert_eq!(after.content.as_deref(), Some("4242"));
}

#[test]
fn live_prior_instance_refuses_and_mutates_nothing() {
    let marker = MarkerFile { content: Some(String::from("999")) };
    let (after, outcome) = acquire(marker, true, 4242);
    assert!(matches!(outcome, AcquireOutcome::AlreadyRunning));
    assert_eq!(after.content.as_deref(), Some("999"));
}

#[test]
fn stale_marker_is_reclaimed_and_rewritten() {
    let marker = MarkerFile { content: Some(String::from("999")) };
    let (after, outcome) = acquire(marker, false, 4242);
    assert!(matches!(outcome, AcquireOutcome::Claimed));
    assert_eq!(after.content.as_deref(), Some("4242"));
}

#[test]
fn unparsable_marker_never_blocks() {
    let marker = MarkerFile { content: Some(String::from("not a pid")) };
    assert_eq!(marker_pid(&marker), None);
    let (after, outcome) = acquire(marker, true, 4242);
    assert!(matches!(outcome, AcquireOutcome::Claimed));
    assert_eq!(after.content.as_deref(), Some("4242"));
}

#[test]
fn marker_content_is_the_identifier() {
    assert_eq!(marker_content(31337), "31337");
}

#[test]
fn release_is_idempotent() {
    let marker = MarkerFile { content: Some(String::from("123")) };
    let once = release(marker);
    assert!(once.content.is_none());
    let twice = release(once);
    assert!(twice.content.is_none());
}
