use flipboard::frame::encode;
use flipboard::row::{Row, ValidationError};

#[test]
fn fresh_row_is_empty() {
    let row = Row::new('A', 6);
    assert_eq!(row.id(), 'A');
    assert_eq!(row.capacity(), 6);
    assert_eq!(row.current_text(), "");
    assert!(row.pending_text().is_none());
}

#[test]
fn first_write_transmits() {
    let mut row = Row::new('A', 6);
    let sent = row.write("123456".to_string(), 0).unwrap();
    assert_eq!(sent, Some("A           12 34 56 X\r".to_string()));
    assert_eq!(row.current_text(), "123456");
}

#[test]
fn cooldown_coalesces_to_last_write() {
    let mut row = Row::new('A', 6);
    row.write("000000".to_string(), 1_000).unwrap();
    assert_eq!(row.write("ABCDEF".to_string(), 1_200).unwrap(), None);
    assert_eq!(row.write("UVWXYZ".to_string(), 1_400).unwrap(), None);
    assert_eq!(row.pending_text().map(|t| t.as_str()), Some("UVWXYZ"));
    assert_eq!(row.current_text(), "000000");
    assert_eq!(row.tick(1_999), None);
    let sent = row.tick(2_000);
    assert_eq!(sent, Some("A           UV WX YZ X\r".to_string()));
    assert_eq!(row.current_text(), "UVWXYZ");
    assert!(row.pending_text().is_none());
    assert_eq!(row.tick(5_000), None);
}

#[test]
fn unchanged_text_is_not_resent() {
    let mut row = Row::new('A', 6);
    let first = row.write("ABCDEF".to_string(), 0).unwrap();
    assert_eq!(first, Some(encode('A', 6, "ABCDEF")));
    let second = row.write("ABCDEF".to_string(), 3_000).unwrap();
    assert_eq!(second, None);
    assert_eq!(row.current_text(), "ABCDEF");
    assert!(row.pending_text().is_none());
}

#[test]
fn idle_tick_changes_nothing() {
    let mut row = Row::new('A', 6);
    assert_eq!(row.tick(0), None);
    row.write("ABCDEF".to_string(), 10).unwrap();
    row.write("UVWXYZ".to_string(), 500).unwrap();
    assert_eq!(row.tick(900), None);
    assert_eq!(row.current_text(), "ABCDEF");
    assert_eq!(row.pending_text().map(|t| t.as_str()), Some("UVWXYZ"));
}

#[test]
fn wrong_length_is_rejected() {
    let mut row = Row::new('A', 6);
    let err = row.write("12345".to_string(), 0).unwrap_err();
    assert_eq!(err, ValidationError { expected: 6, actual: 5 });
    let err = row.write("1234567".to_string(), 0).unwrap_err();
    assert_eq!(err, ValidationError { expected: 6, actual: 7 });
    assert_eq!(row.current_text(), "");
    assert!(row.pending_text().is_none());
}

#[test]
fn wrong_length_is_rejected_during_cooldown() {
    let mut row = Row::new('A', 6);
    row.write("ABCDEF".to_string(), 0).unwrap();
    assert!(row.write("AB".to_string(), 100).is_err());
    assert!(row.pending_text().is_none());
}

#[test]
fn clock_going_back_counts_as_cooling() {
    let mut row = Row::new('A', 6);
    row.write("ABCDEF".to_string(), 5_000).unwrap();
    assert_eq!(row.write("UVWXYZ".to_string(), 1_000).unwrap(), None);
    assert_eq!(row.pending_text().map(|t| t.as_str()), Some("UVWXYZ"));
}

#[test]
fn failed_frame_can_be_sent_again() {
    let mut row = Row::new('A', 6);
    let first = row.write("ABCDEF".to_string(), 0).unwrap();
    row.resend_last();
    assert_eq!(row.current_text(), "");
    assert_eq!(row.pending_text().map(|t| t.as_str()), Some("ABCDEF"));
    assert_eq!(row.tick(500), None);
    assert_eq!(row.tick(1_000), first);
    assert_eq!(row.current_text(), "ABCDEF");
}

#[test]
fn newer_pending_text_wins_over_resend() {
    let mut row = Row::new('A', 6);
    row.write("ABCDEF".to_string(), 0).unwrap();
    row.write("UVWXYZ".to_string(), 100).unwrap();
    row.resend_last();
    assert_eq!(row.pending_text().map(|t| t.as_str()), Some("UVWXYZ"));
    assert_eq!(row.tick(1_000), Some(encode('A', 6, "UVWXYZ")));
}
