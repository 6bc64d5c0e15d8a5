use std::cmp::Ordering;

use flipboard::selection::{next_selection, previous_selection};
use flipboard::team::{board_time_text, format_count, format_time, Team};

#[test]
fn counts_are_two_digits() {
    assert_eq!(format_count(0), "00");
    assert_eq!(format_count(5), "05");
    assert_eq!(format_count(42), "42");
    assert_eq!(format_count(123), "12");
    assert_eq!(format_count(999), "99");
    assert_eq!(format_count(u64::MAX), "18");
}

#[test]
fn times_are_minutes_seconds_millis() {
    assert_eq!(format_time(0), "00:00:00");
    assert_eq!(format_time(61_234), "01:01:23");
    assert_eq!(format_time(5_007), "00:05:07");
    assert_eq!(format_time(754_050), "12:34:50");
}

#[test]
fn board_text_of_a_time() {
    assert_eq!(board_time_text("01:01:23"), Some(" 010123".to_string()));
    assert_eq!(board_time_text("1:2"), None);
    assert_eq!(board_time_text(""), None);
}

#[test]
fn stopwatch_runs_and_records() {
    let mut team = Team::new(3, "Ada".to_string(), "Dobberdag".to_string());
    assert_eq!(team.get_time(0), "");
    assert!(!team.is_running());
    team.start_stop_timer(1_000);
    assert!(team.is_running());
    assert_eq!(team.get_time(62_234), "01:01:23");
    team.start_stop_timer(62_234);
    assert!(!team.is_running());
    assert_eq!(team.get_time(100_000), "01:01:23");
    team.start_stop_timer(200_000);
    assert!(!team.is_running());
    team.reset_time();
    assert_eq!(team.get_time(0), "");
    assert_eq!(team.name(), "Ada");
    assert_eq!(team.start_time(), "Dobberdag");
    assert_eq!(team.id, 3);
}

#[test]
fn teams_rank_by_race_time() {
    let mut a = Team::new(0, "A".to_string(), String::new());
    let mut b = Team::new(1, "B".to_string(), String::new());
    let c = Team::new(2, "C".to_string(), String::new());
    a.start_stop_timer(0);
    a.start_stop_timer(2_000);
    b.start_stop_timer(0);
    b.start_stop_timer(1_000);
    assert_eq!(a.cmp(&b), Ordering::Greater);
    assert_eq!(b.cmp(&a), Ordering::Less);
    assert_eq!(a.cmp(&a), Ordering::Equal);
    assert_eq!(a.cmp(&c), Ordering::Less);
    assert_eq!(c.cmp(&a), Ordering::Greater);
    assert!(a != b);
    assert!(a == Team::new(0, "Other".to_string(), String::new()));
}

#[test]
fn selection_wraps() {
    assert_eq!(next_selection(None, 0), None);
    assert_eq!(next_selection(None, 3), Some(1));
    assert_eq!(next_selection(Some(2), 3), Some(0));
    assert_eq!(previous_selection(None, 3), Some(2));
    assert_eq!(previous_selection(Some(1), 3), Some(0));
    assert_eq!(previous_selection(Some(4), 0), Some(4));
}
