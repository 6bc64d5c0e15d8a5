use flipboard::race::{App, LEADER_ROW, RUNNING_ROW};

fn ids(app: &App) -> Vec<u32> {
    app.teams().iter().map(|t| t.id()).collect()
}

fn texts(app: &mut App, now: u64) -> Vec<(usize, String)> {
    app.on_tick(now).into_iter().map(|b| (b.row, b.text)).collect()
}

#[test]
fn empty_console() {
    let mut app = App::new();
    app.next();
    assert_eq!(app.selected(), None);
    app.previous();
    assert_eq!(app.selected(), None);
    assert!(app.start_stop_current(0).is_none());
    assert!(texts(&mut app, 0).is_empty());
}

#[test]
fn teams_get_consecutive_ids() {
    let mut app = App::new();
    app.add_team("Ada".to_string(), "Dobberdag".to_string());
    app.add_team("Bo".to_string(), "Dobberdag".to_string());
    assert_eq!(ids(&app), vec![0, 1]);
    assert_eq!(app.last_id(), 2);
    assert_eq!(app.teams()[1].name(), "Bo");
}

#[test]
fn selection_moves_and_wraps() {
    let mut app = App::new();
    for name in ["a", "b", "c"] {
        app.add_team(name.to_string(), String::new());
    }
    app.next();
    assert_eq!(app.selected(), Some(1));
    app.next();
    app.next();
    assert_eq!(app.selected(), Some(0));
    app.previous();
    assert_eq!(app.selected(), Some(2));
}

#[test]
fn running_time_goes_to_board_and_leader_is_ranked_first() {
    let mut app = App::new();
    for name in ["a", "b", "c"] {
        app.add_team(name.to_string(), String::new());
    }
    app.next();
    assert!(app.start_stop_current(0).is_none());
    assert!(app.is_running());
    assert_eq!(texts(&mut app, 61_234), vec![(RUNNING_ROW, " 010123".to_string())]);
    assert_eq!(ids(&app), vec![0, 1, 2]);

    let stop = app.start_stop_current(62_000).unwrap();
    assert_eq!(stop.row, RUNNING_ROW);
    assert_eq!(stop.text, " 010200");
    assert!(!app.is_running());

    assert_eq!(texts(&mut app, 70_000), vec![(LEADER_ROW, " 010200".to_string())]);
    assert_eq!(ids(&app), vec![1, 0, 2]);
}

#[test]
fn faster_team_leads() {
    let mut app = App::new();
    for name in ["a", "b"] {
        app.add_team(name.to_string(), String::new());
    }
    app.next();
    app.start_stop_current(0);
    app.start_stop_current(5_000);
    app.previous();
    app.start_stop_current(10_000);
    app.start_stop_current(13_000);
    texts(&mut app, 20_000);
    assert_eq!(ids(&app), vec![0, 1]);
    assert_eq!(app.teams()[0].get_time(0), "00:03:00");
}

#[test]
fn only_the_running_team_stops() {
    let mut app = App::new();
    for name in ["a", "b"] {
        app.add_team(name.to_string(), String::new());
    }
    app.next();
    app.start_stop_current(0);
    app.next();
    assert!(app.start_stop_current(1_000).is_none());
    assert!(app.is_running());
    assert!(app.teams()[0].get_time(1_000).is_empty());
}

#[test]
fn reset_clears_selected_team() {
    let mut app = App::new();
    app.add_team("a".to_string(), String::new());
    app.next();
    app.start_stop_current(0);
    app.start_stop_current(2_000);
    assert_eq!(app.teams()[0].get_time(0), "00:02:00");
    app.reset_current();
    assert_eq!(app.teams()[0].get_time(0), "");
    assert!(!app.teams()[0].is_running());
}
