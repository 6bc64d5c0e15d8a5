use flipboard::board::{Board, BOOT_MILLIS};
use flipboard::frame::encode;

#[test]
fn boot_sequence_order_and_times() {
    let (board, plan) = Board::new(10_000);
    let expected: Vec<(u64, String)> = vec![
        (10_000, encode('A', 6, "      ")),
        (10_000, encode('B', 7, "       ")),
        (10_000, encode('C', 7, "       ")),
        (10_000, encode('D', 7, "       ")),
        (11_000, encode('A', 6, "TELAND")),
        (11_500, encode('B', 7, "TER ZEE")),
        (12_000, encode('C', 7, "DELUCHT")),
        (12_500, encode('D', 7, "LSTRM15")),
        (15_500, encode('A', 6, "      ")),
        (15_500, encode('B', 7, "       ")),
        (15_500, encode('C', 7, "       ")),
        (15_500, encode('D', 7, "       ")),
    ];
    let got: Vec<(u64, String)> = plan.sends.iter().map(|t| (t.at, t.frame.clone())).collect();
    assert_eq!(got, expected);
    assert_eq!(plan.ready_at, 10_000 + BOOT_MILLIS);
    assert_eq!(plan.ready_at, 17_000);
    assert_eq!(board.len(), 4);
    assert_eq!(board.row(0).current_text(), "      ");
    assert_eq!(board.row(3).current_text(), "       ");
}

#[test]
fn boot_frames_are_exact() {
    let (_, plan) = Board::new(0);
    assert_eq!(plan.sends[4].frame, "A           TE LA ND X\r");
    assert_eq!(plan.sends[5].frame, "B         T ER  Z EE X\r");
    assert_eq!(plan.sends[0].frame, "A                    X\r");
}

#[test]
fn board_write_and_tick() {
    let (mut board, plan) = Board::new(0);
    let t = plan.ready_at;
    let sent = board.write(1, " 010123".to_string(), t).unwrap();
    assert_eq!(sent, Some("B           01 01 23 X\r".to_string()));
    assert_eq!(board.write(1, " 020000".to_string(), t + 100).unwrap(), None);
    assert_eq!(board.write(0, "ABCDEF".to_string(), t + 100).unwrap(), Some(encode('A', 6, "ABCDEF")));
    let ticked = board.tick(t + 500);
    assert_eq!(ticked, vec![None, None, None, None]);
    let ticked = board.tick(t + 1_000);
    assert_eq!(ticked, vec![None, Some(encode('B', 7, " 020000")), None, None]);
    assert_eq!(board.row(1).current_text(), " 020000");
}

#[test]
fn board_write_rejects_wrong_length() {
    let (mut board, plan) = Board::new(0);
    let err = board.write(0, "1234567".to_string(), plan.ready_at).unwrap_err();
    assert_eq!(err.expected, 6);
    assert_eq!(err.actual, 7);
    assert_eq!(board.row(0).current_text(), "      ");
}

#[test]
fn board_resends_failed_frame() {
    let (mut board, plan) = Board::new(0);
    let t = plan.ready_at;
    let sent = board.write(2, "DELUCHT".to_string(), t).unwrap();
    board.resend_last(2);
    let ticked = board.tick(t + 1_000);
    assert_eq!(ticked[2], sent);
    assert_eq!(ticked[0], None);
}
