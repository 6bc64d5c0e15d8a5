use flipboard::frame::encode;

#[test]
fn encodes_worked_example() {
    let frame = encode('A', 6, "123456");
    assert_eq!(frame, "A           12 34 56 X\r");
    assert_eq!(frame.len(), 23);
}

#[test]
fn encoding_is_deterministic() {
    assert_eq!(encode('A', 6, "123456"), encode('A', 6, "123456"));
}

#[test]
fn encodes_seven_character_row() {
    assert_eq!(encode('B', 7, "TER ZEE"), "B         T ER  Z EE X\r");
    assert_eq!(encode('D', 7, "LSTRM15"), "D         L ST RM 15 X\r");
}

#[test]
fn encodes_blank_row() {
    assert_eq!(encode('B', 7, "       "), "B                    X\r");
}

#[test]
fn encodes_empty_text_for_empty_row() {
    assert_eq!(encode('Z', 0, ""), "Z                    X\r");
}
