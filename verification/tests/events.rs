use orderbook_aggregator::events::{InputLine, Key, KeyAction};

#[test]
fn keys_edit_and_submit_the_line() {
    let mut line = InputLine::new();
    assert!(matches!(line.handle_key(Key::Backspace), KeyAction::Edited));
    assert_eq!(line.as_str(), "");
    for c in "shoe".chars() {
        assert!(matches!(line.handle_key(Key::Char(c)), KeyAction::Edited));
    }
    assert!(matches!(line.handle_key(Key::Backspace), KeyAction::Edited));
    assert!(matches!(line.handle_key(Key::Char('w')), KeyAction::Edited));
    assert_eq!(line.as_str(), "show");
    assert!(matches!(line.handle_key(Key::Other), KeyAction::Ignored));
    assert!(matches!(line.handle_key(Key::Esc), KeyAction::Stop));
    assert_eq!(line.as_str(), "show");
    match line.handle_key(Key::Enter) {
        KeyAction::Submit(s) => assert_eq!(s, "show"),
        _ => panic!(),
    }
    assert_eq!(line.as_str(), "");
    line.handle_key(Key::Char('é'));
    line.handle_key(Key::Backspace);
    assert_eq!(line.as_str(), "");
}
