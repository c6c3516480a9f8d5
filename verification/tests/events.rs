use pi_capture::app::{KeyCode, KeyEvent, NONE};
use pi_capture::events::paste_keys;

#[test]
fn paste_becomes_one_key_per_character() {
    let keys = paste_keys("a\nb\r你");
    let expect = vec![
        KeyEvent { code: KeyCode::Char('a'), modifiers: NONE },
        KeyEvent { code: KeyCode::Enter, modifiers: NONE },
        KeyEvent { code: KeyCode::Char('b'), modifiers: NONE },
        KeyEvent { code: KeyCode::Enter, modifiers: NONE },
        KeyEvent { code: KeyCode::Char('你'), modifiers: NONE },
    ];
    assert_eq!(keys, expect);
    assert!(paste_keys("").is_empty());
}
