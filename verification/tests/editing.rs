use pi_capture::app::{
    App, KeyCode, KeyEvent, KeyOutcome, Mode, CONTROL, NONE, SHIFT, SUPER,
};
use pi_capture::config::Config;

fn key(code: KeyCode, modifiers: u8) -> KeyEvent {
    KeyEvent { code, modifiers }
}

fn ch(c: char) -> KeyEvent {
    key(KeyCode::Char(c), NONE)
}

fn ctrl(c: char) -> KeyEvent {
    key(KeyCode::Char(c), CONTROL)
}

fn fresh() -> App {
    App::new(Config::default())
}

fn type_text(app: &mut App, s: &str) {
    for c in s.chars() {
        let out = app.handle_key_event(ch(c));
        assert!(matches!(out, KeyOutcome::Continue));
    }
}

fn text(app: &App) -> String {
    app.input.to_string()
}

#[test]
fn new_app_starts_empty_and_collecting() {
    let app = fresh();
    assert_eq!(app.mode, Mode::Collecting);
    assert!(app.input.is_empty());
    assert_eq!(app.input.lines.len(), 1);
    assert_eq!(app.input.cursor_line, 0);
    assert_eq!(app.input.cursor_col, 0);
    assert_eq!(app.history.len(), 0);
    assert_eq!(app.entries_count, 0);
    assert_eq!(app.secretary_content, "🤖 秘书已就绪，开始记录你的想法...");
    assert!(!app.ai_pending);
}

#[test]
fn typing_inserts_at_cursor() {
    let mut app = fresh();
    type_text(&mut app, "abc");
    assert_eq!(text(&app), "abc");
    assert_eq!(app.input.cursor_col, 3);
    app.handle_key_event(ctrl('a'));
    assert_eq!(app.input.cursor_col, 0);
    type_text(&mut app, "x");
    assert_eq!(text(&app), "xabc");
    app.handle_key_event(ctrl('e'));
    assert_eq!(app.input.cursor_col, 4);
}

#[test]
fn shifted_characters_are_typed_and_others_ignored() {
    let mut app = fresh();
    app.handle_key_event(key(KeyCode::Char('A'), SHIFT));
    app.handle_key_event(key(KeyCode::Char('q'), 4));
    assert_eq!(text(&app), "A");
}

#[test]
fn multibyte_characters_are_one_column_of_the_cursor() {
    let mut app = fresh();
    type_text(&mut app, "你好");
    assert_eq!(app.input.cursor_col, 2);
    app.handle_key_event(key(KeyCode::Left, NONE));
    type_text(&mut app, "们");
    assert_eq!(text(&app), "你们好");
}

#[test]
fn shift_enter_and_ctrl_j_break_the_line() {
    let mut app = fresh();
    type_text(&mut app, "abcd");
    app.handle_key_event(key(KeyCode::Left, NONE));
    app.handle_key_event(key(KeyCode::Left, NONE));
    app.handle_key_event(key(KeyCode::Enter, SHIFT));
    assert_eq!(app.input.lines, vec!["ab".to_string(), "cd".to_string()]);
    assert_eq!(app.input.cursor_line, 1);
    assert_eq!(app.input.cursor_col, 0);
    app.handle_key_event(ctrl('j'));
    assert_eq!(app.input.lines, vec!["ab".to_string(), "".to_string(), "cd".to_string()]);
    assert_eq!(text(&app), "ab\n\ncd");
}

#[test]
fn backspace_removes_and_joins() {
    let mut app = fresh();
    type_text(&mut app, "ab");
    app.handle_key_event(key(KeyCode::Enter, SHIFT));
    type_text(&mut app, "c");
    app.handle_key_event(key(KeyCode::Backspace, NONE));
    assert_eq!(text(&app), "ab\n");
    app.handle_key_event(key(KeyCode::Backspace, NONE));
    assert_eq!(text(&app), "ab");
    assert_eq!(app.input.cursor_line, 0);
    assert_eq!(app.input.cursor_col, 2);
    app.handle_key_event(key(KeyCode::Backspace, NONE));
    app.handle_key_event(key(KeyCode::Backspace, NONE));
    app.handle_key_event(key(KeyCode::Backspace, NONE));
    assert!(app.input.is_empty());
}

#[test]
fn delete_and_kill_line() {
    let mut app = fresh();
    type_text(&mut app, "hello");
    app.handle_key_event(ctrl('a'));
    app.handle_key_event(ctrl('d'));
    assert_eq!(text(&app), "ello");
    app.handle_key_event(key(KeyCode::Delete, NONE));
    assert_eq!(text(&app), "llo");
    app.handle_key_event(ctrl('f'));
    app.handle_key_event(ctrl('k'));
    assert_eq!(text(&app), "l");
    app.handle_key_event(key(KeyCode::Enter, SHIFT));
    type_text(&mut app, "next");
    app.handle_key_event(ctrl('p'));
    app.handle_key_event(ctrl('e'));
    app.handle_key_event(ctrl('k'));
    assert_eq!(text(&app), "lnext");
    app.handle_key_event(ctrl('e'));
    app.handle_key_event(ctrl('d'));
    assert_eq!(text(&app), "lnext");
}

#[test]
fn cursor_moves_clamp_to_line_length() {
    let mut app = fresh();
    type_text(&mut app, "long line");
    app.handle_key_event(key(KeyCode::Enter, SHIFT));
    type_text(&mut app, "ab");
    app.handle_key_event(key(KeyCode::Up, NONE));
    assert_eq!(app.input.cursor_line, 0);
    assert_eq!(app.input.cursor_col, 2);
    app.handle_key_event(ctrl('e'));
    app.handle_key_event(ctrl('n'));
    assert_eq!(app.input.cursor_line, 1);
    assert_eq!(app.input.cursor_col, 2);
    app.handle_key_event(key(KeyCode::Right, NONE));
    assert_eq!(app.input.cursor_col, 2);
    app.handle_key_event(ctrl('a'));
    app.handle_key_event(ctrl('b'));
    assert_eq!(app.input.cursor_line, 0);
    assert_eq!(app.input.cursor_col, 9);
    app.handle_key_event(key(KeyCode::Right, NONE));
    assert_eq!(app.input.cursor_line, 1);
    assert_eq!(app.input.cursor_col, 0);
}

#[test]
fn undo_and_redo_edits() {
    let mut app = fresh();
    type_text(&mut app, "ab");
    app.handle_key_event(ctrl('z'));
    assert_eq!(text(&app), "a");
    app.handle_key_event(key(KeyCode::Char('z'), SUPER));
    assert!(app.input.is_empty());
    app.handle_key_event(key(KeyCode::Char('Z'), CONTROL | SHIFT));
    assert_eq!(text(&app), "a");
    app.handle_key_event(key(KeyCode::Char('Z'), SUPER | SHIFT));
    assert_eq!(text(&app), "ab");
    app.handle_key_event(key(KeyCode::Char('Z'), SUPER | SHIFT));
    assert_eq!(text(&app), "ab");
}

#[test]
fn new_edit_drops_redo() {
    let mut app = fresh();
    type_text(&mut app, "ab");
    app.handle_key_event(ctrl('z'));
    type_text(&mut app, "c");
    app.handle_key_event(key(KeyCode::Char('Z'), CONTROL | SHIFT));
    assert_eq!(text(&app), "ac");
}

#[test]
fn undo_keeps_at_most_one_hundred_steps() {
    let mut app = fresh();
    for _ in 0..150 {
        app.handle_key_event(ch('x'));
    }
    for _ in 0..150 {
        app.handle_key_event(ctrl('z'));
    }
    assert_eq!(text(&app).chars().count(), 50);
}

#[test]
fn enter_asks_to_file_a_non_empty_input() {
    let mut app = fresh();
    let out = app.handle_key_event(key(KeyCode::Enter, NONE));
    assert!(matches!(out, KeyOutcome::Continue));
    type_text(&mut app, "idea");
    for mods in [NONE, CONTROL, SUPER] {
        match app.handle_key_event(key(KeyCode::Enter, mods)) {
            KeyOutcome::Submit(e) => assert_eq!(e.content, "idea"),
            _ => panic!("expected a submission"),
        }
        assert_eq!(text(&app), "idea");
    }
}

#[test]
fn recording_an_entry_resets_the_input() {
    let mut app = fresh();
    type_text(&mut app, "first");
    let entry = app.prepare_entry().unwrap();
    assert_eq!(entry.content, "first");
    // `YYYY-MM-DDTHH:MM:SS`, with the offset kept apart as `+HH:MM`.
    let ts = entry.timestamp.as_bytes();
    assert_eq!(ts.len(), 19);
    assert_eq!((ts[4], ts[7], ts[10], ts[13], ts[16]), (b'-', b'-', b'T', b':', b':'));
    let off = entry.offset.as_bytes();
    assert_eq!(off.len(), 6);
    assert!(off[0] == b'+' || off[0] == b'-');
    assert_eq!(off[3], b':');
    app.record_entry(entry);
    assert_eq!(app.history.len(), 1);
    assert_eq!(app.entries_count, 1);
    assert!(app.input.is_empty());
    assert!(app.ai_pending);
    assert_eq!(app.secretary_content, "✅ 已收集第 1 个想法，秘书思考中...");
    app.handle_key_event(ctrl('z'));
    assert!(app.input.is_empty());
    app.update_secretary("也许的确是这样。".to_string());
    assert!(!app.ai_pending);
    assert_eq!(app.secretary_content, "也许的确是这样。");
}

#[test]
fn empty_input_has_nothing_to_file() {
    let app = fresh();
    assert!(app.prepare_entry().is_none());
}

#[test]
fn command_mode_quits_helps_or_cancels() {
    let mut app = fresh();
    app.handle_key_event(ch(':'));
    assert_eq!(app.mode, Mode::Command);
    assert!(matches!(app.handle_key_event(ch('q')), KeyOutcome::Quit));
    let mut app = fresh();
    app.handle_key_event(ch(':'));
    assert!(matches!(app.handle_key_event(ch('Q')), KeyOutcome::Quit));
    let mut app = fresh();
    app.handle_key_event(ch(':'));
    app.handle_key_event(ch('h'));
    assert_eq!(app.mode, Mode::Help);
    app.handle_key_event(key(KeyCode::Esc, NONE));
    assert_eq!(app.mode, Mode::Collecting);
    app.handle_key_event(ch(':'));
    app.handle_key_event(ch('x'));
    assert_eq!(app.mode, Mode::Collecting);
    assert!(app.input.is_empty());
}

#[test]
fn help_mode_leaves_on_any_key() {
    let mut app = fresh();
    app.handle_key_event(ch(':'));
    app.handle_key_event(ch('H'));
    assert_eq!(app.mode, Mode::Help);
    app.handle_key_event(ch('z'));
    assert_eq!(app.mode, Mode::Collecting);
    assert!(app.input.is_empty());
}

#[test]
fn other_keys_do_nothing_while_collecting() {
    let mut app = fresh();
    type_text(&mut app, "a");
    app.handle_key_event(key(KeyCode::Other, NONE));
    app.handle_key_event(key(KeyCode::Tab, NONE));
    app.handle_key_event(key(KeyCode::Esc, NONE));
    assert_eq!(text(&app), "a");
    assert_eq!(app.mode, Mode::Collecting);
}

#[test]
fn current_line_is_the_cursor_line() {
    let mut app = fresh();
    type_text(&mut app, "one");
    app.handle_key_event(key(KeyCode::Enter, SHIFT));
    type_text(&mut app, "two");
    assert_eq!(app.input.current_line(), "two");
    app.input.current_line_mut().push('!');
    assert_eq!(app.input.to_string(), "one\ntwo!");
    app.input.clear();
    assert!(app.input.is_empty());
}

#[test]
fn right_then_left_returns_also_across_a_line_end() {
    let mut app = fresh();
    type_text(&mut app, "ab");
    app.handle_key_event(key(KeyCode::Enter, SHIFT));
    type_text(&mut app, "cd");
    app.handle_key_event(ctrl('p'));
    app.handle_key_event(ctrl('e'));
    assert_eq!((app.input.cursor_line, app.input.cursor_col), (0, 2));
    app.handle_key_event(key(KeyCode::Right, NONE));
    assert_eq!((app.input.cursor_line, app.input.cursor_col), (1, 0));
    app.handle_key_event(key(KeyCode::Left, NONE));
    assert_eq!((app.input.cursor_line, app.input.cursor_col), (0, 2));
}

#[test]
fn pasted_newlines_break_lines_instead_of_entering_them() {
    let mut app = fresh();
    for k in pi_capture::events::paste_keys("a\nb") {
        let k = if k.code == KeyCode::Enter { key(KeyCode::Enter, SHIFT) } else { k };
        app.handle_key_event(k);
    }
    assert_eq!(app.input.lines, vec!["a".to_string(), "b".to_string()]);
    assert!(app.input.lines.iter().all(|l| !l.contains('\n')));
}

#[test]
fn backspace_after_typing_or_breaking_gives_the_input_back() {
    let mut app = fresh();
    type_text(&mut app, "ab");
    app.handle_key_event(key(KeyCode::Left, NONE));
    app.handle_key_event(ch('x'));
    app.handle_key_event(key(KeyCode::Backspace, NONE));
    assert_eq!(app.input.lines, vec!["ab".to_string()]);
    assert_eq!(app.input.cursor_col, 1);
    app.handle_key_event(key(KeyCode::Enter, SHIFT));
    app.handle_key_event(key(KeyCode::Backspace, NONE));
    assert_eq!(app.input.lines, vec!["ab".to_string()]);
    assert_eq!((app.input.cursor_line, app.input.cursor_col), (0, 1));
    assert_eq!(app.mode, Mode::Collecting);
}

#[test]
fn redo_right_after_an_edit_changes_nothing() {
    let mut app = fresh();
    type_text(&mut app, "ab");
    app.handle_key_event(ctrl('z'));
    type_text(&mut app, "c");
    app.save_undo_state();
    app.redo();
    assert_eq!(text(&app), "ac");
    for _ in 0..100 {
        app.undo();
    }
    let before = text(&app);
    app.undo();
    assert_eq!(text(&app), before);
}
