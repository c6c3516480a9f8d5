use pi_capture::app::{App, Entry, KeyCode, KeyEvent, Mode, CONTROL, NONE, SUPER};
use pi_capture::config::Config;
use pi_capture::highlight::highlight_search_matches;

fn key(code: KeyCode, modifiers: u8) -> KeyEvent {
    KeyEvent { code, modifiers }
}

fn with_history(items: &[&str]) -> App {
    let mut app = App::new(Config::default());
    for s in items {
        app.record_entry(Entry { content: s.to_string(), timestamp: "2026-03-04T16:01:27".to_string(), offset: "+08:00".to_string() });
    }
    app
}

fn type_query(app: &mut App, q: &str) {
    for c in q.chars() {
        app.handle_key_event(key(KeyCode::Char(c), NONE));
    }
}

#[test]
fn search_finds_matches_ignoring_case() {
    let mut app = with_history(&["Hello world", "nothing", "say HELLO", "你好 hello"]);
    app.handle_key_event(key(KeyCode::Char('s'), CONTROL));
    assert_eq!(app.mode, Mode::Searching);
    type_query(&mut app, "hello");
    assert_eq!(app.search_query, "hello");
    assert_eq!(app.search_results, vec![(0, 0), (2, 4), (3, 7)]);
    assert_eq!(app.current_search_idx, 0);
}

#[test]
fn search_results_cycle_both_ways() {
    let mut app = with_history(&["ab", "xab", "b"]);
    app.handle_key_event(key(KeyCode::Char('s'), SUPER));
    type_query(&mut app, "ab");
    assert_eq!(app.search_results.len(), 2);
    app.handle_key_event(key(KeyCode::Tab, NONE));
    assert_eq!(app.current_search_idx, 1);
    app.handle_key_event(key(KeyCode::Down, NONE));
    assert_eq!(app.current_search_idx, 0);
    app.handle_key_event(key(KeyCode::Up, NONE));
    assert_eq!(app.current_search_idx, 1);
    app.handle_key_event(key(KeyCode::Up, NONE));
    assert_eq!(app.current_search_idx, 0);
}

#[test]
fn backspace_shortens_the_query_and_empty_query_finds_nothing() {
    let mut app = with_history(&["ab", "ac"]);
    app.handle_key_event(key(KeyCode::Char('s'), CONTROL));
    type_query(&mut app, "ab");
    assert_eq!(app.search_results, vec![(0, 0)]);
    app.handle_key_event(key(KeyCode::Backspace, NONE));
    assert_eq!(app.search_query, "a");
    assert_eq!(app.search_results, vec![(0, 0), (1, 0)]);
    app.handle_key_event(key(KeyCode::Backspace, NONE));
    assert_eq!(app.search_query, "");
    assert!(app.search_results.is_empty());
    app.handle_key_event(key(KeyCode::Backspace, NONE));
    assert!(app.search_results.is_empty());
}

#[test]
fn escape_and_enter_leave_the_search() {
    let mut app = with_history(&["ab"]);
    app.handle_key_event(key(KeyCode::Char('s'), CONTROL));
    type_query(&mut app, "a");
    app.handle_key_event(key(KeyCode::Esc, NONE));
    assert_eq!(app.mode, Mode::Collecting);
    assert!(app.search_query.is_empty());
    assert!(app.search_results.is_empty());
    app.handle_key_event(key(KeyCode::Char('s'), CONTROL));
    type_query(&mut app, "a");
    app.handle_key_event(key(KeyCode::Enter, NONE));
    assert_eq!(app.mode, Mode::Collecting);
    assert!(app.input.is_empty());
}

#[test]
fn search_typing_does_not_touch_the_input() {
    let mut app = with_history(&["ab"]);
    app.handle_key_event(key(KeyCode::Char('x'), NONE));
    app.handle_key_event(key(KeyCode::Char('s'), CONTROL));
    app.handle_key_event(key(KeyCode::Char('a'), CONTROL));
    assert_eq!(app.search_query, "a");
    assert_eq!(app.input.to_string(), "x");
}

#[test]
fn direct_search_calls() {
    let mut app = with_history(&["Rust", "rusty", "go"]);
    app.start_search();
    app.search_query = "RUST".to_string();
    app.update_search();
    assert_eq!(app.search_results, vec![(0, 0), (1, 0)]);
    app.next_search_result();
    assert_eq!(app.current_search_idx, 1);
    app.prev_search_result();
    app.prev_search_result();
    assert_eq!(app.current_search_idx, 1);
    app.cancel_search();
    assert_eq!(app.mode, Mode::Collecting);
    app.next_search_result();
    assert_eq!(app.current_search_idx, 1);
}

fn pieces(text: &str, query: &str) -> Vec<(bool, String)> {
    highlight_search_matches(text, query).unwrap()
}

#[test]
fn highlight_marks_each_match() {
    assert_eq!(
        pieces("Hello hello", "HELLO"),
        vec![(true, "Hello".to_string()), (false, " ".to_string()), (true, "hello".to_string())]
    );
    assert_eq!(
        pieces("a你好b", "你好"),
        vec![(false, "a".to_string()), (true, "你好".to_string()), (false, "b".to_string())]
    );
}

#[test]
fn highlight_without_query_or_match_is_plain() {
    assert_eq!(pieces("text", ""), vec![(false, "text".to_string())]);
    assert_eq!(pieces("text", "zz"), vec![(false, "text".to_string())]);
    assert_eq!(pieces("", "zz"), vec![(false, "".to_string())]);
}

#[test]
fn highlight_that_would_split_a_character_is_refused() {
    // "İ" lowercases to two characters, so the match offsets in the
    // lowercased row fall inside characters of the row.
    assert!(highlight_search_matches("İab", "ab").is_none());
}

#[test]
fn highlight_pieces_put_together_give_the_row() {
    for (text, query) in [("Hello hello", "LL"), ("aaaa", "aa"), ("x你好y你好", "你好"), ("abc", "abc"), ("mixed Case", "e")] {
        let joined: String = pieces(text, query).into_iter().map(|(_, s)| s).collect();
        assert_eq!(joined, text);
    }
}
