use pi_capture::app::Mode;
use pi_capture::input::InputState;
use pi_capture::ui::{
    char_columns, display_time, display_width, history_row_widths, history_rows, history_title,
    input_cursor, input_display_lines, search_summary, secretary_rows, secretary_signature, status_line,
    wrap_text_to_width,
};

fn strings(v: &[&str]) -> Vec<String> {
    v.iter().map(|s| s.to_string()).collect()
}

fn rows(v: &[(bool, &str)]) -> Vec<(bool, String)> {
    v.iter().map(|(b, s)| (*b, s.to_string())).collect()
}

fn buffer(lines: &[&str], cursor_line: usize, cursor_col: usize) -> InputState {
    let mut st = InputState::new();
    st.lines = strings(lines);
    st.cursor_line = cursor_line;
    st.cursor_col = cursor_col;
    st
}

#[test]
fn display_widths() {
    assert_eq!(display_width(""), 0);
    assert_eq!(display_width("abc"), 3);
    assert_eq!(display_width("你好"), 4);
    assert_eq!(display_width("a你"), 3);
    assert_eq!(display_width("é"), 1);
    assert_eq!(display_width("——小墨"), 6);
    assert_eq!(display_width("ｱＡ한"), 5);
    assert_eq!(char_columns('a'), 1);
    assert_eq!(char_columns('墨'), 2);
}

#[test]
fn wrapping_by_display_width() {
    assert_eq!(wrap_text_to_width("abcdef", 4), strings(&["abcd", "ef"]));
    assert_eq!(wrap_text_to_width("abcd", 4), strings(&["abcd"]));
    assert_eq!(wrap_text_to_width("", 5), strings(&[""]));
    assert_eq!(wrap_text_to_width("abc", 0), strings(&["abc"]));
    assert_eq!(wrap_text_to_width("你好世界", 5), strings(&["你好", "世界"]));
    assert_eq!(wrap_text_to_width("a你好", 2), strings(&["a", "你", "好"]));
    assert_eq!(wrap_text_to_width("你", 1), strings(&["你"]));
}

#[test]
fn history_titles() {
    assert_eq!(history_title(false, "", 0, 0), " 历史 ");
    assert_eq!(history_title(false, "ab", 3, 1), " 历史 ");
    assert_eq!(history_title(true, "", 0, 0), " 历史 ");
    assert_eq!(history_title(true, "ab", 3, 1), " 历史 (搜索: ab - 2/3)");
    assert_eq!(history_title(true, "zz", 0, 0), " 历史 (搜索: zz - 0/0)");
    assert_eq!(history_title(true, "q", 12, 11), " 历史 (搜索: q - 12/12)");
}

#[test]
fn status_lines() {
    assert_eq!(status_line(Mode::Collecting, "step-1-8k", false, false, ""), " :q 退出 | :h 帮助 | step-1-8k | 在线 ");
    assert_eq!(status_line(Mode::Collecting, "step-1-8k", false, true, ""), " :q 退出 | :h 帮助 | step-1-8k | 思考中 ");
    assert_eq!(status_line(Mode::Collecting, "m", true, true, ""), " :q 退出 | :h 帮助 | m | 离线 ");
    assert_eq!(status_line(Mode::Command, "m", false, false, ""), " :q 退出 | :h 帮助 | 其他键取消 ");
    assert_eq!(status_line(Mode::Help, "m", false, false, ""), " 帮助 | 按任意键返回 ");
    assert_eq!(
        status_line(Mode::Searching, "m", false, false, "abc"),
        " 搜索: abc | Tab/↑↓ 切换结果 | Enter 确认 | Esc 取消 "
    );
}

#[test]
fn times_shown_in_the_history() {
    assert_eq!(display_time("2026-03-04T16:01:27"), "16:01");
    assert_eq!(display_time("2026-03-04T16:01"), "16:01");
    assert_eq!(display_time("short"), "short");
}

#[test]
fn history_row_widths_leave_room_for_stamp_and_indent() {
    assert_eq!(history_row_widths(20), (11, 12));
    assert_eq!(history_row_widths(9), (0, 1));
    assert_eq!(history_row_widths(5), (0, 0));
    assert_eq!(history_row_widths(0), (0, 0));
}

#[test]
fn history_rows_wrap_each_line() {
    assert_eq!(
        history_rows("hello world", 5, 3),
        rows(&[(true, "hello"), (false, " worl"), (false, "d")])
    );
    assert_eq!(
        history_rows("ab\ncdef", 10, 2),
        rows(&[(true, "ab"), (false, "cd"), (false, "ef")])
    );
    assert_eq!(history_rows("", 10, 2), rows(&[]));
}

#[test]
fn input_box_rows() {
    assert_eq!(input_display_lines(&InputState::new()), strings(&["> "]));
    assert_eq!(input_display_lines(&buffer(&["ab", "cd"], 1, 0)), strings(&["> ab", "  cd"]));
    assert_eq!(input_display_lines(&buffer(&["", "x"], 1, 0)), strings(&["> ", "  x"]));
}

#[test]
fn input_cursor_counts_wrapped_rows() {
    assert_eq!(input_cursor(&InputState::new(), 10), Some((0, 0)));
    let b = buffer(&["abcdef", "xy"], 1, 1);
    assert_eq!(input_cursor(&b, 6), Some((2, 1)));
    assert_eq!(input_cursor(&b, 2), Some((0, 0)));
    let c = buffer(&["你好世界"], 0, 3);
    assert_eq!(input_cursor(&c, 6), Some((1, 2)));
}

#[test]
fn desk_rows() {
    assert_eq!(secretary_rows("a\nb\nc", 2, true), strings(&["a", "b"]));
    assert_eq!(secretary_rows("a", 2, true), strings(&["a", "⏳ 思考中..."]));
    assert_eq!(secretary_rows("a", 2, false), strings(&["a"]));
    assert_eq!(secretary_rows("", 1, true), strings(&["⏳ 思考中..."]));
    assert_eq!(secretary_rows("a", 0, true), strings(&[]));
    assert_eq!(secretary_signature("小墨"), "——小墨");
}

#[test]
fn search_box_summary() {
    assert_eq!(search_summary("ab", 3, 0).as_deref(), Some("结果: 1/3"));
    assert_eq!(search_summary("ab", 0, 0).as_deref(), Some("无匹配结果"));
    assert_eq!(search_summary("", 0, 0), None);
}
