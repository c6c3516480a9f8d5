use pi_capture::text::{char_count, is_whitespace, join_with_newlines, lines_of, to_lowercase};

fn strings(v: &[&str]) -> Vec<String> {
    v.iter().map(|s| s.to_string()).collect()
}

#[test]
fn lines_split_like_str_lines() {
    assert_eq!(lines_of("a\nb"), strings(&["a", "b"]));
    assert_eq!(lines_of("a\r\nb\n"), strings(&["a", "b"]));
    assert_eq!(lines_of("a\n\nb"), strings(&["a", "", "b"]));
    assert_eq!(lines_of(""), strings(&[]));
    assert_eq!(lines_of("\n"), strings(&[""]));
}

#[test]
fn joining_and_counting() {
    assert_eq!(join_with_newlines(&strings(&["a", "", "b"])), "a\n\nb");
    assert_eq!(join_with_newlines(&strings(&[""])), "");
    assert_eq!(char_count("你好a"), 3);
    assert_eq!(to_lowercase("AbC 你"), "abc 你");
}

#[test]
fn whitespace_is_the_unicode_white_space_property() {
    for u in 0u32..0x3100 {
        if let Some(c) = char::from_u32(u) {
            assert_eq!(is_whitespace(c), c.is_whitespace(), "U+{:04X}", u);
        }
    }
    assert!(!is_whitespace('\u{200B}'));
    assert!(!is_whitespace('x'));
}
