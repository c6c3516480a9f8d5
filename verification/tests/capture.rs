use pi_capture::app::Entry;
use pi_capture::capture::{
    capture_file_content, day_heading_of, entry_date, entry_line_of, layout_capture, month_heading_of,
    year_heading_of, CalendarDate,
};
use pi_capture::clock::parse_rfc3339_date;

fn entry(content: &str, stamp: &str) -> Entry {
    let (timestamp, offset) = stamp.split_at(19);
    Entry { content: content.to_string(), timestamp: timestamp.to_string(), offset: offset.to_string() }
}

fn date(year: i32, month: u32, day: u32, weekday: u32) -> CalendarDate {
    CalendarDate { year, month, day, weekday }
}

const FIRST: &str = "# 2026\n\n## 2026 Mar\n\n### 2026 Mar 04 Wed\n\n- [ ] 第一个想法 [created:: 2026-03-04T16:01:27+08:00]\n";

#[test]
fn headings_of_a_date() {
    let d = date(2026, 3, 4, 2);
    assert_eq!(year_heading_of(&d), "# 2026");
    assert_eq!(month_heading_of(&d), "## 2026 Mar");
    assert_eq!(day_heading_of(&d), "### 2026 Mar 04 Wed");
    let d = date(2026, 12, 27, 6);
    assert_eq!(month_heading_of(&d), "## 2026 Dec");
    assert_eq!(day_heading_of(&d), "### 2026 Dec 27 Sun");
}

#[test]
fn entry_line_is_a_task_with_created_field() {
    assert_eq!(
        entry_line_of("idea", "2026-03-04T16:01:27", "+08:00"),
        "- [ ] idea [created:: 2026-03-04T16:01:27+08:00]\n"
    );
    assert_eq!(
        entry_line_of("two\nlines", "2026-03-04T16:01:27", "+08:00"),
        "- [ ] two lines [created:: 2026-03-04T16:01:27+08:00]\n"
    );
}

#[test]
fn timestamp_gives_the_filing_date() {
    assert_eq!(entry_date("2026-03-04T16:01:27", "+08:00"), date(2026, 3, 4, 2));
    assert_eq!(entry_date("2027-01-02T10:00:00", "+08:00"), date(2027, 1, 2, 5));
    assert_eq!(parse_rfc3339_date("2026-03-04T16:01:27+08:00"), Some(date(2026, 3, 4, 2)));
    assert_eq!(parse_rfc3339_date("not a time"), None);
}

#[test]
fn a_new_file_gets_all_headings() {
    let out = capture_file_content("", &entry("第一个想法", "2026-03-04T16:01:27+08:00"));
    assert_eq!(out, FIRST);
    let blank = capture_file_content("  \n\t\n", &entry("第一个想法", "2026-03-04T16:01:27+08:00"));
    assert_eq!(blank, FIRST);
}

#[test]
fn same_day_ideas_share_the_day_heading() {
    let out = capture_file_content(FIRST, &entry("第二个想法", "2026-03-04T16:02:15+08:00"));
    assert_eq!(
        out,
        format!("{}- [ ] 第二个想法 [created:: 2026-03-04T16:02:15+08:00]\n", FIRST)
    );
}

#[test]
fn a_new_day_goes_under_the_month_heading() {
    let out = capture_file_content(FIRST, &entry("b", "2026-03-05T09:00:00+08:00"));
    assert_eq!(
        out,
        "# 2026\n\n## 2026 Mar\n\n### 2026 Mar 05 Thu\n\n- [ ] b [created:: 2026-03-05T09:00:00+08:00]\n\n\n### 2026 Mar 04 Wed\n\n- [ ] 第一个想法 [created:: 2026-03-04T16:01:27+08:00]\n"
    );
    // Earlier days keep their own items.
    let again = capture_file_content(&out, &entry("c", "2026-03-04T20:00:00+08:00"));
    assert_eq!(again, format!("{}- [ ] c [created:: 2026-03-04T20:00:00+08:00]\n", out));
    let later = capture_file_content(&again, &entry("d", "2026-03-05T21:00:00+08:00"));
    assert_eq!(
        later,
        "# 2026\n\n## 2026 Mar\n\n### 2026 Mar 05 Thu\n\n- [ ] b [created:: 2026-03-05T09:00:00+08:00]\n\n- [ ] d [created:: 2026-03-05T21:00:00+08:00]\n\n### 2026 Mar 04 Wed\n\n- [ ] 第一个想法 [created:: 2026-03-04T16:01:27+08:00]\n- [ ] c [created:: 2026-03-04T20:00:00+08:00]\n"
    );
}

#[test]
fn a_new_month_goes_under_the_year_heading() {
    let out = capture_file_content(FIRST, &entry("e", "2026-04-01T08:00:00+08:00"));
    assert_eq!(
        out,
        "# 2026\n\n## 2026 Apr\n\n### 2026 Apr 01 Wed\n\n- [ ] e [created:: 2026-04-01T08:00:00+08:00]\n\n\n## 2026 Mar\n\n### 2026 Mar 04 Wed\n\n- [ ] 第一个想法 [created:: 2026-03-04T16:01:27+08:00]\n"
    );
}

#[test]
fn a_new_year_goes_at_the_end() {
    let out = capture_file_content(FIRST, &entry("f", "2027-01-02T10:00:00+08:00"));
    assert_eq!(
        out,
        format!(
            "{}\n\n# 2027\n\n## 2027 Jan\n\n### 2027 Jan 02 Sat\n\n- [ ] f [created:: 2027-01-02T10:00:00+08:00]\n",
            FIRST
        )
    );
}

#[test]
fn layout_for_a_given_date() {
    let d = date(2026, 3, 4, 2);
    assert_eq!(
        layout_capture("notes\n", &d, "- [ ] x\n"),
        "notes\n\n\n# 2026\n\n## 2026 Mar\n\n### 2026 Mar 04 Wed\n\n- [ ] x\n"
    );
    // An item of a day whose section ends without a newline gets one first.
    let no_newline = "# 2026\n\n## 2026 Mar\n\n### 2026 Mar 04 Wed\n\n- [ ] a";
    assert_eq!(
        layout_capture(no_newline, &d, "- [ ] b\n"),
        format!("{}\n- [ ] b\n", no_newline)
    );
    // The item goes before the next heading after its day.
    let two_days = "# 2026\n\n## 2026 Mar\n\n### 2026 Mar 04 Wed\n\n- [ ] a\n\n### 2026 Mar 03 Tue\n\n- [ ] z\n";
    assert_eq!(
        layout_capture(two_days, &d, "- [ ] b\n"),
        "# 2026\n\n## 2026 Mar\n\n### 2026 Mar 04 Wed\n\n- [ ] a\n- [ ] b\n\n### 2026 Mar 03 Tue\n\n- [ ] z\n"
    );
}

#[test]
fn created_field_keeps_the_local_offset() {
    let out = capture_file_content("", &entry("早", "2026-03-12T09:00:00+00:00"));
    assert_eq!(
        out,
        "# 2026\n\n## 2026 Mar\n\n### 2026 Mar 12 Thu\n\n- [ ] 早 [created:: 2026-03-12T09:00:00+00:00]\n"
    );
    // The date is read with the entry's own offset.
    assert_eq!(entry_date("2026-03-12T00:30:00", "-05:00"), date(2026, 3, 12, 3));
    assert_eq!(entry_date("2026-03-12T23:30:00", "+09:00"), date(2026, 3, 12, 3));
}
