//! The Markdown capture file: ideas are kept as task items under a year /
//! month / day heading hierarchy, with a Dataview `created` field.
//!
//! ```text
//! # 2026
//!
//! ## 2026 Mar
//!
//! ### 2026 Mar 04 Wed
//!
//! - [ ] an idea [created:: 2026-03-04T16:01:27+08:00]
//! ```

use vstd::prelude::*;
use crate::app::Entry;
use crate::clock::{local_today, parse_rfc3339_date, rfc3339_date};
use crate::text::{
    blank_chars, chars_of, contains, decimal, find, find_chars_from, find_from, int_text, is_blank,
    lemma_find_from, lemma_occurs_contains, lemma_occurs_in_concat, lemma_rfind_from, matches_at, occurs_at, opt_int, push_chars,
    push_decimal, push_int, rfind, rfind_chars, string_of, unicode_whitespace,
};

verus! {

/// A calendar date: year, month (1-12), day (1-31) and weekday, counted in
/// days from Monday (0-6).
#[derive(Debug, Clone, Copy, PartialEq, Eq, Structural)]
pub struct CalendarDate {
    pub year: i32,
    pub month: u32,
    pub day: u32,
    pub weekday: u32,
}

impl CalendarDate {
    /// Month, day and weekday lie in their ranges.
    pub open spec fn wf(self) -> bool {
        &&& 1 <= self.month <= 12
        &&& 1 <= self.day <= 31
        &&& self.weekday <= 6
    }
}

/// The English three-letter abbreviation of a month (1-12).
pub open spec fn month_abbrev(m: int) -> Seq<char> {
    if m == 1 {
        "Jan"@
    } else if m == 2 {
        "Feb"@
    } else if m == 3 {
        "Mar"@
    } else if m == 4 {
        "Apr"@
    } else if m == 5 {
        "May"@
    } else if m == 6 {
        "Jun"@
    } else if m == 7 {
        "Jul"@
    } else if m == 8 {
        "Aug"@
    } else if m == 9 {
        "Sep"@
    } else if m == 10 {
        "Oct"@
    } else if m == 11 {
        "Nov"@
    } else {
        "Dec"@
    }
}

/// The English three-letter abbreviation of a weekday (0 = Monday).
pub open spec fn weekday_abbrev(w: int) -> Seq<char> {
    if w == 0 {
        "Mon"@
    } else if w == 1 {
        "Tue"@
    } else if w == 2 {
        "Wed"@
    } else if w == 3 {
        "Thu"@
    } else if w == 4 {
        "Fri"@
    } else if w == 5 {
        "Sat"@
    } else {
        "Sun"@
    }
}

/// `# 2026`
pub open spec fn year_heading(d: CalendarDate) -> Seq<char> {
    "# "@ + int_text(d.year as int)
}

/// `## 2026 Mar`
pub open spec fn month_heading(d: CalendarDate) -> Seq<char> {
    "## "@ + int_text(d.year as int) + " "@ + month_abbrev(d.month as int)
}

/// The day of the month in two digits (`04`).
pub open spec fn two_digit_day(day: nat) -> Seq<char> {
    if day < 10 {
        seq!['0'] + decimal(day)
    } else {
        decimal(day)
    }
}

/// `### 2026 Mar 04 Wed`
pub open spec fn day_heading(d: CalendarDate) -> Seq<char> {
    "### "@ + int_text(d.year as int) + " "@ + month_abbrev(d.month as int) + " "@ + two_digit_day(
        d.day as nat,
    ) + " "@ + weekday_abbrev(d.weekday as int)
}

/// The content with every newline turned into a space.
pub open spec fn one_line(s: Seq<char>) -> Seq<char> {
    s.map_values(|c: char| if c == '\n' { ' ' } else { c })
}

/// `- [ ] content [created:: timestamp offset]` and a newline: the local
/// date and time followed by the UTC offset, an ISO 8601 time with its zone.
pub open spec fn entry_line(content: Seq<char>, timestamp: Seq<char>, offset: Seq<char>) -> Seq<char> {
    "- [ ] "@ + one_line(content) + " [created:: "@ + timestamp + offset + "]\n"@
}

/// `h` starts a line of `s` at index `p`: it occurs there, at the start of
/// the text or right after a newline.
pub open spec fn starts_line_at(s: Seq<char>, h: Seq<char>, p: int) -> bool {
    &&& occurs_at(s, h, p)
    &&& (p == 0 || s[p - 1] == '\n')
}

/// The last index `<= i` at which `h` starts a line of `s`.
pub open spec fn last_line_start_from(s: Seq<char>, h: Seq<char>, i: int) -> Option<int>
    decreases i + 1,
{
    if i < 0 {
        None
    } else if starts_line_at(s, h, i) {
        Some(i)
    } else {
        last_line_start_from(s, h, i - 1)
    }
}

/// Where the month heading `m` is taken to stand: its last occurrence at the
/// start of a line, or else its last occurrence anywhere (inside a day
/// heading of that month, which always holds it).
pub open spec fn month_heading_pos(s: Seq<char>, m: Seq<char>) -> int {
    match last_line_start_from(s, m, s.len() - m.len()) {
        Some(p) => p,
        None => match rfind(s, m) {
            Some(p) => p,
            None => 0,
        },
    }
}

/// The index at which the line through `p` ends: the first newline at or
/// after `p`, or the end of the text.
pub open spec fn line_end_from(s: Seq<char>, p: int) -> int {
    match find_from(s, "\n"@, p) {
        Some(q) => q,
        None => s.len() as int,
    }
}

/// Where a new item under the day heading goes: before the first `\n#`
/// after the last day heading, or at the end of the text.
pub open spec fn day_section_end(s: Seq<char>, d: CalendarDate) -> int {
    let after = match rfind(s, day_heading(d)) {
        Some(p) => p + day_heading(d).len(),
        None => 0,
    };
    match find_from(s, "\n#"@, after) {
        Some(q) => q,
        None => s.len() as int,
    }
}

/// The text that files an item line at index `i` of a day's section: the
/// line itself where a newline ends the text before `i`, else a newline and
/// the line.
pub open spec fn day_item(s: Seq<char>, i: int, line: Seq<char>) -> Seq<char> {
    if i > 0 && s[i - 1] == '\n' {
        line
    } else {
        "\n"@ + line
    }
}

/// `s` with `ins` put in at index `i`.
pub open spec fn insert_at(s: Seq<char>, i: int, ins: Seq<char>) -> Seq<char> {
    s.take(i) + ins + s.skip(i)
}

/// The capture file after an item line is filed under date `d`:
/// - a blank file becomes the year, month and day headings and the item;
/// - without the year heading, all three headings and the item go at the end;
/// - without the month heading, the month and day headings and the item go
///   after the line of the first year heading;
/// - without the day heading, the day heading and the item go after the line
///   of the last month heading that starts a line (so that the items of the
///   days already there stay under their own headings);
/// - otherwise the item goes at the end of the last day heading's section,
///   on a line of its own right after the section's last line.
pub open spec fn capture_layout(existing: Seq<char>, d: CalendarDate, line: Seq<char>) -> Seq<char> {
    let y = year_heading(d);
    let m = month_heading(d);
    let dh = day_heading(d);
    let gap = "\n\n"@;
    if is_blank(existing) {
        y + gap + m + gap + dh + gap + line
    } else if !contains(existing, y) {
        existing + gap + y + gap + m + gap + dh + gap + line
    } else if !contains(existing, m) {
        let yp = match find(existing, y) {
            Some(p) => p,
            None => 0,
        };
        insert_at(existing, line_end_from(existing, yp), gap + m + gap + dh + gap + line)
    } else if !contains(existing, dh) {
        insert_at(existing, line_end_from(existing, month_heading_pos(existing, m)), gap + dh + gap + line)
    } else {
        let ip = day_section_end(existing, d);
        insert_at(existing, ip, day_item(existing, ip, line))
    }
}

/// `d` is the date an item is filed under: the date of the item's
/// timestamp read with its offset, where that parses.
pub open spec fn filing_date(timestamp: Seq<char>, offset: Seq<char>, d: CalendarDate) -> bool {
    &&& d.wf()
    &&& rfc3339_date(timestamp + offset) matches Some(p) ==> d == p
}

// ---------------------------------------------------------------------------
// Executable layout
// ---------------------------------------------------------------------------

/// The month's abbreviation.
fn month_name(m: u32) -> (s: &'static str)
    requires
        1 <= m <= 12,
    ensures
        s@ == month_abbrev(m as int),
{
    if m == 1 {
        "Jan"
    } else if m == 2 {
        "Feb"
    } else if m == 3 {
        "Mar"
    } else if m == 4 {
        "Apr"
    } else if m == 5 {
        "May"
    } else if m == 6 {
        "Jun"
    } else if m == 7 {
        "Jul"
    } else if m == 8 {
        "Aug"
    } else if m == 9 {
        "Sep"
    } else if m == 10 {
        "Oct"
    } else if m == 11 {
        "Nov"
    } else {
        "Dec"
    }
}

/// The weekday's abbreviation.
fn weekday_name(w: u32) -> (s: &'static str)
    requires
        w <= 6,
    ensures
        s@ == weekday_abbrev(w as int),
{
    if w == 0 {
        "Mon"
    } else if w == 1 {
        "Tue"
    } else if w == 2 {
        "Wed"
    } else if w == 3 {
        "Thu"
    } else if w == 4 {
        "Fri"
    } else if w == 5 {
        "Sat"
    } else {
        "Sun"
    }
}

/// The year heading of a date.
pub fn year_heading_of(d: &CalendarDate) -> (s: String)
    ensures
        s@ == year_heading(*d),
{
    let mut s = String::from_str("# ");
    push_int(&mut s, d.year as i64);
    s
}

/// The month heading of a date.
pub fn month_heading_of(d: &CalendarDate) -> (s: String)
    requires
        d.wf(),
    ensures
        s@ == month_heading(*d),
{
    let mut s = String::from_str("## ");
    push_int(&mut s, d.year as i64);
    s.append(" ");
    s.append(month_name(d.month));
    s
}

/// The day heading of a date.
pub fn day_heading_of(d: &CalendarDate) -> (s: String)
    requires
        d.wf(),
    ensures
        s@ == day_heading(*d),
{
    let mut s = String::from_str("### ");
    push_int(&mut s, d.year as i64);
    s.append(" ");
    s.append(month_name(d.month));
    s.append(" ");
    if d.day < 10 {
        s.push('0');
        push_decimal(&mut s, d.day as u64);
        assert(s@ =~= "### "@ + int_text(d.year as int) + " "@ + month_abbrev(d.month as int) + " "@
            + two_digit_day(d.day as nat));
    } else {
        push_decimal(&mut s, d.day as u64);
    }
    s.append(" ");
    s.append(weekday_name(d.weekday));
    s
}

/// The item line of an entry.
pub fn entry_line_of(content: &str, timestamp: &str, offset: &str) -> (s: String)
    ensures
        s@ == entry_line(content@, timestamp@, offset@),
{
    let mut s = String::from_str("- [ ] ");
    let cs = chars_of(content);
    let ghost start = s@;
    let mut i: usize = 0;
    while i < cs.len()
        invariant
            i <= cs.len(),
            cs@ == content@,
            s@ == start + one_line(content@).take(i as int),
        decreases cs.len() - i,
    {
        let c = cs[i];
        if c == '\n' {
            s.push(' ');
        } else {
            s.push(c);
        }
        assert(one_line(content@).take(i + 1) == one_line(content@).take(i as int).push(
            one_line(content@)[i as int],
        ));
        i = i + 1;
    }
    assert(one_line(content@).take(cs.len() as int) == one_line(content@));
    s.append(" [created:: ");
    s.append(timestamp);
    s.append(offset);
    s.append("]\n");
    s
}

/// A contained pattern has a last occurrence too.
proof fn lemma_contains_rfind(h: Seq<char>, n: Seq<char>)
    requires
        contains(h, n),
    ensures
        rfind(h, n) is Some,
{
    lemma_find_from(h, n, 0);
    lemma_rfind_from(h, n, h.len() - n.len());
}

/// `last_line_start_from` reports a line start, and no later one up to `i`.
proof fn lemma_last_line_start_from(s: Seq<char>, h: Seq<char>, i: int)
    ensures
        last_line_start_from(s, h, i) matches Some(k) ==> starts_line_at(s, h, k) && k <= i,
    decreases i + 1,
{
    if i >= 0 && !starts_line_at(s, h, i) {
        lemma_last_line_start_from(s, h, i - 1);
    }
}

/// Where a month heading that the text holds is taken to stand lies within
/// the text.
proof fn lemma_month_heading_pos(s: Seq<char>, m: Seq<char>)
    requires
        contains(s, m),
    ensures
        0 <= month_heading_pos(s, m),
        month_heading_pos(s, m) + m.len() <= s.len(),
{
    lemma_last_line_start_from(s, m, s.len() - m.len());
    lemma_contains_rfind(s, m);
    lemma_rfind_from(s, m, s.len() - m.len());
}

/// The last index at which `n` starts a line of `h`.
fn last_line_start(h: &Vec<char>, n: &Vec<char>) -> (r: Option<usize>)
    ensures
        opt_int(r) == last_line_start_from(h@, n@, h@.len() - n@.len()),
{
    if n.len() > h.len() {
        return None;
    }
    let mut i: usize = h.len() - n.len();
    loop
        invariant
            n.len() <= h.len(),
            i + n.len() <= h.len(),
            last_line_start_from(h@, n@, h@.len() - n@.len()) == last_line_start_from(h@, n@, i as int),
        decreases i,
    {
        if matches_at(h, n, i) && (i == 0 || h[i - 1] == '\n') {
            return Some(i);
        }
        if i == 0 {
            assert(last_line_start_from(h@, n@, -1) is None);
            return None;
        }
        i = i - 1;
    }
}

/// Where the month heading is taken to stand (see `month_heading_pos`).
fn month_heading_index(h: &Vec<char>, m: &Vec<char>) -> (r: usize)
    requires
        contains(h@, m@),
    ensures
        r == month_heading_pos(h@, m@),
{
    proof {
        lemma_month_heading_pos(h@, m@);
    }
    match last_line_start(h, m) {
        Some(p) => p,
        None => match rfind_chars(h, m) {
            Some(p) => p,
            None => 0,
        },
    }
}

/// The capture file after filing the item `line` under date `d`.
pub fn layout_capture(existing: &str, d: &CalendarDate, line: &str) -> (r: String)
    requires
        d.wf(),
    ensures
        r@ == capture_layout(existing@, *d, line@),
{
    let ex = chars_of(existing);
    let y = year_heading_of(d);
    let m = month_heading_of(d);
    let dh = day_heading_of(d);
    let yv = chars_of(y.as_str());
    let mv = chars_of(m.as_str());
    let dv = chars_of(dh.as_str());
    let nl = chars_of("\n");
    if blank_chars(&ex) {
        let mut r = y;
        r.append("\n\n");
        r.append(m.as_str());
        r.append("\n\n");
        r.append(dh.as_str());
        r.append("\n\n");
        r.append(line);
        return r;
    }
    let yp = find_chars_from(&ex, &yv, 0);
    if yp.is_none() {
        let mut r = String::from_str(existing);
        r.append("\n\n");
        r.append(y.as_str());
        r.append("\n\n");
        r.append(m.as_str());
        r.append("\n\n");
        r.append(dh.as_str());
        r.append("\n\n");
        r.append(line);
        return r;
    }
    let mfirst = find_chars_from(&ex, &mv, 0);
    if mfirst.is_none() {
        let p = yp.unwrap();
        let ip = match find_chars_from(&ex, &nl, p) {
            Some(q) => q,
            None => ex.len(),
        };
        proof {
            lemma_find_from(ex@, nl@, p as int);
        }
        let mut r = string_of(&ex, 0, ip);
        r.append("\n\n");
        r.append(m.as_str());
        r.append("\n\n");
        r.append(dh.as_str());
        r.append("\n\n");
        r.append(line);
        push_chars(&mut r, &ex, ip, ex.len());
        assert(r@ == insert_at(ex@, ip as int, "\n\n"@ + m@ + "\n\n"@ + dh@ + "\n\n"@ + line@));
        return r;
    }
    let dfirst = find_chars_from(&ex, &dv, 0);
    if dfirst.is_none() {
        proof {
            lemma_find_from(ex@, mv@, 0);
            lemma_month_heading_pos(ex@, mv@);
        }
        let p = month_heading_index(&ex, &mv);
        let ip = match find_chars_from(&ex, &nl, p) {
            Some(q) => q,
            None => ex.len(),
        };
        proof {
            lemma_find_from(ex@, nl@, p as int);
        }
        let mut r = string_of(&ex, 0, ip);
        r.append("\n\n");
        r.append(dh.as_str());
        r.append("\n\n");
        r.append(line);
        push_chars(&mut r, &ex, ip, ex.len());
        assert(r@ == insert_at(ex@, ip as int, "\n\n"@ + dh@ + "\n\n"@ + line@));
        return r;
    }
    proof {
        lemma_contains_rfind(ex@, dv@);
        lemma_rfind_from(ex@, dv@, ex@.len() - dv@.len());
    }
    let p = rfind_chars(&ex, &dv).unwrap();
    let after = p + dv.len();
    let hash = chars_of("\n#");
    let ip = match find_chars_from(&ex, &hash, after) {
        Some(q) => q,
        None => ex.len(),
    };
    proof {
        lemma_find_from(ex@, hash@, after as int);
    }
    let mut r = string_of(&ex, 0, ip);
    if !(ip > 0 && ex[ip - 1] == '\n') {
        r.push('\n');
    }
    r.append(line);
    push_chars(&mut r, &ex, ip, ex.len());
    proof {
        reveal_strlit("\n");
        assert(ex@.subrange(0, ip as int) == ex@.take(ip as int));
        assert(ex@.subrange(ip as int, ex@.len() as int) == ex@.skip(ip as int));
        assert(r@ =~= insert_at(ex@, ip as int, day_item(ex@, ip as int, line@)));
    }
    r
}

/// The date an entry is filed under: the date of its timestamp read with
/// its offset, or today's local date where that does not parse.
pub fn entry_date(timestamp: &str, offset: &str) -> (d: CalendarDate)
    ensures
        filing_date(timestamp@, offset@, d),
{
    let mut stamp = String::from_str(timestamp);
    stamp.append(offset);
    match parse_rfc3339_date(stamp.as_str()) {
        Some(d) => d,
        None => local_today(),
    }
}

/// The new text of the capture file once `entry` is filed in it; `existing`
/// is the file's current text, empty where there is no file yet.
pub fn capture_file_content(existing: &str, entry: &Entry) -> (r: String)
    ensures
        exists|d: CalendarDate|
            filing_date(entry.timestamp@, entry.offset@, d) && r@ == capture_layout(
                existing@,
                d,
                entry_line(entry.content@, entry.timestamp@, entry.offset@),
            ),
{
    let d = entry_date(entry.timestamp.as_str(), entry.offset.as_str());
    let line = entry_line_of(entry.content.as_str(), entry.timestamp.as_str(), entry.offset.as_str());
    layout_capture(existing, &d, line.as_str())
}

// ---------------------------------------------------------------------------
// Laws of the layout
// ---------------------------------------------------------------------------

/// `s` holds no newline.
pub open spec fn single_line(s: Seq<char>) -> bool {
    forall|i: int| 0 <= i < s.len() ==> s[i] != '\n'
}

/// Decimal numbers are digits only.
proof fn lemma_decimal_single_line(n: nat)
    ensures
        single_line(decimal(n)),
        decimal(n).len() >= 1,
    decreases n,
{
    if n >= 10 {
        lemma_decimal_single_line(n / 10);
    }
}

/// The three headings of a date hold no newline and are not empty.
proof fn lemma_headings_single_line(d: CalendarDate)
    requires
        d.wf(),
    ensures
        single_line(year_heading(d)),
        single_line(month_heading(d)),
        single_line(day_heading(d)),
        year_heading(d).len() > 0,
        month_heading(d).len() > 0,
        day_heading(d).len() > 0,
        year_heading(d)[0] == '#',
{
    reveal_strlit("# ");
    reveal_strlit("## ");
    reveal_strlit("### ");
    reveal_strlit(" ");
    reveal_strlit("-");
    reveal_strlit("Jan");
    reveal_strlit("Feb");
    reveal_strlit("Mar");
    reveal_strlit("Apr");
    reveal_strlit("May");
    reveal_strlit("Jun");
    reveal_strlit("Jul");
    reveal_strlit("Aug");
    reveal_strlit("Sep");
    reveal_strlit("Oct");
    reveal_strlit("Nov");
    reveal_strlit("Dec");
    reveal_strlit("Mon");
    reveal_strlit("Tue");
    reveal_strlit("Wed");
    reveal_strlit("Thu");
    reveal_strlit("Fri");
    reveal_strlit("Sat");
    reveal_strlit("Sun");
    let y = d.year as int;
    lemma_decimal_single_line(d.day as nat);
    assert(single_line(two_digit_day(d.day as nat)));
    if y < 0 {
        lemma_decimal_single_line((-y) as nat);
    } else {
        lemma_decimal_single_line(y as nat);
    }
    assert(single_line(int_text(y)));
    assert(single_line(month_abbrev(d.month as int)));
    assert(single_line(weekday_abbrev(d.weekday as int)));
    assert(single_line(year_heading(d)));
    assert(single_line(month_heading(d)));
    assert(single_line(day_heading(d)));
}

/// Inserting at a newline (or at the end) keeps every occurrence of a
/// single-line pattern.
proof fn lemma_insert_keeps(s: Seq<char>, i: int, ins: Seq<char>, p: Seq<char>)
    requires
        0 <= i <= s.len(),
        i == s.len() || s[i] == '\n',
        contains(s, p),
        single_line(p),
        p.len() > 0,
    ensures
        contains(insert_at(s, i, ins), p),
{
    lemma_find_from(s, p, 0);
    let k = find(s, p)->0;
    let r = insert_at(s, i, ins);
    if k + p.len() <= i {
        assert(r.subrange(k, k + p.len()) =~= s.subrange(k, k + p.len()));
        lemma_occurs_contains(r, p, k);
    } else {
        if k <= i {
            assert(s.subrange(k, k + p.len())[i - k] == s[i]);
            assert(false);
        }
        assert(r.subrange(k + ins.len(), k + ins.len() + p.len()) =~= s.subrange(k, k + p.len()));
        lemma_occurs_contains(r, p, k + ins.len());
    }
}

/// The end of the line through `p` is a newline or the end of the text.
proof fn lemma_line_end(s: Seq<char>, p: int)
    requires
        0 <= p <= s.len(),
    ensures
        p <= line_end_from(s, p) <= s.len(),
        line_end_from(s, p) == s.len() || s[line_end_from(s, p)] == '\n',
{
    reveal_strlit("\n");
    lemma_find_from(s, "\n"@, p);
    if let Some(q) = find_from(s, "\n"@, p) {
        assert(s.subrange(q, q + 1)[0] == s[q]);
    }
}

/// The end of the day's section is a newline or the end of the text, past
/// the last day heading.
proof fn lemma_day_section_end(s: Seq<char>, d: CalendarDate)
    requires
        contains(s, day_heading(d)),
    ensures
        0 <= day_section_end(s, d) <= s.len(),
        day_section_end(s, d) == s.len() || s[day_section_end(s, d)] == '\n',
{
    reveal_strlit("\n#");
    let dh = day_heading(d);
    lemma_contains_rfind(s, dh);
    lemma_rfind_from(s, dh, s.len() - dh.len());
    let after = rfind(s, dh)->0 + dh.len();
    lemma_find_from(s, "\n#"@, after);
    if let Some(q) = find_from(s, "\n#"@, after) {
        assert(s.subrange(q, q + 2)[0] == s[q]);
    }
}

/// All four pieces are in `r`.
pub open spec fn holds_all(r: Seq<char>, d: CalendarDate, line: Seq<char>) -> bool {
    &&& contains(r, line)
    &&& contains(r, year_heading(d))
    &&& contains(r, month_heading(d))
    &&& contains(r, day_heading(d))
}

/// The headings and the line, each after a gap, hold all four pieces.
proof fn lemma_fresh_block(pre: Seq<char>, d: CalendarDate, line: Seq<char>)
    ensures
        holds_all(
            pre + year_heading(d) + "\n\n"@ + month_heading(d) + "\n\n"@ + day_heading(d) + "\n\n"@
                + line,
            d,
            line,
        ),
{
    let y = year_heading(d);
    let m = month_heading(d);
    let dh = day_heading(d);
    let gap = "\n\n"@;
    let r = pre + y + gap + m + gap + dh + gap + line;
    lemma_occurs_in_concat(pre, y, gap + m + gap + dh + gap + line);
    assert(pre + y + (gap + m + gap + dh + gap + line) =~= r);
    lemma_occurs_in_concat(pre + y + gap, m, gap + dh + gap + line);
    assert((pre + y + gap) + m + (gap + dh + gap + line) =~= r);
    lemma_occurs_in_concat(pre + y + gap + m + gap, dh, gap + line);
    assert((pre + y + gap + m + gap) + dh + (gap + line) =~= r);
    lemma_occurs_in_concat(pre + y + gap + m + gap + dh + gap, line, Seq::empty());
    assert((pre + y + gap + m + gap + dh + gap) + line + Seq::<char>::empty() =~= r);
}

/// Filing when the month heading is missing.
proof fn lemma_filed_new_month(existing: Seq<char>, d: CalendarDate, line: Seq<char>)
    requires
        d.wf(),
        !is_blank(existing),
        contains(existing, year_heading(d)),
        !contains(existing, month_heading(d)),
    ensures
        holds_all(capture_layout(existing, d, line), d, line),
{
    lemma_headings_single_line(d);
    let y = year_heading(d);
    let m = month_heading(d);
    let dh = day_heading(d);
    let gap = "\n\n"@;
    let r = capture_layout(existing, d, line);
    lemma_find_from(existing, y, 0);
    let yp = find(existing, y)->0;
    let ip = line_end_from(existing, yp);
    lemma_line_end(existing, yp);
    let ins = gap + m + gap + dh + gap + line;
    let pre = existing.take(ip);
    let post = existing.skip(ip);
    assert(r == insert_at(existing, ip, ins));
    lemma_insert_keeps(existing, ip, ins, y);
    lemma_occurs_in_concat(pre + gap, m, gap + dh + gap + line + post);
    assert((pre + gap) + m + (gap + dh + gap + line + post) =~= r);
    lemma_occurs_in_concat(pre + gap + m + gap, dh, gap + line + post);
    assert((pre + gap + m + gap) + dh + (gap + line + post) =~= r);
    lemma_occurs_in_concat(pre + gap + m + gap + dh + gap, line, post);
    assert((pre + gap + m + gap + dh + gap) + line + post =~= r);
}

/// Filing when the day heading is missing.
proof fn lemma_filed_new_day(existing: Seq<char>, d: CalendarDate, line: Seq<char>)
    requires
        d.wf(),
        !is_blank(existing),
        contains(existing, year_heading(d)),
        contains(existing, month_heading(d)),
        !contains(existing, day_heading(d)),
    ensures
        holds_all(capture_layout(existing, d, line), d, line),
{
    lemma_headings_single_line(d);
    let y = year_heading(d);
    let m = month_heading(d);
    let dh = day_heading(d);
    let gap = "\n\n"@;
    let r = capture_layout(existing, d, line);
    lemma_month_heading_pos(existing, m);
    let mp = month_heading_pos(existing, m);
    let ip = line_end_from(existing, mp);
    lemma_line_end(existing, mp);
    let ins = gap + dh + gap + line;
    let pre = existing.take(ip);
    let post = existing.skip(ip);
    assert(r == insert_at(existing, ip, ins));
    lemma_insert_keeps(existing, ip, ins, y);
    lemma_insert_keeps(existing, ip, ins, m);
    lemma_occurs_in_concat(pre + gap, dh, gap + line + post);
    assert((pre + gap) + dh + (gap + line + post) =~= r);
    lemma_occurs_in_concat(pre + gap + dh + gap, line, post);
    assert((pre + gap + dh + gap) + line + post =~= r);
}

/// Filing when all three headings are there.
proof fn lemma_filed_same_day(existing: Seq<char>, d: CalendarDate, line: Seq<char>)
    requires
        d.wf(),
        !is_blank(existing),
        contains(existing, year_heading(d)),
        contains(existing, month_heading(d)),
        contains(existing, day_heading(d)),
    ensures
        holds_all(capture_layout(existing, d, line), d, line),
{
    lemma_headings_single_line(d);
    let r = capture_layout(existing, d, line);
    let ip = day_section_end(existing, d);
    lemma_day_section_end(existing, d);
    let ins = day_item(existing, ip, line);
    let pre = existing.take(ip);
    let post = existing.skip(ip);
    assert(r == insert_at(existing, ip, ins));
    lemma_insert_keeps(existing, ip, ins, year_heading(d));
    lemma_insert_keeps(existing, ip, ins, month_heading(d));
    lemma_insert_keeps(existing, ip, ins, day_heading(d));
    if ip > 0 && existing[ip - 1] == '\n' {
        lemma_occurs_in_concat(pre, line, post);
        assert(pre + line + post =~= r);
    } else {
        lemma_occurs_in_concat(pre + "\n"@, line, post);
        assert((pre + "\n"@) + line + post =~= r);
    }
}

/// After filing an item, the capture file holds the item's line and the
/// year, month and day headings of its date.
pub proof fn law_filed_under_headings(existing: Seq<char>, d: CalendarDate, line: Seq<char>)
    requires
        d.wf(),
    ensures
        contains(capture_layout(existing, d, line), line),
        contains(capture_layout(existing, d, line), year_heading(d)),
        contains(capture_layout(existing, d, line), month_heading(d)),
        contains(capture_layout(existing, d, line), day_heading(d)),
{
    let r = capture_layout(existing, d, line);
    if is_blank(existing) {
        lemma_fresh_block(Seq::empty(), d, line);
        assert(Seq::<char>::empty() + year_heading(d) =~= year_heading(d));
    } else if !contains(existing, year_heading(d)) {
        lemma_fresh_block(existing + "\n\n"@, d, line);
    } else if !contains(existing, month_heading(d)) {
        lemma_filed_new_month(existing, d, line);
    } else if !contains(existing, day_heading(d)) {
        lemma_filed_new_day(existing, d, line);
    } else {
        lemma_filed_same_day(existing, d, line);
    }
}

/// Filing never loses what the file held: the new text is the old one with
/// one piece put in at one place (at the end when no year heading matches).
pub proof fn law_filing_keeps_existing(existing: Seq<char>, d: CalendarDate, line: Seq<char>)
    requires
        d.wf(),
        !is_blank(existing),
    ensures
        exists|i: int, ins: Seq<char>|
            0 <= i <= existing.len() && capture_layout(existing, d, line) == insert_at(
                existing,
                i,
                ins,
            ),
{
    let y = year_heading(d);
    let m = month_heading(d);
    let dh = day_heading(d);
    let gap = "\n\n"@;
    let r = capture_layout(existing, d, line);
    if !contains(existing, y) {
        let ins = gap + y + gap + m + gap + dh + gap + line;
        assert(r =~= insert_at(existing, existing.len() as int, ins));
    } else if !contains(existing, m) {
        lemma_find_from(existing, y, 0);
        lemma_line_end(existing, find(existing, y)->0);
    } else if !contains(existing, dh) {
        lemma_month_heading_pos(existing, m);
        lemma_line_end(existing, month_heading_pos(existing, m));
    } else {
        lemma_day_section_end(existing, d);
    }
}

/// Ideas of the same day share one day heading: once an item is filed under
/// a date, filing another under that date only puts its line at the end of
/// that day's section (with a newline before it where none ends the text
/// before).
pub proof fn law_same_day_shares_heading(
    existing: Seq<char>,
    d: CalendarDate,
    first: Seq<char>,
    second: Seq<char>,
)
    requires
        d.wf(),
    ensures
        ({
            let once = capture_layout(existing, d, first);
            capture_layout(once, d, second) == insert_at(
                once,
                day_section_end(once, d),
                day_item(once, day_section_end(once, d), second),
            )
        }),
{
    let once = capture_layout(existing, d, first);
    law_filed_under_headings(existing, d, first);
    lemma_headings_single_line(d);
    let y = year_heading(d);
    lemma_find_from(once, y, 0);
    let k = find(once, y)->0;
    assert(once.subrange(k, k + y.len())[0] == once[k]);
    assert(!unicode_whitespace(once[k]));
    assert(!is_blank(once));
}

/// No heading line starts in `s` from index `a` up to `b`: there is no
/// newline followed by `#` there.
pub open spec fn no_heading_between(s: Seq<char>, a: int, b: int) -> bool {
    forall|j: int| a <= j < b ==> !occurs_at(s, "\n#"@, j)
}

/// An item line put right after a day heading and a blank line sits under
/// that heading.
proof fn lemma_item_after_heading(pre: Seq<char>, dh: Seq<char>, line: Seq<char>, post: Seq<char>)
    requires
        line.len() > 0,
        line[0] == '-',
    ensures
        ({
            let r = pre + dh + "\n\n"@ + line + post;
            let q = (pre.len() + dh.len() + 2) as int;
            &&& occurs_at(r, dh, pre.len() as int)
            &&& occurs_at(r, line, q)
            &&& no_heading_between(r, (pre.len() + dh.len()) as int, q)
        }),
{
    reveal_strlit("\n\n");
    reveal_strlit("\n#");
    let r = pre + dh + "\n\n"@ + line + post;
    let a = (pre.len() + dh.len()) as int;
    let q = a + 2;
    lemma_occurs_in_concat(pre, dh, "\n\n"@ + line + post);
    assert(pre + dh + ("\n\n"@ + line + post) =~= r);
    lemma_occurs_in_concat(pre + dh + "\n\n"@, line, post);
    assert forall|j: int| a <= j < q implies !occurs_at(r, "\n#"@, j) by {
        if occurs_at(r, "\n#"@, j) {
            assert(r.subrange(j, j + 2)[1] == r[j + 1]);
            assert(r[a + 1] == '\n');
            assert(r[q] == line[0]);
        }
    }
}

/// The item line of an entry begins with the task's dash.
proof fn lemma_entry_line_dash(content: Seq<char>, timestamp: Seq<char>, offset: Seq<char>)
    ensures
        entry_line(content, timestamp, offset).len() > 0,
        entry_line(content, timestamp, offset)[0] == '-',
{
    reveal_strlit("- [ ] ");
}

/// The line `line` sits under the heading `dh` in `r`: it follows an
/// occurrence of the heading with no heading line between the two.
pub open spec fn under_heading(r: Seq<char>, dh: Seq<char>, line: Seq<char>) -> bool {
    exists|p: int, q: int|
        #![trigger occurs_at(r, dh, p), occurs_at(r, line, q)]
        occurs_at(r, dh, p) && p + dh.len() <= q && occurs_at(r, line, q) && no_heading_between(
            r,
            p + dh.len(),
            q,
        )
}

/// The item follows a fresh day heading block.
proof fn lemma_under_fresh(r: Seq<char>, pre: Seq<char>, dh: Seq<char>, line: Seq<char>, post: Seq<char>)
    requires
        line.len() > 0,
        line[0] == '-',
        r == pre + dh + "\n\n"@ + line + post,
    ensures
        under_heading(r, dh, line),
{
    lemma_item_after_heading(pre, dh, line, post);
    let p = pre.len() as int;
    let q = (pre.len() + dh.len() + 2) as int;
    assert(occurs_at(r, dh, p) && occurs_at(r, line, q));
}

/// Filing under a day heading already there keeps the item in its section.
proof fn lemma_under_same_day(existing: Seq<char>, d: CalendarDate, line: Seq<char>)
    requires
        d.wf(),
        line.len() > 0,
        line[0] == '-',
        contains(existing, day_heading(d)),
    ensures
        under_heading(insert_at(existing, day_section_end(existing, d), day_item(existing, day_section_end(existing, d), line)), day_heading(d), line),
{
    reveal_strlit("\n#");
    reveal_strlit("\n");
    let dh = day_heading(d);
    lemma_day_section_end(existing, d);
    lemma_contains_rfind(existing, dh);
    lemma_rfind_from(existing, dh, existing.len() - dh.len());
    let k = rfind(existing, dh)->0;
    let after = k + dh.len();
    lemma_find_from(existing, "\n#"@, after);
    let ip = day_section_end(existing, d);
    let ins = day_item(existing, ip, line);
    let pre = existing.take(ip);
    let post = existing.skip(ip);
    let r = insert_at(existing, ip, ins);
    let q = if ins.len() > line.len() { ip + 1 } else { ip };
    assert(ins.len() > line.len() ==> ins =~= "\n"@ + line);
    assert(ins.len() <= line.len() ==> ins =~= line);
    assert(r.subrange(k, k + dh.len()) =~= existing.subrange(k, k + dh.len()));
    assert(r.subrange(q, q + line.len()) =~= line);
    assert(r =~= pre + ins + post);
    assert(ins[0] != '#');
    assert(ins.len() > line.len() ==> ins[1] == line[0]);
    assert forall|j: int| after <= j < q implies !occurs_at(r, "\n#"@, j) by {
        if occurs_at(r, "\n#"@, j) {
            assert(r.subrange(j, j + 2)[0] == r[j]);
            assert(r.subrange(j, j + 2)[1] == r[j + 1]);
            if j + 2 <= ip {
                assert(existing.subrange(j, j + 2) =~= r.subrange(j, j + 2));
                assert(!occurs_at(existing, "\n#"@, j));
            } else if j + 1 == ip {
                assert(r[ip] == ins[0]);
            } else {
                assert(j == ip);
                assert(r[ip + 1] == ins[1]);
            }
        }
    }
    assert(occurs_at(r, dh, k) && occurs_at(r, line, q));
}

/// Ideas go under their own day heading: after an entry is filed, its line
/// follows an occurrence of its day heading with no heading line between
/// the two.
pub proof fn law_item_under_its_day(
    existing: Seq<char>,
    d: CalendarDate,
    content: Seq<char>,
    timestamp: Seq<char>,
    offset: Seq<char>,
)
    requires
        d.wf(),
    ensures
        under_heading(
            capture_layout(existing, d, entry_line(content, timestamp, offset)),
            day_heading(d),
            entry_line(content, timestamp, offset),
        ),
{
    let line = entry_line(content, timestamp, offset);
    lemma_entry_line_dash(content, timestamp, offset);
    let y = year_heading(d);
    let m = month_heading(d);
    let dh = day_heading(d);
    let gap = "\n\n"@;
    let r = capture_layout(existing, d, line);
    if is_blank(existing) {
        let pre = y + gap + m + gap;
        assert(pre + dh + gap + line + Seq::<char>::empty() =~= r);
        lemma_under_fresh(r, pre, dh, line, Seq::empty());
    } else if !contains(existing, y) {
        let pre = existing + gap + y + gap + m + gap;
        assert(pre + dh + gap + line + Seq::<char>::empty() =~= r);
        lemma_under_fresh(r, pre, dh, line, Seq::empty());
    } else if !contains(existing, m) {
        lemma_find_from(existing, y, 0);
        let yp = find(existing, y)->0;
        let ip = line_end_from(existing, yp);
        lemma_line_end(existing, yp);
        let pre = existing.take(ip) + gap + m + gap;
        let post = existing.skip(ip);
        assert(pre + dh + gap + line + post =~= r);
        lemma_under_fresh(r, pre, dh, line, post);
    } else if !contains(existing, dh) {
        lemma_month_heading_pos(existing, m);
        let ip = line_end_from(existing, month_heading_pos(existing, m));
        lemma_line_end(existing, month_heading_pos(existing, m));
        let pre = existing.take(ip) + gap;
        let post = existing.skip(ip);
        assert(pre + dh + gap + line + post =~= r);
        lemma_under_fresh(r, pre, dh, line, post);
    } else {
        lemma_under_same_day(existing, d, line);
    }
}

/// The twelve English month abbreviations, January first.
pub open spec fn english_months() -> Seq<Seq<char>> {
    seq!["Jan"@, "Feb"@, "Mar"@, "Apr"@, "May"@, "Jun"@, "Jul"@, "Aug"@, "Sep"@, "Oct"@, "Nov"@, "Dec"@]
}

/// Each month is named by its own English abbreviation, and months 1 to 12
/// all get different ones: dates of different months never share a month
/// heading.
pub proof fn law_month_names(d1: CalendarDate, d2: CalendarDate)
    requires
        d1.wf(),
        d2.wf(),
    ensures
        month_abbrev(d1.month as int) == english_months()[d1.month - 1],
        d1.month != d2.month ==> month_abbrev(d1.month as int) != month_abbrev(d2.month as int),
        d1.month != d2.month ==> month_heading(d1) != month_heading(d2),
{
    reveal_strlit("Jan");
    reveal_strlit("Feb");
    reveal_strlit("Mar");
    reveal_strlit("Apr");
    reveal_strlit("May");
    reveal_strlit("Jun");
    reveal_strlit("Jul");
    reveal_strlit("Aug");
    reveal_strlit("Sep");
    reveal_strlit("Oct");
    reveal_strlit("Nov");
    reveal_strlit("Dec");
    reveal_strlit("## ");
    reveal_strlit(" ");
    let a1 = month_abbrev(d1.month as int);
    let a2 = month_abbrev(d2.month as int);
    assert(a1.len() == 3 && a2.len() == 3);
    if d1.month != d2.month {
        assert(a1[0] != a2[0] || a1[1] != a2[1] || a2[2] != a1[2]);
    }
    let h1 = month_heading(d1);
    let h2 = month_heading(d2);
    if d1.month != d2.month && h1 == h2 {
        // The abbreviation is the last three characters of the heading.
        assert(h1.subrange(h1.len() - 3, h1.len() as int) =~= a1);
        assert(h2.subrange(h2.len() - 3, h2.len() as int) =~= a2);
    }
}

} // verus!
