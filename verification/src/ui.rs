//! The text that the three boxes and the status bar show: display widths
//! (CJK characters take two columns), line wrapping, the history title and
//! rows, the status line and the input cursor's place.

use vstd::prelude::*;
use crate::app::Mode;
use crate::input::{EditorView, InputState};
use crate::text::{byte_len, char_count, chars_of, decimal, lines_of, push_decimal, text_lines, views};

verus! {

// ---------------------------------------------------------------------------
// Display width
// ---------------------------------------------------------------------------

/// A CJK (East Asian wide or fullwidth) character: Hangul Jamo, the CJK
/// radicals, symbols and punctuation, kana, bopomofo, the CJK unified and
/// compatibility ideographs, Yi, Hangul syllables, the vertical and small
/// form variants, the fullwidth forms, and the ideographs of the second and
/// third planes.
pub open spec fn is_wide(c: char) -> bool {
    let u = c as u32;
    ||| 0x1100 <= u <= 0x115F
    ||| 0x2E80 <= u <= 0x303E
    ||| 0x3041 <= u <= 0x33FF
    ||| 0x3400 <= u <= 0x4DBF
    ||| 0x4E00 <= u <= 0x9FFF
    ||| 0xA000 <= u <= 0xA4CF
    ||| 0xAC00 <= u <= 0xD7A3
    ||| 0xF900 <= u <= 0xFAFF
    ||| 0xFE10 <= u <= 0xFE19
    ||| 0xFE30 <= u <= 0xFE6F
    ||| 0xFF00 <= u <= 0xFF60
    ||| 0xFFE0 <= u <= 0xFFE6
    ||| 0x20000 <= u <= 0x2FFFD
    ||| 0x30000 <= u <= 0x3FFFD
}

/// The columns a character takes: two for a CJK character, one for any
/// other.
pub open spec fn char_width(c: char) -> nat {
    if is_wide(c) {
        2
    } else {
        1
    }
}

/// The columns a text takes.
pub open spec fn text_width(s: Seq<char>) -> nat
    decreases s.len(),
{
    if s.len() == 0 {
        0
    } else {
        text_width(s.drop_last()) + char_width(s.last())
    }
}

/// The columns of one character.
pub fn char_columns(c: char) -> (w: usize)
    ensures
        w == char_width(c),
{
    let u = c as u32;
    if (0x1100 <= u && u <= 0x115F) || (0x2E80 <= u && u <= 0x303E) || (0x3041 <= u && u <= 0x33FF)
        || (0x3400 <= u && u <= 0x4DBF) || (0x4E00 <= u && u <= 0x9FFF) || (0xA000 <= u && u <= 0xA4CF)
        || (0xAC00 <= u && u <= 0xD7A3) || (0xF900 <= u && u <= 0xFAFF) || (0xFE10 <= u && u <= 0xFE19)
        || (0xFE30 <= u && u <= 0xFE6F) || (0xFF00 <= u && u <= 0xFF60) || (0xFFE0 <= u && u <= 0xFFE6)
        || (0x20000 <= u && u <= 0x2FFFD) || (0x30000 <= u && u <= 0x3FFFD) {
        2
    } else {
        1
    }
}

/// A text is at most twice as wide as it is long.
pub proof fn lemma_text_width_bound(s: Seq<char>)
    ensures
        text_width(s) <= 2 * s.len(),
    decreases s.len(),
{
    if s.len() > 0 {
        lemma_text_width_bound(s.drop_last());
    }
}

/// The columns that `s` takes.
pub fn display_width(s: &str) -> (w: usize)
    ensures
        w == text_width(s@),
{
    let n = char_count(s);
    let v = chars_of(s);
    let mut w: usize = 0;
    let mut i: usize = 0;
    while i < n
        invariant
            n == v.len() <= isize::MAX,
            v@ == s@,
            i <= n,
            w == text_width(v@.take(i as int)),
            w <= 2 * i,
        decreases n - i,
    {
        assert(v@.take(i + 1).drop_last() == v@.take(i as int));
        w = w + char_columns(v[i]);
        i = i + 1;
    }
    assert(v@.take(n as int) == v@);
    w
}

// ---------------------------------------------------------------------------
// Wrapping
// ---------------------------------------------------------------------------

/// The wrapping state: finished lines, the line being filled, its width.
pub type WrapState = (Seq<Seq<char>>, Seq<char>, nat);

/// One character into the wrapping state: when it does not fit and the
/// current line is not empty, the line is finished and the character starts
/// a new one.
pub open spec fn wrap_step(st: WrapState, c: char, max: nat) -> WrapState {
    if st.2 + char_width(c) > max && st.1.len() > 0 {
        (st.0.push(st.1), seq![c], char_width(c))
    } else {
        (st.0, st.1.push(c), st.2 + char_width(c))
    }
}

/// The wrapping state after the first `n` characters of `s`.
pub open spec fn wrap_state(s: Seq<char>, max: nat, n: nat) -> WrapState
    decreases n,
{
    if n == 0 {
        (Seq::empty(), Seq::empty(), 0)
    } else {
        wrap_step(wrap_state(s, max, (n - 1) as nat), s[n - 1], max)
    }
}

/// `s` broken into lines of at most `max` columns, greedily; a character
/// wider than `max` gets a line of its own. A zero width or an empty text
/// gives the text as the single line.
pub open spec fn wrapped(s: Seq<char>, max: nat) -> Seq<Seq<char>> {
    if max == 0 || s.len() == 0 {
        seq![s]
    } else {
        let st = wrap_state(s, max, s.len());
        if st.1.len() > 0 {
            st.0.push(st.1)
        } else {
            st.0
        }
    }
}

/// Wraps `s` to `max_width` columns (see `wrapped`).
pub fn wrap_text_to_width(s: &str, max_width: usize) -> (lines: Vec<String>)
    ensures
        views(lines@) == wrapped(s@, max_width as nat),
{
    let n = char_count(s);
    if max_width == 0 || n == 0 {
        let mut one: Vec<String> = Vec::new();
        one.push(String::from_str(s));
        assert(views(one@) =~= seq![s@]);
        return one;
    }
    let v = chars_of(s);
    let mut lines: Vec<String> = Vec::new();
    let mut current_line = String::new();
    let mut current_width: usize = 0;
    let mut i: usize = 0;
    while i < n
        invariant
            n == v.len() <= isize::MAX,
            v@ == s@,
            i <= n,
            (views(lines@), current_line@, current_width as nat) == wrap_state(
                s@,
                max_width as nat,
                i as nat,
            ),
            current_width <= text_width(v@.take(i as int)),
            text_width(v@.take(i as int)) <= 2 * i,
        decreases n - i,
    {
        let c = v[i];
        let cw = char_columns(c);
        proof {
            assert(v@.take(i + 1).drop_last() == v@.take(i as int));
            assert(text_width(v@.take(i + 1)) == text_width(v@.take(i as int)) + cw);
        }
        let ghost prev_lines = views(lines@);
        let ghost prev_cur = current_line@;
        if current_width + cw > max_width && current_line.as_str().unicode_len() > 0 {
            let done = current_line.clone();
            lines.push(done);
            current_line = String::new();
            current_width = 0;
            assert(views(lines@) =~= prev_lines.push(prev_cur));
        }
        current_line.push(c);
        current_width = current_width + cw;
        i = i + 1;
        proof {
            if current_line@.len() == 1 && prev_cur.len() > 0 {
                assert(current_line@ =~= seq![c]);
            }
        }
    }
    let ghost prev_lines = views(lines@);
    if current_line.as_str().unicode_len() > 0 {
        let ghost cur_view = current_line@;
        lines.push(current_line);
        assert(views(lines@) =~= prev_lines.push(cur_view));
    }
    lines
}

/// The lines put back together.
pub open spec fn concat_lines(ls: Seq<Seq<char>>) -> Seq<char>
    decreases ls.len(),
{
    if ls.len() == 0 {
        Seq::empty()
    } else {
        concat_lines(ls.drop_last()) + ls.last()
    }
}

/// A line fits `max` columns, or is a single character too wide to split.
pub open spec fn line_fits(l: Seq<char>, max: nat) -> bool {
    text_width(l) <= max || l.len() == 1
}

/// What holds of the wrapping state after `n` characters.
pub open spec fn wrap_inv(s: Seq<char>, max: nat, n: nat) -> bool {
    let st = wrap_state(s, max, n);
    &&& concat_lines(st.0) + st.1 == s.take(n as int)
    &&& st.2 == text_width(st.1)
    &&& forall|i: int| 0 <= i < st.0.len() ==> (#[trigger] st.0[i]).len() > 0 && line_fits(st.0[i], max)
    &&& line_fits(st.1, max) || st.1.len() == 0
    &&& n > 0 ==> st.1.len() > 0
}

/// The wrapping state keeps its invariant.
proof fn lemma_wrap_inv(s: Seq<char>, max: nat, n: nat)
    requires
        n <= s.len(),
    ensures
        wrap_inv(s, max, n),
    decreases n,
{
    if n == 0 {
        assert(s.take(0) =~= Seq::<char>::empty());
    } else {
        lemma_wrap_inv(s, max, (n - 1) as nat);
        let st = wrap_state(s, max, (n - 1) as nat);
        let c = s[n - 1];
        assert(s.take(n as int) =~= s.take(n - 1).push(c));
        assert(seq![c].drop_last() =~= Seq::<char>::empty());
        assert(text_width(seq![c]) == char_width(c)) by {
            reveal_with_fuel(text_width, 2);
        }
        if st.2 + char_width(c) > max && st.1.len() > 0 {
            let ls = st.0.push(st.1);
            assert(ls.drop_last() =~= st.0);
            assert(concat_lines(ls) + seq![c] =~= concat_lines(st.0) + st.1 + seq![c]);
            assert forall|i: int| 0 <= i < ls.len() implies (#[trigger] ls[i]).len() > 0 && line_fits(
                ls[i],
                max,
            ) by {
                if i < st.0.len() {
                    assert(ls[i] == st.0[i]);
                }
            }
        } else {
            assert(st.1.push(c).drop_last() =~= st.1);
            assert(concat_lines(st.0) + st.1.push(c) =~= concat_lines(st.0) + st.1 + seq![c]);
        }
    }
}

/// Wrapping loses and adds nothing: the lines put back together are the text.
pub proof fn law_wrap_keeps_text(s: Seq<char>, max: nat)
    ensures
        concat_lines(wrapped(s, max)) == s,
{
    if max == 0 || s.len() == 0 {
        assert(seq![s].drop_last() =~= Seq::<Seq<char>>::empty());
        assert(Seq::<char>::empty() + s =~= s);
        assert(concat_lines(seq![s]) == s) by {
            reveal_with_fuel(concat_lines, 2);
        }
    } else {
        lemma_wrap_inv(s, max, s.len());
        let st = wrap_state(s, max, s.len());
        assert(s.take(s.len() as int) =~= s);
        assert(st.0.push(st.1).drop_last() =~= st.0);
    }
}

/// Every wrapped line is non-empty and fits the width, but for a single
/// character wider than the width.
pub proof fn law_wrap_fits(s: Seq<char>, max: nat)
    requires
        max > 0,
        s.len() > 0,
    ensures
        forall|i: int|
            0 <= i < wrapped(s, max).len() ==> (#[trigger] wrapped(s, max)[i]).len() > 0 && line_fits(
                wrapped(s, max)[i],
                max,
            ),
{
    lemma_wrap_inv(s, max, s.len());
    let st = wrap_state(s, max, s.len());
    let w = st.0.push(st.1);
    assert forall|i: int| 0 <= i < w.len() implies (#[trigger] w[i]).len() > 0 && line_fits(w[i], max) by {
        if i < st.0.len() {
            assert(w[i] == st.0[i]);
        }
    }
}

// ---------------------------------------------------------------------------
// Titles and the status line
// ---------------------------------------------------------------------------

/// The history box title: while searching with a query, the query and the
/// selected result out of how many (0 when there is none); otherwise plain.
pub open spec fn history_title_text(searching: bool, query: Seq<char>, n_results: nat, current: nat) -> Seq<char> {
    if searching && query.len() > 0 {
        " 历史 (搜索: "@ + query + " - "@ + decimal(if n_results == 0 { 0 } else { current + 1 })
            + "/"@ + decimal(n_results)
            + ")"@
    } else {
        " 历史 "@
    }
}

/// The history box title.
pub fn history_title(searching: bool, query: &str, n_results: usize, current: usize) -> (t: String)
    requires
        n_results > 0 ==> current < n_results,
    ensures
        t@ == history_title_text(searching, query@, n_results as nat, current as nat),
{
    if searching && !query.is_empty() {
        let mut t = String::from_str(" 历史 (搜索: ");
        t.append(query);
        t.append(" - ");
        let shown: usize = if n_results == 0 { 0 } else { current + 1 };
        push_decimal(&mut t, shown as u64);
        t.append("/");
        push_decimal(&mut t, n_results as u64);
        t.append(")");
        t
    } else {
        String::from_str(" 历史 ")
    }
}

/// The second line of the search box: the selected result out of how many,
/// or a note that the query found nothing; none while the query is empty.
pub open spec fn search_summary_text(query: Seq<char>, n_results: nat, current: nat) -> Option<Seq<char>> {
    if n_results > 0 {
        Some("结果: "@ + decimal(current + 1) + "/"@ + decimal(n_results))
    } else if query.len() > 0 {
        Some("无匹配结果"@)
    } else {
        None
    }
}

/// The second line of the search box (see `search_summary_text`).
pub fn search_summary(query: &str, n_results: usize, current: usize) -> (r: Option<String>)
    requires
        n_results > 0 ==> current < n_results,
    ensures
        match r {
            Some(t) => search_summary_text(query@, n_results as nat, current as nat) == Some(t@),
            None => search_summary_text(query@, n_results as nat, current as nat) is None,
        },
{
    if n_results > 0 {
        let mut t = String::from_str("结果: ");
        push_decimal(&mut t, (current + 1) as u64);
        t.append("/");
        push_decimal(&mut t, n_results as u64);
        Some(t)
    } else if !query.is_empty() {
        Some(String::from_str("无匹配结果"))
    } else {
        None
    }
}

/// The status bar's text in each mode. While collecting it names the model
/// and whether the secretary is offline (mock provider), thinking or online.
pub open spec fn status_text(mode: Mode, model: Seq<char>, mock: bool, pending: bool, query: Seq<char>) -> Seq<char> {
    match mode {
        Mode::Collecting => {
            let connectivity = if mock {
                "离线"@
            } else if pending {
                "思考中"@
            } else {
                "在线"@
            };
            " :q 退出 | :h 帮助 | "@ + model + " | "@ + connectivity + " "@
        },
        Mode::Command => " :q 退出 | :h 帮助 | 其他键取消 "@,
        Mode::Help => " 帮助 | 按任意键返回 "@,
        Mode::Searching => " 搜索: "@ + query + " | Tab/↑↓ 切换结果 | Enter 确认 | Esc 取消 "@,
    }
}

/// The status bar's text.
pub fn status_line(mode: Mode, model: &str, mock: bool, pending: bool, query: &str) -> (t: String)
    ensures
        t@ == status_text(mode, model@, mock, pending, query@),
{
    match mode {
        Mode::Collecting => {
            let connectivity = if mock {
                "离线"
            } else if pending {
                "思考中"
            } else {
                "在线"
            };
            let mut t = String::from_str(" :q 退出 | :h 帮助 | ");
            t.append(model);
            t.append(" | ");
            t.append(connectivity);
            t.append(" ");
            t
        },
        Mode::Command => String::from_str(" :q 退出 | :h 帮助 | 其他键取消 "),
        Mode::Help => String::from_str(" 帮助 | 按任意键返回 "),
        Mode::Searching => {
            let mut t = String::from_str(" 搜索: ");
            t.append(query);
            t.append(" | Tab/↑↓ 切换结果 | Enter 确认 | Esc 取消 ");
            t
        },
    }
}

/// The time shown before a history item: the bytes 11 to 16 of its
/// timestamp (`HH:MM` of `YYYY-MM-DDTHH:MM:SS`), or the whole timestamp
/// when it is shorter than 16 bytes.
pub open spec fn display_time_bytes(ts: Seq<char>) -> Seq<u8> {
    let b = vstd::utf8::encode_utf8(ts);
    if b.len() >= 16 {
        b.subrange(11, 16)
    } else {
        b
    }
}

/// Byte offsets 11 and 16 of a long timestamp fall between characters
/// (always so for the ASCII timestamps the application writes).
pub open spec fn time_slice_ok(ts: Seq<char>) -> bool {
    let b = vstd::utf8::encode_utf8(ts);
    b.len() >= 16 ==> vstd::utf8::is_char_boundary(b, 11) && vstd::utf8::is_char_boundary(b, 16)
}

/// The time shown before a history item (see `display_time_bytes`).
pub fn display_time(ts: &str) -> (t: String)
    requires
        time_slice_ok(ts@),
    ensures
        vstd::utf8::encode_utf8(t@) == display_time_bytes(ts@),
{
    if byte_len(ts) >= 16 {
        let (head, _) = ts.split_at(16);
        proof {
            let b = vstd::utf8::encode_utf8(ts@);
            vstd::utf8::encode_utf8_valid_utf8(ts@);
            vstd::utf8::valid_utf8_split(b, 16);
            vstd::utf8::is_char_boundary_iff_not_is_continuation_byte(b, 11);
            vstd::utf8::is_char_boundary_iff_not_is_continuation_byte(b.subrange(0, 16), 11);
        }
        let (_, mid) = head.split_at(11);
        proof {
            assert(vstd::utf8::encode_utf8(mid@) =~= vstd::utf8::encode_utf8(ts@).subrange(11, 16));
        }
        String::from_str(mid)
    } else {
        String::from_str(ts)
    }
}

// ---------------------------------------------------------------------------
// History rows
// ---------------------------------------------------------------------------

/// The widths of a history item's first row (after the `[HH:MM] ` stamp)
/// and of its other rows (after a six-space indent), for a box whose inside
/// is `inner_width` columns wide: two columns of padding come off, then
/// seven for the stamp or six for the indent, never below zero.
pub open spec fn row_widths(inner_width: nat) -> (nat, nat) {
    let avail = if inner_width >= 2 { (inner_width - 2) as nat } else { 0 };
    (
        if avail >= 7 { (avail - 7) as nat } else { 0 },
        if avail >= 6 { (avail - 6) as nat } else { 0 },
    )
}

/// The widths of a history item's first and other rows.
pub fn history_row_widths(inner_width: usize) -> (r: (usize, usize))
    ensures
        (r.0 as nat, r.1 as nat) == row_widths(inner_width as nat),
{
    let avail = inner_width.saturating_sub(2);
    (avail.saturating_sub(7), avail.saturating_sub(6))
}

/// The rows of an item whose content has the lines `ls`: each line wrapped,
/// the first line to `first` columns and the others to `cont`; a row is
/// marked when it is the item's first (it carries the time stamp).
pub open spec fn rows_of_lines(ls: Seq<Seq<char>>, first: nat, cont: nat) -> Seq<(bool, Seq<char>)>
    decreases ls.len(),
{
    if ls.len() == 0 {
        Seq::empty()
    } else {
        let i = ls.len() - 1;
        let w = if i == 0 { first } else { cont };
        rows_of_lines(ls.drop_last(), first, cont) + wrapped(ls.last(), w).map(
            |j: int, part: Seq<char>| (i == 0 && j == 0, part),
        )
    }
}

/// The views of a list of rows.
pub open spec fn row_views(v: Seq<(bool, String)>) -> Seq<(bool, Seq<char>)> {
    v.map_values(|r: (bool, String)| (r.0, r.1@))
}

/// The rows of a history item with content `content` (see `rows_of_lines`).
pub fn history_rows(content: &str, first: usize, cont: usize) -> (rows: Vec<(bool, String)>)
    ensures
        row_views(rows@) == rows_of_lines(text_lines(content@), first as nat, cont as nat),
{
    let ls = lines_of(content);
    let mut rows: Vec<(bool, String)> = Vec::new();
    let mut i: usize = 0;
    while i < ls.len()
        invariant
            i <= ls.len(),
            views(ls@) == text_lines(content@),
            row_views(rows@) == rows_of_lines(views(ls@).take(i as int), first as nat, cont as nat),
        decreases ls.len() - i,
    {
        let w = if i == 0 { first } else { cont };
        let parts = wrap_text_to_width(ls[i].as_str(), w);
        let ghost before = row_views(rows@);
        let ghost mapped = wrapped(ls@[i as int]@, w as nat).map(
            |j: int, part: Seq<char>| (i == 0 && j == 0, part),
        );
        let mut j: usize = 0;
        while j < parts.len()
            invariant
                j <= parts.len(),
                views(parts@) == wrapped(ls@[i as int]@, w as nat),
                mapped == wrapped(ls@[i as int]@, w as nat).map(
                    |j: int, part: Seq<char>| (i == 0 && j == 0, part),
                ),
                row_views(rows@) == before + mapped.take(j as int),
            decreases parts.len() - j,
        {
            let part = parts[j].clone();
            let ghost prev = row_views(rows@);
            rows.push((i == 0 && j == 0, part));
            assert(row_views(rows@) =~= prev.push(mapped[j as int]));
            assert(mapped.take(j + 1) =~= mapped.take(j as int).push(mapped[j as int]));
            j = j + 1;
        }
        assert(mapped.take(parts.len() as int) =~= mapped);
        assert(views(ls@).take(i + 1).drop_last() =~= views(ls@).take(i as int));
        assert(views(ls@).take(i + 1).last() == ls@[i as int]@);
        i = i + 1;
    }
    assert(views(ls@).take(ls.len() as int) =~= views(ls@));
    rows
}

// ---------------------------------------------------------------------------
// The input box
// ---------------------------------------------------------------------------

/// The rows the input box shows for the buffer text `content`: `> ` alone
/// for an empty text, else each of its lines (as `str::lines` splits them)
/// after `> ` for the first and two spaces for the others.
pub open spec fn input_rows(content: Seq<char>) -> Seq<Seq<char>> {
    if content.len() == 0 {
        seq!["> "@]
    } else {
        text_lines(content).map(|i: int, l: Seq<char>| if i == 0 { "> "@ + l } else { "  "@ + l })
    }
}

/// The rows the input box shows.
pub fn input_display_lines(input: &InputState) -> (rows: Vec<String>)
    ensures
        views(rows@) == input_rows(input@.text()),
{
    let content = input.to_string();
    let mut rows: Vec<String> = Vec::new();
    if content.as_str().is_empty() {
        rows.push(String::from_str("> "));
        assert(views(rows@) =~= seq!["> "@]);
        return rows;
    }
    let ls = lines_of(content.as_str());
    let ghost target = text_lines(content@).map(
        |i: int, l: Seq<char>| if i == 0 { "> "@ + l } else { "  "@ + l },
    );
    let mut i: usize = 0;
    while i < ls.len()
        invariant
            i <= ls.len(),
            views(ls@) == text_lines(content@),
            target == text_lines(content@).map(
                |i: int, l: Seq<char>| if i == 0 { "> "@ + l } else { "  "@ + l },
            ),
            views(rows@) == target.take(i as int),
        decreases ls.len() - i,
    {
        let mut row = if i == 0 { String::from_str("> ") } else { String::from_str("  ") };
        row.append(ls[i].as_str());
        let ghost prev = views(rows@);
        rows.push(row);
        assert(views(rows@) =~= prev.push(target[i as int]));
        assert(target.take(i + 1) =~= target.take(i as int).push(target[i as int]));
        i = i + 1;
    }
    assert(target.take(ls.len() as int) =~= target);
    rows
}

/// Rows that a logical line of width `w_line` fills at `w` columns, and the
/// widths, for the input box: the lines before the cursor each fill
/// ceil(width / w) rows, computed as `(width + w - 1) / w`.
pub open spec fn rows_before(ws: Seq<nat>, w: nat) -> int
    decreases ws.len(),
{
    if ws.len() == 0 {
        0
    } else {
        rows_before(ws.drop_last(), w) + (ws.last() + w - 1) / (w as int)
    }
}

/// No step of that sum leaves `usize`: neither a `width + w` (the first
/// step of `width + w - 1`) nor a running total.
pub open spec fn rows_fit(ws: Seq<nat>, w: nat) -> bool
    decreases ws.len(),
{
    if ws.len() == 0 {
        true
    } else {
        &&& rows_fit(ws.drop_last(), w)
        &&& ws.last() + w <= usize::MAX
        &&& rows_before(ws, w) <= usize::MAX
    }
}

/// A sum that fits has prefixes that fit.
pub proof fn lemma_rows_fit_prefix(ws: Seq<nat>, w: nat, k: int)
    requires
        0 <= k <= ws.len(),
        rows_fit(ws, w),
    ensures
        rows_fit(ws.take(k), w),
    decreases ws.len(),
{
    if k < ws.len() {
        assert(ws.drop_last().take(k) =~= ws.take(k));
        lemma_rows_fit_prefix(ws.drop_last(), w, k);
    } else {
        assert(ws.take(k) =~= ws);
    }
}

/// The widths of the lines before line `cl`.
pub open spec fn widths_before(lines: Seq<Seq<char>>, cl: int) -> Seq<nat> {
    lines.take(cl).map_values(|l: Seq<char>| text_width(l))
}

/// Where the cursor shows in the input box, as (row, column) after the
/// `> ` prefix, for a box `inner_width` columns wide (two of which the
/// prefix takes): the rows of the lines before the cursor's, then the rows
/// and the column that the text before the cursor fills. With no room left,
/// row and column are both counted as zero for the lines.
pub open spec fn cursor_place(v: EditorView, inner_width: nat) -> (int, int) {
    let w: nat = if inner_width >= 2 { (inner_width - 2) as nat } else { 0 };
    let before = text_width(v.current().take(v.cursor_col)) as int;
    if w > 0 {
        (rows_before(widths_before(v.lines, v.cursor_line), w) + before / (w as int), before % (w as int))
    } else {
        (0, 0)
    }
}

/// Computing `cursor_place` stays within `usize`.
pub open spec fn cursor_fits(v: EditorView, inner_width: nat) -> bool {
    let w: nat = if inner_width >= 2 { (inner_width - 2) as nat } else { 0 };
    let before = text_width(v.current().take(v.cursor_col)) as int;
    w > 0 ==> rows_fit(widths_before(v.lines, v.cursor_line), w) && rows_before(
        widths_before(v.lines, v.cursor_line),
        w,
    ) + before / (w as int) <= usize::MAX
}

/// The rows that line widths fill, or `None` where a step leaves `usize`.
fn sum_rows(input: &InputState, w: usize) -> (r: Option<usize>)
    requires
        input@.wf(),
        w > 0,
    ensures
        r is Some <==> rows_fit(widths_before(input@.lines, input@.cursor_line), w as nat),
        r matches Some(n) ==> n == rows_before(widths_before(input@.lines, input@.cursor_line), w as nat),
{
    let ghost ls = input@.lines;
    let cl = input.cursor_line;
    let mut total: usize = 0;
    let mut i: usize = 0;
    while i < cl
        invariant
            ls == input@.lines,
            cl == input@.cursor_line,
            0 <= cl < ls.len(),
            w > 0,
            i <= cl,
            rows_fit(widths_before(ls, i as int), w as nat),
            total == rows_before(widths_before(ls, i as int), w as nat),
        decreases cl - i,
    {
        let dw = display_width(input.lines[i].as_str());
        proof {
            assert(widths_before(ls, i + 1).drop_last() =~= widths_before(ls, i as int));
            assert(widths_before(ls, i + 1).last() == text_width(ls[i as int]));
        }
        if dw > usize::MAX - w {
            proof {
                assert(widths_before(ls, cl as int).take(i + 1) =~= widths_before(ls, i + 1));
                if rows_fit(widths_before(ls, cl as int), w as nat) {
                    lemma_rows_fit_prefix(widths_before(ls, cl as int), w as nat, i + 1);
                }
            }
            return None;
        }
        let rows = (dw + w - 1) / w;
        if total > usize::MAX - rows {
            proof {
                assert(widths_before(ls, cl as int).take(i + 1) =~= widths_before(ls, i + 1));
                if rows_fit(widths_before(ls, cl as int), w as nat) {
                    lemma_rows_fit_prefix(widths_before(ls, cl as int), w as nat, i + 1);
                }
            }
            return None;
        }
        total = total + rows;
        i = i + 1;
    }
    Some(total)
}

/// Where the cursor shows in the input box (see `cursor_place`), or `None`
/// where counting the rows would overflow `usize`.
pub fn input_cursor(input: &InputState, inner_width: usize) -> (r: Option<(usize, usize)>)
    requires
        input@.wf(),
    ensures
        r is Some <==> cursor_fits(input@, inner_width as nat),
        r matches Some(p) ==> (p.0 as int, p.1 as int) == cursor_place(input@, inner_width as nat),
{
    let w = inner_width.saturating_sub(2);
    let line = chars_of(input.lines[input.cursor_line].as_str());
    let before_s = crate::text::string_of(&line, 0, input.cursor_col);
    let before = display_width(before_s.as_str());
    if w == 0 {
        return Some((0, 0));
    }
    match sum_rows(input, w) {
        None => None,
        Some(rows) => {
            if rows > usize::MAX - before / w {
                None
            } else {
                Some((rows + before / w, before % w))
            }
        },
    }
}

// ---------------------------------------------------------------------------
// The secretary's desk
// ---------------------------------------------------------------------------

/// The rows the desk shows: the message's lines, as many as the height
/// allows, then `⏳ 思考中...` while a reply is pending and room is left.
pub open spec fn desk_rows(message: Seq<char>, height: nat, pending: bool) -> Seq<Seq<char>> {
    let ls = text_lines(message);
    let shown = if ls.len() <= height { ls } else { ls.take(height as int) };
    if pending && shown.len() < height {
        shown.push("⏳ 思考中..."@)
    } else {
        shown
    }
}

/// The rows the desk shows (see `desk_rows`).
pub fn secretary_rows(message: &str, height: usize, pending: bool) -> (rows: Vec<String>)
    ensures
        views(rows@) == desk_rows(message@, height as nat, pending),
{
    let ls = lines_of(message);
    let mut rows: Vec<String> = Vec::new();
    let mut i: usize = 0;
    while i < ls.len() && rows.len() < height
        invariant
            i <= ls.len(),
            i <= height,
            rows.len() == i,
            views(ls@) == text_lines(message@),
            views(rows@) == views(ls@).take(i as int),
        decreases ls.len() - i,
    {
        let line = ls[i].clone();
        let ghost prev = views(rows@);
        rows.push(line);
        assert(views(rows@) =~= prev.push(views(ls@)[i as int]));
        assert(views(ls@).take(i + 1) =~= views(ls@).take(i as int).push(views(ls@)[i as int]));
        i = i + 1;
    }
    proof {
        if views(ls@).len() <= height {
            assert(i == ls.len());
            assert(views(ls@).take(i as int) =~= views(ls@));
        } else {
            assert(i == height);
        }
    }
    if pending && rows.len() < height {
        let ghost prev = views(rows@);
        rows.push(String::from_str("⏳ 思考中..."));
        assert(views(rows@) =~= prev.push("⏳ 思考中..."@));
    }
    rows
}

/// The signature at the desk's bottom right: `——` and the secretary's name.
pub open spec fn signature_text(name: Seq<char>) -> Seq<char> {
    "——"@ + name
}

/// The signature at the desk's bottom right.
pub fn secretary_signature(name: &str) -> (s: String)
    ensures
        s@ == signature_text(name@),
{
    let mut s = String::from_str("——");
    s.append(name);
    s
}

} // verus!
