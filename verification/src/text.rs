//! Character-sequence helpers shared by the editor, the search and the
//! capture-file layout: substring search, decimal rendering, line joining,
//! UTF-8 lengths and string building.

use vstd::prelude::*;

verus! {

// ---------------------------------------------------------------------------
// Trusted items from std
// ---------------------------------------------------------------------------

/// `String::push` appends one character at the end of the string.
pub assume_specification[ String::push ](s: &mut String, ch: char)
    ensures
        final(s)@ == old(s)@.push(ch),
;

/// What `str::to_lowercase` returns for a string: its full Unicode
/// lowercase mapping (a table of the Unicode character database).
pub uninterp spec fn lowercase(s: Seq<char>) -> Seq<char>;

/// Calls `str::to_lowercase`. The contract claims only that the result is
/// the lowercase mapping of the argument, a function of the argument alone.
#[verifier::external_body]
pub fn to_lowercase(s: &str) -> (r: String)
    ensures
        r@ == lowercase(s@),
{
    s.to_lowercase()
}

/// Whether a character has the Unicode `White_Space` property (the list of
/// the Unicode Character Database's PropList.txt): tab to carriage return,
/// space, next line, no-break space, ogham space mark, en quad to hair
/// space, line and paragraph separators, narrow no-break space, medium
/// mathematical space and ideographic space.
pub open spec fn unicode_whitespace(c: char) -> bool {
    let u = c as u32;
    ||| 0x09 <= u <= 0x0D
    ||| u == 0x20
    ||| u == 0x85
    ||| u == 0xA0
    ||| u == 0x1680
    ||| 0x2000 <= u <= 0x200A
    ||| u == 0x2028
    ||| u == 0x2029
    ||| u == 0x202F
    ||| u == 0x205F
    ||| u == 0x3000
}

/// Whether a character has the Unicode `White_Space` property (what std's
/// `char::is_whitespace` reports), checked against its list of code points.
pub fn is_whitespace(c: char) -> (b: bool)
    ensures
        b == unicode_whitespace(c),
{
    let u = c as u32;
    (0x09 <= u && u <= 0x0D) || u == 0x20 || u == 0x85 || u == 0xA0 || u == 0x1680 || (0x2000 <= u
        && u <= 0x200A) || u == 0x2028 || u == 0x2029 || u == 0x202F || u == 0x205F || u == 0x3000
}

// ---------------------------------------------------------------------------
// Substring search
// ---------------------------------------------------------------------------

/// `n` occurs in `h` starting at character index `i`.
pub open spec fn occurs_at(h: Seq<char>, n: Seq<char>, i: int) -> bool {
    &&& 0 <= i
    &&& i + n.len() <= h.len()
    &&& h.subrange(i, i + n.len()) == n
}

/// The first index `>= i` at which `n` occurs in `h`.
pub open spec fn find_from(h: Seq<char>, n: Seq<char>, i: int) -> Option<int>
    decreases h.len() + 1 - i,
{
    if i < 0 || i + n.len() > h.len() {
        None
    } else if occurs_at(h, n, i) {
        Some(i)
    } else {
        find_from(h, n, i + 1)
    }
}

/// The first index at which `n` occurs in `h` (what `str::find` reports, counted in characters).
pub open spec fn find(h: Seq<char>, n: Seq<char>) -> Option<int> {
    find_from(h, n, 0)
}

/// `n` is a substring of `h`.
pub open spec fn contains(h: Seq<char>, n: Seq<char>) -> bool {
    find(h, n) is Some
}

/// The last index `<= i` at which `n` occurs in `h`.
pub open spec fn rfind_from(h: Seq<char>, n: Seq<char>, i: int) -> Option<int>
    decreases i + 1,
{
    if i < 0 {
        None
    } else if occurs_at(h, n, i) {
        Some(i)
    } else {
        rfind_from(h, n, i - 1)
    }
}

/// The last index at which `n` occurs in `h` (what `str::rfind` reports, counted in characters).
pub open spec fn rfind(h: Seq<char>, n: Seq<char>) -> Option<int> {
    rfind_from(h, n, h.len() - n.len())
}

/// An optional index as a mathematical integer.
pub open spec fn opt_int(r: Option<usize>) -> Option<int> {
    match r {
        Some(k) => Some(k as int),
        None => None,
    }
}

/// `find_from` reports an occurrence, and no earlier one past `i`.
pub proof fn lemma_find_from(h: Seq<char>, n: Seq<char>, i: int)
    requires
        0 <= i,
    ensures
        find_from(h, n, i) matches Some(k) ==> occurs_at(h, n, k) && i <= k && forall|j: int|
            i <= j < k ==> !occurs_at(h, n, j),
        find_from(h, n, i) is None ==> forall|j: int| i <= j ==> !occurs_at(h, n, j),
    decreases h.len() + 1 - i,
{
    if i + n.len() > h.len() {
    } else if occurs_at(h, n, i) {
    } else {
        lemma_find_from(h, n, i + 1);
        assert forall|j: int| i <= j && find_from(h, n, i) is None implies !occurs_at(h, n, j) by {
            if j == i {
            }
        }
    }
}

/// `rfind_from` reports an occurrence, and no later one up to `i`.
pub proof fn lemma_rfind_from(h: Seq<char>, n: Seq<char>, i: int)
    ensures
        rfind_from(h, n, i) matches Some(k) ==> occurs_at(h, n, k) && k <= i && forall|j: int|
            k < j <= i ==> !occurs_at(h, n, j),
        rfind_from(h, n, i) is None ==> forall|j: int| j <= i ==> !occurs_at(h, n, j),
    decreases i + 1,
{
    if i < 0 {
    } else if occurs_at(h, n, i) {
    } else {
        lemma_rfind_from(h, n, i - 1);
    }
}

/// An occurrence makes `n` a substring of `h`.
pub proof fn lemma_occurs_contains(h: Seq<char>, n: Seq<char>, k: int)
    requires
        occurs_at(h, n, k),
    ensures
        contains(h, n),
{
    lemma_find_from(h, n, 0);
}

/// `b` occurs in `a + b + c` right after `a`.
pub proof fn lemma_occurs_in_concat(a: Seq<char>, b: Seq<char>, c: Seq<char>)
    ensures
        occurs_at(a + b + c, b, a.len() as int),
        contains(a + b + c, b),
{
    assert((a + b + c).subrange(a.len() as int, a.len() + b.len() as int) =~= b);
    lemma_occurs_contains(a + b + c, b, a.len() as int);
}

/// Whether `n` occurs in `h` at index `i`.
pub fn matches_at(h: &Vec<char>, n: &Vec<char>, i: usize) -> (b: bool)
    requires
        i + n.len() <= h.len(),
    ensures
        b == occurs_at(h@, n@, i as int),
{
    let mut j: usize = 0;
    while j < n.len()
        invariant
            i + n.len() <= h.len(),
            j <= n.len(),
            h@.subrange(i as int, i + j) == n@.take(j as int),
        decreases n.len() - j,
    {
        if h[i + j] != n[j] {
            assert(h@.subrange(i as int, i + n.len())[j as int] != n@[j as int]);
            return false;
        }
        assert(h@.subrange(i as int, i + j + 1) == n@.take(j + 1));
        j = j + 1;
    }
    assert(n@.take(n.len() as int) == n@);
    true
}

/// Whether two texts are equal.
pub fn same_text(a: &str, b: &str) -> (r: bool)
    ensures
        r == (a@ == b@),
{
    let av = chars_of(a);
    let bv = chars_of(b);
    if av.len() != bv.len() {
        return false;
    }
    let r = matches_at(&av, &bv, 0);
    assert(av@.subrange(0, bv@.len() as int) == av@);
    r
}

/// The first occurrence of `n` in `h` at or after `from`.
pub fn find_chars_from(h: &Vec<char>, n: &Vec<char>, from: usize) -> (r: Option<usize>)
    ensures
        opt_int(r) == find_from(h@, n@, from as int),
{
    if n.len() > h.len() {
        return None;
    }
    let last = h.len() - n.len();
    if from > last {
        return None;
    }
    let mut i = from;
    loop
        invariant
            n.len() <= h.len(),
            last == h.len() - n.len(),
            from <= i <= last,
            find_from(h@, n@, from as int) == find_from(h@, n@, i as int),
        decreases last - i,
    {
        if matches_at(h, n, i) {
            return Some(i);
        }
        if i == last {
            assert(find_from(h@, n@, i + 1) is None);
            return None;
        }
        i = i + 1;
    }
}

/// The last occurrence of `n` in `h`.
pub fn rfind_chars(h: &Vec<char>, n: &Vec<char>) -> (r: Option<usize>)
    ensures
        opt_int(r) == rfind(h@, n@),
{
    if n.len() > h.len() {
        return None;
    }
    let mut i: usize = h.len() - n.len();
    loop
        invariant
            n.len() <= h.len(),
            i + n.len() <= h.len(),
            rfind(h@, n@) == rfind_from(h@, n@, i as int),
        decreases i,
    {
        if matches_at(h, n, i) {
            return Some(i);
        }
        if i == 0 {
            assert(rfind_from(h@, n@, -1) is None);
            return None;
        }
        i = i - 1;
    }
}

// ---------------------------------------------------------------------------
// Building strings
// ---------------------------------------------------------------------------

/// The characters of `s`, in order.
pub fn chars_of(s: &str) -> (v: Vec<char>)
    ensures
        v@ == s@,
{
    let mut v: Vec<char> = Vec::new();
    for c in it: s.chars()
        invariant
            v@ == it.seq().take(it.index() as int),
    {
        v.push(c);
    }
    v
}

/// Appends `v[lo..hi]` to `s`.
pub fn push_chars(s: &mut String, v: &Vec<char>, lo: usize, hi: usize)
    requires
        lo <= hi <= v.len(),
    ensures
        final(s)@ == old(s)@ + v@.subrange(lo as int, hi as int),
{
    let mut i = lo;
    while i < hi
        invariant
            lo <= i <= hi <= v.len(),
            s@ == old(s)@ + v@.subrange(lo as int, i as int),
        decreases hi - i,
    {
        s.push(v[i]);
        assert(v@.subrange(lo as int, i + 1) == v@.subrange(lo as int, i as int).push(v@[i as int]));
        i = i + 1;
    }
}

/// The vector `v[lo..hi]`.
pub fn subvec(v: &Vec<char>, lo: usize, hi: usize) -> (r: Vec<char>)
    requires
        lo <= hi <= v.len(),
    ensures
        r@ == v@.subrange(lo as int, hi as int),
{
    let mut r: Vec<char> = Vec::new();
    let mut i = lo;
    while i < hi
        invariant
            lo <= i <= hi <= v.len(),
            r@ == v@.subrange(lo as int, i as int),
        decreases hi - i,
    {
        r.push(v[i]);
        assert(v@.subrange(lo as int, i + 1) == v@.subrange(lo as int, i as int).push(v@[i as int]));
        i = i + 1;
    }
    r
}

/// The string made of `v[lo..hi]`.
pub fn string_of(v: &Vec<char>, lo: usize, hi: usize) -> (s: String)
    requires
        lo <= hi <= v.len(),
    ensures
        s@ == v@.subrange(lo as int, hi as int),
{
    let mut s = String::new();
    push_chars(&mut s, v, lo, hi);
    s
}

/// Appends the string `t` to `s`.
pub fn push_str(s: &mut String, t: &str)
    ensures
        final(s)@ == old(s)@ + t@,
{
    s.append(t);
}

// ---------------------------------------------------------------------------
// Decimal numbers
// ---------------------------------------------------------------------------

/// The ASCII digit for `d` (`0 <= d < 10`).
pub open spec fn digit(d: int) -> char {
    (d + 48) as char
}

/// The decimal representation of `n`, without leading zeros.
pub open spec fn decimal(n: nat) -> Seq<char>
    decreases n,
{
    if n < 10 {
        seq![digit(n as int)]
    } else {
        decimal(n / 10).push(digit((n % 10) as int))
    }
}

/// The decimal representation of a signed integer, with a leading `-` when negative.
pub open spec fn int_text(i: int) -> Seq<char> {
    if i < 0 {
        seq!['-'] + decimal((-i) as nat)
    } else {
        decimal(i as nat)
    }
}

/// Appends the decimal representation of `n` to `s`.
pub fn push_decimal(s: &mut String, n: u64)
    ensures
        final(s)@ == old(s)@ + decimal(n as nat),
    decreases n,
{
    if n >= 10 {
        push_decimal(s, n / 10);
    }
    let d: u8 = (n % 10) as u8;
    let c: char = (d + 48) as char;
    assert(c == digit((n % 10) as int));
    s.push(c);
}

/// Appends the decimal representation of `i`, with a sign when negative, to `s`.
pub fn push_int(s: &mut String, i: i64)
    requires
        i > i64::MIN,
    ensures
        final(s)@ == old(s)@ + int_text(i as int),
{
    if i < 0 {
        s.push('-');
        push_decimal(s, (-i) as u64);
        assert(old(s)@.push('-') + decimal((-i) as nat) == old(s)@ + (seq!['-'] + decimal(
            (-i) as nat,
        )));
    } else {
        push_decimal(s, i as u64);
    }
}

// ---------------------------------------------------------------------------
// Lines
// ---------------------------------------------------------------------------

/// The lines joined with a newline between each two of them.
pub open spec fn join_lines(lines: Seq<Seq<char>>) -> Seq<char>
    decreases lines.len(),
{
    if lines.len() == 0 {
        Seq::empty()
    } else if lines.len() == 1 {
        lines[0]
    } else {
        join_lines(lines.drop_last()) + seq!['\n'] + lines.last()
    }
}

/// The character views of a vector of strings.
pub open spec fn views(v: Seq<String>) -> Seq<Seq<char>> {
    v.map_values(|s: String| s@)
}

/// The strings of `v` joined with newlines.
pub fn join_with_newlines(v: &Vec<String>) -> (s: String)
    ensures
        s@ == join_lines(views(v@)),
{
    let mut s = String::new();
    let mut i: usize = 0;
    while i < v.len()
        invariant
            i <= v.len(),
            s@ == join_lines(views(v@).take(i as int)),
        decreases v.len() - i,
    {
        if i > 0 {
            s.push('\n');
        }
        s.append(v[i].as_str());
        assert(views(v@).take(i + 1).drop_last() == views(v@).take(i as int));
        i = i + 1;
    }
    assert(views(v@).take(v.len() as int) == views(v@));
    s
}

/// The pieces of `s` between newlines (one more piece than newlines).
pub open spec fn newline_pieces(s: Seq<char>) -> Seq<Seq<char>>
    decreases s.len(),
{
    if s.len() == 0 {
        seq![Seq::empty()]
    } else {
        let prev = newline_pieces(s.drop_last());
        if s.last() == '\n' {
            prev.push(Seq::empty())
        } else {
            prev.update(prev.len() - 1, prev.last().push(s.last()))
        }
    }
}

/// A line without the carriage return that ended it, if any.
pub open spec fn strip_cr(l: Seq<char>) -> Seq<char> {
    if l.len() > 0 && l.last() == '\r' {
        l.drop_last()
    } else {
        l
    }
}

/// The lines of `s` as `str::lines` gives them: split at `\n`, each line
/// ended by `\n` losing a `\r` before it, and no empty last line after a
/// final newline.
pub open spec fn text_lines(s: Seq<char>) -> Seq<Seq<char>> {
    let p = newline_pieces(s);
    p.drop_last().map_values(|l: Seq<char>| strip_cr(l)) + if p.last().len() > 0 {
        seq![p.last()]
    } else {
        Seq::<Seq<char>>::empty()
    }
}

/// There is always at least one piece.
pub proof fn lemma_newline_pieces_len(s: Seq<char>)
    ensures
        newline_pieces(s).len() >= 1,
    decreases s.len(),
{
    if s.len() > 0 {
        lemma_newline_pieces_len(s.drop_last());
    }
}

/// The line without a final carriage return.
fn strip_cr_string(l: String) -> (r: String)
    ensures
        r@ == strip_cr(l@),
{
    let v = chars_of(l.as_str());
    if v.len() > 0 && v[v.len() - 1] == '\r' {
        string_of(&v, 0, v.len() - 1)
    } else {
        l
    }
}

/// The lines of `s` (see `text_lines`).
pub fn lines_of(s: &str) -> (r: Vec<String>)
    ensures
        views(r@) == text_lines(s@),
{
    let v = chars_of(s);
    let mut done: Vec<String> = Vec::new();
    let mut current = String::new();
    let mut i: usize = 0;
    while i < v.len()
        invariant
            v@ == s@,
            i <= v.len(),
            views(done@).push(current@) == newline_pieces(v@.take(i as int)),
        decreases v.len() - i,
    {
        let c = v[i];
        let ghost prev = views(done@).push(current@);
        proof {
            assert(v@.take(i + 1).drop_last() == v@.take(i as int));
            lemma_newline_pieces_len(v@.take(i as int));
        }
        if c == '\n' {
            let finished = current;
            done.push(finished);
            current = String::new();
            assert(views(done@).push(current@) =~= prev.push(Seq::empty()));
        } else {
            current.push(c);
            assert(views(done@).push(current@) =~= prev.update(prev.len() - 1, prev.last().push(c)));
        }
        i = i + 1;
    }
    assert(v@.take(v.len() as int) == v@);
    let ghost pieces = newline_pieces(s@);
    proof {
        lemma_newline_pieces_len(s@);
    }
    assert(views(done@) == pieces.drop_last());
    let mut r: Vec<String> = Vec::new();
    let mut j: usize = 0;
    while j < done.len()
        invariant
            j <= done.len(),
            pieces.len() >= 1,
            views(done@) == pieces.drop_last(),
            views(r@) == pieces.drop_last().take(j as int).map_values(|l: Seq<char>| strip_cr(l)),
        decreases done.len() - j,
    {
        let line = done[j].clone();
        let stripped = strip_cr_string(line);
        let ghost prev_r = views(r@);
        assert(stripped@ == strip_cr(pieces.drop_last()[j as int]));
        r.push(stripped);
        assert(views(r@) =~= prev_r.push(stripped@));
        assert(pieces.drop_last().take(j + 1) == pieces.drop_last().take(j as int).push(
            pieces.drop_last()[j as int],
        ));
        assert(views(r@) =~= pieces.drop_last().take(j + 1).map_values(|l: Seq<char>| strip_cr(l)));
        j = j + 1;
    }
    assert(pieces.drop_last().take(done.len() as int) == pieces.drop_last());
    let ghost stripped_all = views(r@);
    if current.as_str().unicode_len() > 0 {
        let ghost last = current@;
        r.push(current);
        assert(views(r@) =~= stripped_all + seq![last]);
    } else {
        assert(views(r@) =~= stripped_all + Seq::<Seq<char>>::empty());
    }
    r
}

// ---------------------------------------------------------------------------
// Trimming
// ---------------------------------------------------------------------------

/// `s` without its leading whitespace.
pub open spec fn trim_start_ws(s: Seq<char>) -> Seq<char>
    decreases s.len(),
{
    if s.len() > 0 && unicode_whitespace(s[0]) {
        trim_start_ws(s.drop_first())
    } else {
        s
    }
}

/// `s` without its trailing whitespace.
pub open spec fn trim_end_ws(s: Seq<char>) -> Seq<char>
    decreases s.len(),
{
    if s.len() > 0 && unicode_whitespace(s.last()) {
        trim_end_ws(s.drop_last())
    } else {
        s
    }
}

/// `s` without leading and trailing whitespace (what `str::trim` gives).
pub open spec fn trim_ws(s: Seq<char>) -> Seq<char> {
    trim_end_ws(trim_start_ws(s))
}

/// `s` without the copies of `c` at its start.
pub open spec fn trim_start_char(s: Seq<char>, c: char) -> Seq<char>
    decreases s.len(),
{
    if s.len() > 0 && s[0] == c {
        trim_start_char(s.drop_first(), c)
    } else {
        s
    }
}

/// `s` without the copies of `c` at its end.
pub open spec fn trim_end_char(s: Seq<char>, c: char) -> Seq<char>
    decreases s.len(),
{
    if s.len() > 0 && s.last() == c {
        trim_end_char(s.drop_last(), c)
    } else {
        s
    }
}

/// `s` without the copies of `c` at either end (what `str::trim_matches`
/// gives for a character).
pub open spec fn trim_char(s: Seq<char>, c: char) -> Seq<char> {
    trim_end_char(trim_start_char(s, c), c)
}

/// The first index of `v[lo..hi]` that is not whitespace (or `hi`), and
/// what is left past it.
fn skip_ws_front(v: &Vec<char>, lo: usize, hi: usize) -> (k: usize)
    requires
        lo <= hi <= v.len(),
    ensures
        lo <= k <= hi,
        v@.subrange(k as int, hi as int) == trim_start_ws(v@.subrange(lo as int, hi as int)),
    decreases hi - lo,
{
    if lo < hi && is_whitespace(v[lo]) {
        assert(v@.subrange(lo as int, hi as int).drop_first() =~= v@.subrange(lo + 1, hi as int));
        skip_ws_front(v, lo + 1, hi)
    } else {
        lo
    }
}

/// The end of `v[lo..hi]` once trailing whitespace is dropped.
fn skip_ws_back(v: &Vec<char>, lo: usize, hi: usize) -> (k: usize)
    requires
        lo <= hi <= v.len(),
    ensures
        lo <= k <= hi,
        v@.subrange(lo as int, k as int) == trim_end_ws(v@.subrange(lo as int, hi as int)),
    decreases hi - lo,
{
    if lo < hi && is_whitespace(v[hi - 1]) {
        assert(v@.subrange(lo as int, hi as int).drop_last() =~= v@.subrange(lo as int, hi - 1));
        skip_ws_back(v, lo, hi - 1)
    } else {
        hi
    }
}

/// The first index of `v[lo..hi]` that is not `c` (or `hi`).
fn skip_char_front(v: &Vec<char>, lo: usize, hi: usize, c: char) -> (k: usize)
    requires
        lo <= hi <= v.len(),
    ensures
        lo <= k <= hi,
        v@.subrange(k as int, hi as int) == trim_start_char(v@.subrange(lo as int, hi as int), c),
    decreases hi - lo,
{
    if lo < hi && v[lo] == c {
        assert(v@.subrange(lo as int, hi as int).drop_first() =~= v@.subrange(lo + 1, hi as int));
        skip_char_front(v, lo + 1, hi, c)
    } else {
        lo
    }
}

/// The end of `v[lo..hi]` once trailing copies of `c` are dropped.
fn skip_char_back(v: &Vec<char>, lo: usize, hi: usize, c: char) -> (k: usize)
    requires
        lo <= hi <= v.len(),
    ensures
        lo <= k <= hi,
        v@.subrange(lo as int, k as int) == trim_end_char(v@.subrange(lo as int, hi as int), c),
    decreases hi - lo,
{
    if lo < hi && v[hi - 1] == c {
        assert(v@.subrange(lo as int, hi as int).drop_last() =~= v@.subrange(lo as int, hi - 1));
        skip_char_back(v, lo, hi - 1, c)
    } else {
        hi
    }
}

/// The bounds of `v[lo..hi]` with whitespace trimmed at both ends.
pub fn trim_range(v: &Vec<char>, lo: usize, hi: usize) -> (r: (usize, usize))
    requires
        lo <= hi <= v.len(),
    ensures
        lo <= r.0 <= r.1 <= hi,
        v@.subrange(r.0 as int, r.1 as int) == trim_ws(v@.subrange(lo as int, hi as int)),
{
    let a = skip_ws_front(v, lo, hi);
    let b = skip_ws_back(v, a, hi);
    (a, b)
}

/// The bounds of `v[lo..hi]` with copies of `c` trimmed at both ends.
pub fn trim_char_range(v: &Vec<char>, lo: usize, hi: usize, c: char) -> (r: (usize, usize))
    requires
        lo <= hi <= v.len(),
    ensures
        lo <= r.0 <= r.1 <= hi,
        v@.subrange(r.0 as int, r.1 as int) == trim_char(v@.subrange(lo as int, hi as int), c),
{
    let a = skip_char_front(v, lo, hi, c);
    let b = skip_char_back(v, a, hi, c);
    (a, b)
}

// ---------------------------------------------------------------------------
// UTF-8 lengths
// ---------------------------------------------------------------------------

/// Calls `str::len`, the number of bytes of the string's UTF-8 encoding.
/// The contract claims that this number is the exact length of the
/// encoding, and that it is at most `isize::MAX`, the bound that Rust puts
/// on the size of any slice in memory.
#[verifier::external_body]
pub fn byte_len(s: &str) -> (n: usize)
    ensures
        n as nat == vstd::utf8::encode_utf8(s@).len(),
        n <= isize::MAX,
{
    s.len()
}

/// Every character takes at least one byte.
pub proof fn lemma_chars_at_most_bytes(s: Seq<char>)
    ensures
        s.len() <= vstd::utf8::encode_utf8(s).len(),
    decreases s.len(),
{
    if s.len() > 0 {
        lemma_chars_at_most_bytes(s.drop_first());
        vstd::utf8::char_is_scalar(s[0]);
    }
}

/// The number of characters of `s`, which is at most `isize::MAX`.
pub fn char_count(s: &str) -> (n: usize)
    ensures
        n == s@.len(),
        n <= isize::MAX,
{
    let b = byte_len(s);
    proof {
        lemma_chars_at_most_bytes(s@);
    }
    s.unicode_len()
}

/// Every character of `s` is whitespace (so `s.trim()` is empty).
pub open spec fn is_blank(s: Seq<char>) -> bool {
    forall|i: int| 0 <= i < s.len() ==> unicode_whitespace(#[trigger] s[i])
}

/// Whether `v` holds only whitespace.
pub fn blank_chars(v: &Vec<char>) -> (b: bool)
    ensures
        b == is_blank(v@),
{
    let mut i: usize = 0;
    while i < v.len()
        invariant
            i <= v.len(),
            forall|j: int| 0 <= j < i ==> unicode_whitespace(#[trigger] v@[j]),
        decreases v.len() - i,
    {
        if !is_whitespace(v[i]) {
            return false;
        }
        i = i + 1;
    }
    true
}

} // verus!
