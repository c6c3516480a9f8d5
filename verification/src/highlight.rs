//! Marking the search query in a row of history text: the row is cut into
//! plain and highlighted pieces where the lowercased query occurs in the
//! lowercased row. The pieces are cut from the row at the byte offsets of
//! the matches in the lowercased row, each highlighted piece as long (in
//! bytes) as the query as typed.

use vstd::prelude::*;
use vstd::utf8::encode_utf8;
use crate::text::{
    byte_len, chars_of, find_chars_from, find_from, lemma_find_from, lowercase, occurs_at, opt_int, push_chars,
    to_lowercase,
};

verus! {

/// Encoding a concatenation concatenates the encodings.
pub proof fn lemma_encode_concat(a: Seq<char>, b: Seq<char>)
    ensures
        encode_utf8(a + b) == encode_utf8(a) + encode_utf8(b),
    decreases a.len(),
{
    if a.len() == 0 {
        assert(a + b =~= b);
        assert(encode_utf8(a) =~= Seq::<u8>::empty());
        assert(encode_utf8(a) + encode_utf8(b) =~= encode_utf8(b));
    } else {
        assert((a + b).drop_first() =~= a.drop_first() + b);
        assert((a + b)[0] == a[0]);
        lemma_encode_concat(a.drop_first(), b);
    }
}

/// The byte offset of the character at index `k` of `t`.
pub open spec fn offset(t: Seq<char>, k: int) -> int {
    encode_utf8(t.take(k)).len() as int
}

/// The disjoint occurrences of `n` in `h` from index `i` on, leftmost first
/// (what `str::match_indices` finds, counted in characters); an empty `n`
/// occurs at every index up to the end.
pub open spec fn match_chars(h: Seq<char>, n: Seq<char>, i: int) -> Seq<int>
    decreases h.len() + 1 - i,
{
    if i < 0 || i > h.len() {
        Seq::empty()
    } else if n.len() == 0 {
        seq![i] + match_chars(h, n, i + 1)
    } else {
        match find_from(h, n, i) {
            None => Seq::empty(),
            Some(k) => {
                proof {
                    lemma_find_from(h, n, i);
                }
                seq![k] + match_chars(h, n, k + n.len())
            },
        }
    }
}

/// The state of cutting the row: the pieces so far, and the byte offset
/// where the last highlighted piece ended; `None` once a cut falls inside a
/// character (which stops the cutting with a panic).
pub type Cut = Option<(Seq<(bool, Seq<u8>)>, int)>;

/// `b` is the byte offset of a character of `t`, or of its end.
pub open spec fn at_boundary(t: Seq<char>, b: int) -> bool {
    exists|k: int| 0 <= k <= t.len() && offset(t, k) == b
}

/// One match, starting at byte `start` of the lowercased row: the plain
/// text since the last match (when the match starts after it), then the
/// `qlen` bytes from `start`, highlighted.
pub open spec fn cut_step(t: Seq<char>, c: Cut, start: int, qlen: int) -> Cut {
    match c {
        None => None,
        Some((pieces, last)) => {
            let tb = encode_utf8(t);
            let end = start + qlen;
            if !(at_boundary(t, start) && at_boundary(t, end) && start <= end) {
                None
            } else {
                let plain = if start > last {
                    pieces.push((false, tb.subrange(last, start)))
                } else {
                    pieces
                };
                Some((plain.push((true, tb.subrange(start, end))), end))
            }
        },
    }
}

/// The cutting state after the matches at the byte offsets `starts`.
pub open spec fn cut_all(t: Seq<char>, starts: Seq<int>, qlen: int) -> Cut
    decreases starts.len(),
{
    if starts.len() == 0 {
        Some((Seq::empty(), 0))
    } else {
        cut_step(t, cut_all(t, starts.drop_last(), qlen), starts.last(), qlen)
    }
}

/// The byte offsets in `h` of the character indices `ms`.
pub open spec fn offsets_at(h: Seq<char>, ms: Seq<int>) -> Seq<int> {
    ms.map_values(|m: int| offset(h, m))
}

/// The byte offsets in the lowercased row at which the lowercased query
/// matches.
pub open spec fn match_offsets(text: Seq<char>, query: Seq<char>) -> Seq<int> {
    let lt = lowercase(text);
    offsets_at(lt, match_chars(lt, lowercase(query), 0))
}

/// The pieces of a row, as (highlighted, bytes): the whole row, plain, for
/// an empty query; else the cuts at the matches, then the rest of the row
/// plain when the last match ended before the row's end, or the whole row
/// plain when no piece came out. `None` where a cut falls inside a
/// character.
pub open spec fn highlight_pieces(text: Seq<char>, query: Seq<char>) -> Option<Seq<(bool, Seq<u8>)>> {
    let tb = encode_utf8(text);
    if query.len() == 0 {
        Some(seq![(false, tb)])
    } else {
        match cut_all(text, match_offsets(text, query), encode_utf8(query).len() as int) {
            None => None,
            Some((pieces, last)) => {
                let all = if last < tb.len() {
                    pieces.push((false, tb.subrange(last, tb.len() as int)))
                } else {
                    pieces
                };
                if all.len() == 0 {
                    Some(seq![(false, tb)])
                } else {
                    Some(all)
                }
            },
        }
    }
}

/// The pieces as (highlighted, bytes).
pub open spec fn piece_bytes(v: Seq<(bool, String)>) -> Seq<(bool, Seq<u8>)> {
    v.map_values(|p: (bool, String)| (p.0, encode_utf8(p.1@)))
}

/// The byte offsets of every character of `v`, and of its end.
fn offsets_of(v: &Vec<char>) -> (offs: Vec<usize>)
    requires
        encode_utf8(v@).len() <= isize::MAX,
    ensures
        offs@.len() == v@.len() + 1,
        forall|k: int| 0 <= k <= v@.len() ==> offs@[k] as int == offset(v@, k),
        forall|k: int| 0 <= k <= v@.len() ==> offset(v@, k) <= isize::MAX,
{
    let mut offs: Vec<usize> = Vec::new();
    offs.push(0);
    assert(encode_utf8(v@.take(0)) =~= Seq::<u8>::empty()) by {
        assert(v@.take(0) =~= Seq::<char>::empty());
    }
    let mut i: usize = 0;
    while i < v.len()
        invariant
            i <= v.len(),
            encode_utf8(v@).len() <= isize::MAX,
            offs@.len() == i + 1,
            forall|k: int| 0 <= k <= i ==> offs@[k] as int == offset(v@, k),
            forall|k: int| 0 <= k <= i ==> offset(v@, k) <= encode_utf8(v@).len(),
        decreases v.len() - i,
    {
        let c = v[i];
        let mut one = String::new();
        one.push(c);
        let w = byte_len(one.as_str());
        proof {
            assert(v@.take(i + 1) =~= v@.take(i as int) + seq![c]);
            lemma_encode_concat(v@.take(i as int), seq![c]);
            assert(one@ =~= seq![c]);
            lemma_encode_concat(v@.take(i + 1), v@.skip(i + 1));
            assert(v@.take(i + 1) + v@.skip(i + 1) =~= v@);
        }
        let next = offs[i] + w;
        offs.push(next);
        i = i + 1;
    }
    assert forall|k: int| 0 <= k <= v@.len() implies offset(v@, k) <= isize::MAX by {
        assert(offset(v@, k) <= encode_utf8(v@).len());
    }
    offs
}

/// The index `k` with `offs[k] == b`, if any.
fn index_of_offset(offs: &Vec<usize>, b: usize) -> (r: Option<usize>)
    ensures
        r matches Some(k) ==> k < offs@.len() && offs@[k as int] == b,
        r is None ==> forall|k: int| 0 <= k < offs@.len() ==> offs@[k] != b,
{
    let mut k: usize = 0;
    while k < offs.len()
        invariant
            k <= offs.len(),
            forall|j: int| 0 <= j < k ==> offs@[j] != b,
        decreases offs.len() - k,
    {
        if offs[k] == b {
            return Some(k);
        }
        k = k + 1;
    }
    None
}

/// The string of the characters `v[lo..hi]`, whose bytes are the row's
/// bytes between the two offsets.
fn piece(v: &Vec<char>, lo: usize, hi: usize) -> (s: String)
    requires
        lo <= hi <= v.len(),
    ensures
        encode_utf8(s@) == encode_utf8(v@).subrange(offset(v@, lo as int), offset(v@, hi as int)),
{
    let mut s = String::new();
    push_chars(&mut s, v, lo, hi);
    proof {
        let t = v@;
        assert(s@ =~= t.subrange(lo as int, hi as int));
        assert(t =~= t.take(lo as int) + t.subrange(lo as int, hi as int) + t.skip(hi as int));
        assert(t.take(hi as int) =~= t.take(lo as int) + t.subrange(lo as int, hi as int));
        lemma_encode_concat(t.take(lo as int), t.subrange(lo as int, hi as int));
        lemma_encode_concat(t.take(hi as int), t.skip(hi as int));
        assert(t.take(hi as int) + t.skip(hi as int) =~= t);
        let e = encode_utf8(t);
        let a = encode_utf8(t.take(lo as int));
        let m = encode_utf8(t.subrange(lo as int, hi as int));
        assert(e == a + m + encode_utf8(t.skip(hi as int)));
        assert(e.subrange(a.len() as int, (a.len() + m.len()) as int) =~= m);
    }
    s
}

/// Offsets grow with the index: every character takes at least a byte.
proof fn lemma_offset_grows(t: Seq<char>, a: int, b: int)
    requires
        0 <= a < b <= t.len(),
    ensures
        offset(t, a) < offset(t, b),
{
    assert(t.take(b) =~= t.take(a) + t.subrange(a, b));
    lemma_encode_concat(t.take(a), t.subrange(a, b));
    crate::text::lemma_chars_at_most_bytes(t.subrange(a, b));
}

/// Once a cut fails, later matches do not change that.
proof fn lemma_cut_stays_failed(t: Seq<char>, s1: Seq<int>, s2: Seq<int>, qlen: int)
    requires
        cut_all(t, s1, qlen) is None,
    ensures
        cut_all(t, s1 + s2, qlen) is None,
    decreases s2.len(),
{
    if s2.len() == 0 {
        assert(s1 + s2 =~= s1);
    } else {
        lemma_cut_stays_failed(t, s1, s2.drop_last(), qlen);
        assert((s1 + s2).drop_last() =~= s1 + s2.drop_last());
    }
}

/// The pieces of a row of history text (see `highlight_pieces`), or `None`
/// where a cut at a match's byte offsets would fall inside a character.
#[verifier::rlimit(60)]
pub fn highlight_search_matches(text: &str, query: &str) -> (r: Option<Vec<(bool, String)>>)
    ensures
        match r {
            Some(v) => highlight_pieces(text@, query@) == Some(piece_bytes(v@)),
            None => highlight_pieces(text@, query@) is None,
        },
{
    if query.is_empty() {
        let mut v: Vec<(bool, String)> = Vec::new();
        v.push((false, String::from_str(text)));
        assert(piece_bytes(v@) =~= seq![(false, encode_utf8(text@))]);
        return Some(v);
    }
    let tv = chars_of(text);
    let tlen = byte_len(text);
    let toffs = offsets_of(&tv);
    let lt = to_lowercase(text);
    let _ = byte_len(lt.as_str());
    let _ = crate::text::char_count(lt.as_str());
    let lv = chars_of(lt.as_str());
    let loffs = offsets_of(&lv);
    let lq = to_lowercase(query);
    let qv = chars_of(lq.as_str());
    let qlen = byte_len(query);
    let ghost t = text@;
    let ghost h = lv@;
    let ghost n = qv@;
    let ghost ql = qlen as int;
    let mut pieces: Vec<(bool, String)> = Vec::new();
    let mut last: usize = 0;
    let mut last_k: usize = 0;
    let mut pos: usize = 0;
    let ghost mut done: Seq<int> = Seq::empty();
    proof {
        assert(match_chars(h, n, 0) =~= done + match_chars(h, n, 0));
        assert(t.take(0) =~= Seq::<char>::empty());
    }
    loop
        invariant
            t == text@,
            tv@ == t,
            h == lv@,
            lv.len() <= isize::MAX,
            h == lowercase(t),
            n == qv@,
            n == lowercase(query@),
            ql == encode_utf8(query@).len(),
            ql == qlen as int,
            query@.len() > 0,
            qlen <= isize::MAX,
            toffs@.len() == t.len() + 1,
            forall|k: int| 0 <= k <= t.len() ==> toffs@[k] as int == offset(t, k),
            loffs@.len() == h.len() + 1,
            forall|k: int| 0 <= k <= h.len() ==> loffs@[k] as int == offset(h, k),
            forall|k: int| 0 <= k <= h.len() ==> offset(h, k) <= isize::MAX,
            match_chars(h, n, 0) == done + match_chars(h, n, pos as int),
            cut_all(t, offsets_at(h, done), ql) == Some(
                (piece_bytes(pieces@), last as int),
            ),
            last_k <= t.len(),
            toffs@[last_k as int] == last,
        ensures
            match_chars(h, n, pos as int).len() == 0,
        decreases h.len() + 1 - pos,
    {
        let m: usize;
        let next: usize;
        if qv.len() == 0 {
            if pos > lv.len() {
                break;
            }
            m = pos;
            next = pos + 1;
        } else {
            match find_chars_from(&lv, &qv, pos) {
                None => {
                    break;
                },
                Some(k) => {
                    proof {
                        lemma_find_from(h, n, pos as int);
                    }
                    m = k;
                    next = k + qv.len();
                },
            }
        }
        assert(match_chars(h, n, pos as int) == seq![m as int] + match_chars(h, n, next as int));
        let start = loffs[m];
        assert(loffs@[m as int] as int == offset(h, m as int));
        assert(start <= isize::MAX);
        let end = start + qlen;
        let ghost starts = offsets_at(h, done);
        let ghost starts1 = offsets_at(h, done.push(m as int));
        assert(starts1 =~= starts.push(start as int));
        assert(starts1.drop_last() =~= starts);
        let ks = index_of_offset(&toffs, start);
        let ke = index_of_offset(&toffs, end);
        if ks.is_none() || ke.is_none() {
            proof {
                let sb = start as int;
                let eb = end as int;
                if ks is None {
                    assert forall|k: int| 0 <= k <= t.len() implies offset(t, k) != sb by {
                        assert(toffs@[k] as int == offset(t, k));
                    }
                } else {
                    assert(ke is None);
                    assert forall|k: int| 0 <= k <= t.len() implies offset(t, k) != eb by {
                        assert(toffs@[k] as int == offset(t, k));
                    }
                }
                assert(!at_boundary(t, sb) || !at_boundary(t, eb));
                assert(eb == sb + ql);
                assert(starts1.last() == sb);
                assert(cut_all(t, starts1, ql) == cut_step(t, cut_all(t, starts, ql), sb, ql));
                assert(cut_all(t, starts1, ql) is None);
                let rest = offsets_at(h, match_chars(h, n, next as int));
                lemma_cut_stays_failed(t, starts1, rest, ql);
                assert(match_offsets(text@, query@) =~= starts1 + rest);
            }
            return None;
        }
        let ks = ks.unwrap();
        let ke = ke.unwrap();
        proof {
            if ke < ks {
                lemma_offset_grows(t, ke as int, ks as int);
            }
            if start > last && ks <= last_k {
                if ks < last_k {
                    lemma_offset_grows(t, ks as int, last_k as int);
                }
            }
            assert(toffs@[ks as int] as int == offset(t, ks as int));
            assert(toffs@[ke as int] as int == offset(t, ke as int));
            assert(at_boundary(t, start as int));
            assert(at_boundary(t, end as int));
        }
        let ghost before = piece_bytes(pieces@);
        if start > last {
            let p = piece(&tv, last_k, ks);
            pieces.push((false, p));
        }
        let p = piece(&tv, ks, ke);
        pieces.push((true, p));
        proof {
            let tb = encode_utf8(t);
            let plain = if start > last {
                before.push((false, tb.subrange(last as int, start as int)))
            } else {
                before
            };
            assert(piece_bytes(pieces@) =~= plain.push((true, tb.subrange(start as int, end as int))));
            assert(done.push(m as int) + match_chars(h, n, next as int) =~= done + (seq![m as int]
                + match_chars(h, n, next as int)));
            done = done.push(m as int);
        }
        last = end;
        last_k = ke;
        pos = next;
    }
    proof {
        assert(done + match_chars(h, n, pos as int) =~= done);
        assert(match_offsets(text@, query@) =~= offsets_at(h, done));
        assert(offset(t, t.len() as int) == tlen) by {
            assert(t.take(t.len() as int) =~= t);
        }
    }
    if last < tlen {
        proof {
            if tv.len() <= last_k {
                assert(last_k == t.len());
                assert(t.take(t.len() as int) =~= t);
            }
        }
        if last_k < tv.len() {
            proof {
                assert(t.take(t.len() as int) =~= t);
            }
        }
        let ghost before = piece_bytes(pieces@);
        let p = piece(&tv, last_k, tv.len());
        pieces.push((false, p));
        proof {
            assert(t.take(t.len() as int) =~= t);
            assert(piece_bytes(pieces@) =~= before.push(
                (false, encode_utf8(t).subrange(last as int, encode_utf8(t).len() as int)),
            ));
        }
    }
    if pieces.len() == 0 {
        pieces.push((false, String::from_str(text)));
        assert(piece_bytes(pieces@) =~= seq![(false, encode_utf8(text@))]);
    }
    Some(pieces)
}

/// The bytes of the pieces, put back together in order.
pub open spec fn joined(ps: Seq<(bool, Seq<u8>)>) -> Seq<u8>
    decreases ps.len(),
{
    if ps.len() == 0 {
        Seq::empty()
    } else {
        joined(ps.drop_last()) + ps.last().1
    }
}

/// One plain piece puts together to its bytes.
proof fn lemma_joined_one(b: Seq<u8>)
    ensures
        joined(seq![(false, b)]) == b,
{
    let r = seq![(false, b)];
    assert(r.drop_last() =~= Seq::<(bool, Seq<u8>)>::empty());
    assert(joined(r.drop_last()) == Seq::<u8>::empty());
    assert(r.last() == (false, b));
    assert(Seq::<u8>::empty() + b =~= b);
}

/// The offsets are at least `qlen` apart, in order.
pub open spec fn spaced(starts: Seq<int>, qlen: int) -> bool {
    forall|i: int, j: int| 0 <= i < j < starts.len() ==> starts[i] + qlen <= starts[j]
}

/// A character offset lies within the encoding.
proof fn lemma_offset_bound(t: Seq<char>, k: int)
    requires
        0 <= k <= t.len(),
    ensures
        0 <= offset(t, k) <= encode_utf8(t).len(),
{
    assert(t =~= t.take(k) + t.skip(k));
    lemma_encode_concat(t.take(k), t.skip(k));
}

/// Cutting at spaced matches leaves pieces that put together give the row
/// up to where the last match ended.
proof fn lemma_cut_joined(t: Seq<char>, starts: Seq<int>, qlen: int)
    requires
        qlen >= 0,
        spaced(starts, qlen),
    ensures
        cut_all(t, starts, qlen) matches Some((ps, last)) ==> {
            &&& 0 <= last <= encode_utf8(t).len()
            &&& joined(ps) == encode_utf8(t).subrange(0, last)
            &&& (starts.len() > 0 ==> last == starts.last() + qlen)
            &&& (starts.len() == 0 ==> last == 0)
        },
    decreases starts.len(),
{
    let tb = encode_utf8(t);
    if starts.len() == 0 {
        assert(joined(Seq::<(bool, Seq<u8>)>::empty()) =~= tb.subrange(0, 0));
    } else {
        let prev = starts.drop_last();
        assert(spaced(prev, qlen)) by {
            assert forall|i: int, j: int| 0 <= i < j < prev.len() implies prev[i] + qlen <= prev[j] by {
                assert(prev[i] == starts[i] && prev[j] == starts[j]);
            }
        }
        lemma_cut_joined(t, prev, qlen);
        if let Some((ps0, last0)) = cut_all(t, prev, qlen) {
            let start = starts.last();
            let end = start + qlen;
            if at_boundary(t, start) && at_boundary(t, end) && start <= end {
                let ks = choose|k: int| 0 <= k <= t.len() && offset(t, k) == start;
                let ke = choose|k: int| 0 <= k <= t.len() && offset(t, k) == end;
                lemma_offset_bound(t, ks);
                lemma_offset_bound(t, ke);
                if prev.len() > 0 {
                    assert(prev.last() == starts[prev.len() - 1]);
                    assert(starts[prev.len() - 1] + qlen <= starts[starts.len() - 1]);
                }
                assert(last0 <= start);
                let plain = if start > last0 {
                    ps0.push((false, tb.subrange(last0, start)))
                } else {
                    ps0
                };
                let ps = plain.push((true, tb.subrange(start, end)));
                assert(ps.drop_last() == plain);
                if start > last0 {
                    assert(plain.drop_last() == ps0);
                    assert(joined(plain) == tb.subrange(0, last0) + tb.subrange(last0, start));
                    assert(tb.subrange(0, last0) + tb.subrange(last0, start) =~= tb.subrange(0, start));
                } else {
                    assert(tb.subrange(0, last0) =~= tb.subrange(0, start));
                }
                assert(joined(ps) == joined(plain) + tb.subrange(start, end));
                assert(tb.subrange(0, start) + tb.subrange(start, end) =~= tb.subrange(0, end));
            }
        }
    }
}

/// The matches of a non-empty pattern found from index `i` lie in order, a
/// pattern's length apart, each where the pattern occurs.
proof fn lemma_match_chars_spaced(h: Seq<char>, n: Seq<char>, i: int)
    requires
        n.len() > 0,
        0 <= i,
    ensures
        forall|a: int| 0 <= a < match_chars(h, n, i).len() ==> {
            let k = #[trigger] match_chars(h, n, i)[a];
            i <= k && occurs_at(h, n, k)
        },
        forall|a: int, b: int| 0 <= a < b < match_chars(h, n, i).len() ==> #[trigger] match_chars(h, n, i)[a] + n.len()
            <= #[trigger] match_chars(h, n, i)[b],
    decreases h.len() + 1 - i,
{
    if i <= h.len() {
        lemma_find_from(h, n, i);
        if let Some(k) = find_from(h, n, i) {
            lemma_match_chars_spaced(h, n, k + n.len());
            let rest = match_chars(h, n, k + n.len());
            let m = match_chars(h, n, i);
            assert(m == seq![k] + rest);
            assert forall|a: int| 0 <= a < m.len() implies i <= #[trigger] m[a] && occurs_at(h, n, m[a]) by {
                if a > 0 {
                    assert(m[a] == rest[a - 1]);
                }
            }
            assert forall|a: int, b: int| 0 <= a < b < m.len() implies #[trigger] m[a] + n.len() <= #[trigger] m[b] by {
                assert(m[b] == rest[b - 1]);
                if a > 0 {
                    assert(m[a] == rest[a - 1]);
                }
            }
        }
    }
}

/// Byte offsets of matches a pattern's length apart are the pattern's
/// encoding apart.
proof fn lemma_offsets_spaced(h: Seq<char>, n: Seq<char>, k1: int, k2: int)
    requires
        0 <= k1,
        k1 + n.len() <= k2 <= h.len(),
        occurs_at(h, n, k1),
    ensures
        offset(h, k1) + encode_utf8(n).len() <= offset(h, k2),
{
    let a = h.take(k1);
    let b = h.subrange(k1, k1 + n.len());
    let c = h.subrange(k1 + n.len(), k2);
    assert(h.take(k2) =~= a + b + c);
    lemma_encode_concat(a, b);
    lemma_encode_concat(a + b, c);
}

/// Where lowercasing keeps the query's length in bytes (as for an ASCII
/// query), the pieces of a row put back together give the row again,
/// whenever the row can be cut.
pub proof fn law_highlight_rejoins(text: Seq<char>, query: Seq<char>)
    requires
        encode_utf8(lowercase(query)).len() == encode_utf8(query).len(),
        highlight_pieces(text, query) is Some,
    ensures
        joined(highlight_pieces(text, query)->0) == encode_utf8(text),
{
    let tb = encode_utf8(text);
    if query.len() == 0 {
        lemma_joined_one(tb);
    } else {
        let lt = lowercase(text);
        let lq = lowercase(query);
        let qlen = encode_utf8(query).len() as int;
        assert(encode_utf8(query).len() > 0) by {
            assert(encode_utf8(query) =~= encode_utf8(seq![query[0]]) + encode_utf8(query.drop_first())) by {
                assert(query =~= seq![query[0]] + query.drop_first());
                lemma_encode_concat(seq![query[0]], query.drop_first());
            }
            crate::text::lemma_chars_at_most_bytes(seq![query[0]]);
        }
        assert(lq.len() > 0);
        let ms = match_chars(lt, lq, 0);
        let starts = offsets_at(lt, ms);
        lemma_match_chars_spaced(lt, lq, 0);
        assert(spaced(starts, qlen)) by {
            assert forall|i: int, j: int| 0 <= i < j < starts.len() implies starts[i] + qlen <= starts[j] by {
                assert(ms[i] + lq.len() <= ms[j]);
                assert(occurs_at(lt, lq, ms[i]));
                assert(occurs_at(lt, lq, ms[j]));
                lemma_offsets_spaced(lt, lq, ms[i], ms[j]);
            }
        }
        lemma_cut_joined(text, starts, qlen);
        let (ps, last) = cut_all(text, starts, qlen)->0;
        if last < tb.len() {
            let all = ps.push((false, tb.subrange(last, tb.len() as int)));
            assert(all.drop_last() == ps);
            assert(tb.subrange(0, last) + tb.subrange(last, tb.len() as int) =~= tb);
        } else {
            assert(tb.subrange(0, last) =~= tb);
            if ps.len() == 0 {
                lemma_joined_one(tb);
            }
        }
    }
}

/// Where the search for the next match starts: at `i` for the first one,
/// right at the end of the previous match for the others.
pub open spec fn search_start(m: Seq<int>, n: Seq<char>, i: int, a: int) -> int {
    if a == 0 {
        i
    } else {
        m[a - 1] + n.len()
    }
}

/// The matches are the leftmost non-overlapping occurrences, as
/// `str::match_indices` finds them: each match is an occurrence; no
/// occurrence starts between where the search for a match starts (the
/// start, or the end of the previous match) and the match; and none starts
/// at or after the end of the last match.
pub proof fn law_matches_leftmost(h: Seq<char>, n: Seq<char>, i: int)
    requires
        n.len() > 0,
        0 <= i,
    ensures
        ({
            let m = match_chars(h, n, i);
            &&& forall|a: int| 0 <= a < m.len() ==> occurs_at(h, n, #[trigger] m[a])
            &&& forall|a: int, j: int|
                0 <= a < m.len() && search_start(m, n, i, a) <= j < #[trigger] m[a] ==> !#[trigger] occurs_at(h, n, j)
            &&& forall|j: int| search_start(m, n, i, m.len() as int) <= j ==> !#[trigger] occurs_at(h, n, j)
        }),
    decreases h.len() + 1 - i,
{
    let m = match_chars(h, n, i);
    if i > h.len() {
        assert(m.len() == 0);
    } else {
        lemma_find_from(h, n, i);
        match find_from(h, n, i) {
            None => {
                assert(m.len() == 0);
            },
            Some(k) => {
                law_matches_leftmost(h, n, k + n.len());
                let rest = match_chars(h, n, k + n.len());
                assert(m == seq![k] + rest);
                assert forall|a: int| 0 <= a < m.len() implies occurs_at(h, n, #[trigger] m[a]) by {
                    if a > 0 {
                        assert(m[a] == rest[a - 1]);
                    }
                }
                assert forall|a: int, j: int|
                    0 <= a < m.len() && search_start(m, n, i, a) <= j < #[trigger] m[a] implies !#[trigger] occurs_at(
                        h,
                        n,
                        j,
                    ) by {
                    if a > 0 {
                        assert(m[a] == rest[a - 1]);
                        assert(search_start(m, n, i, a) == search_start(rest, n, k + n.len(), a - 1)) by {
                            if a > 1 {
                                assert(m[a - 1] == rest[a - 2]);
                            }
                        }
                    }
                }
                assert forall|j: int| search_start(m, n, i, m.len() as int) <= j implies !#[trigger] occurs_at(h, n, j) by {
                    if rest.len() > 0 {
                        assert(m[m.len() - 1] == rest[rest.len() - 1]);
                        assert(search_start(m, n, i, m.len() as int) == search_start(rest, n, k + n.len(), rest.len() as int));
                    }
                }
            },
        }
    }
}

/// The bytes of the highlighted pieces, in order.
pub open spec fn marked(ps: Seq<(bool, Seq<u8>)>) -> Seq<Seq<u8>>
    decreases ps.len(),
{
    if ps.len() == 0 {
        Seq::empty()
    } else if ps.last().0 {
        marked(ps.drop_last()).push(ps.last().1)
    } else {
        marked(ps.drop_last())
    }
}

/// The bytes of the row from each of the offsets, as long as the query.
pub open spec fn match_bytes(t: Seq<char>, starts: Seq<int>, qlen: int) -> Seq<Seq<u8>> {
    starts.map_values(|s: int| encode_utf8(t).subrange(s, s + qlen))
}

/// Cutting highlights one piece per match, the row's bytes at the match.
proof fn lemma_cut_marked(t: Seq<char>, starts: Seq<int>, qlen: int)
    ensures
        cut_all(t, starts, qlen) matches Some((ps, last)) ==> marked(ps) == match_bytes(t, starts, qlen),
    decreases starts.len(),
{
    if starts.len() == 0 {
        assert(match_bytes(t, starts, qlen) =~= Seq::<Seq<u8>>::empty());
    } else {
        let prev = starts.drop_last();
        lemma_cut_marked(t, prev, qlen);
        if let Some((ps0, last0)) = cut_all(t, prev, qlen) {
            let tb = encode_utf8(t);
            let start = starts.last();
            let end = start + qlen;
            if at_boundary(t, start) && at_boundary(t, end) && start <= end {
                let plain = if start > last0 {
                    ps0.push((false, tb.subrange(last0, start)))
                } else {
                    ps0
                };
                if start > last0 {
                    assert(plain.drop_last() == ps0);
                }
                assert(marked(plain) == marked(ps0));
                let ps = plain.push((true, tb.subrange(start, end)));
                assert(ps.drop_last() == plain);
                assert(match_bytes(t, starts, qlen) =~= match_bytes(t, prev, qlen).push(tb.subrange(start, end)));
            }
        }
    }
}

/// The highlighted pieces of a row are exactly the row's bytes at each
/// match of the query (as long as the query as typed), one per match, in
/// order: every match found is highlighted, and nothing else is.
pub proof fn law_highlight_marks_matches(text: Seq<char>, query: Seq<char>)
    requires
        query.len() > 0,
        highlight_pieces(text, query) is Some,
    ensures
        marked(highlight_pieces(text, query)->0) == match_bytes(
            text,
            match_offsets(text, query),
            encode_utf8(query).len() as int,
        ),
{
    let tb = encode_utf8(text);
    let starts = match_offsets(text, query);
    let qlen = encode_utf8(query).len() as int;
    lemma_cut_marked(text, starts, qlen);
    let (ps, last) = cut_all(text, starts, qlen)->0;
    if last < tb.len() {
        let all = ps.push((false, tb.subrange(last, tb.len() as int)));
        assert(all.drop_last() == ps);
    } else if ps.len() == 0 {
        let r = seq![(false, tb)];
        assert(r.drop_last() =~= Seq::<(bool, Seq<u8>)>::empty());
        assert(marked(r) == marked(r.drop_last()));
        assert(match_bytes(text, starts, qlen).len() == 0);
        assert(match_bytes(text, starts, qlen) =~= Seq::<Seq<u8>>::empty());
    }
}

} // verus!
