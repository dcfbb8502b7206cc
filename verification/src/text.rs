//! Character-level text utilities shared by the extractors and adapters.
//!
//! All scanning logic in this crate works on `Vec<char>` so that contracts
//! can speak of `Seq<char>` views directly.

use vstd::prelude::*;
use vstd::string::StrSliceExecFns;

verus! {

/// A blank character: the Unicode White_Space set, as the normalizers,
/// trimmers and date scanners treat whitespace.
pub open spec fn is_space(c: char) -> bool {
    ||| c == ' '
    ||| ('\u{0009}' <= c && c <= '\u{000D}')
    ||| c == '\u{0085}'
    ||| c == '\u{00A0}'
    ||| c == '\u{1680}'
    ||| ('\u{2000}' <= c && c <= '\u{200A}')
    ||| c == '\u{2028}'
    ||| c == '\u{2029}'
    ||| c == '\u{202F}'
    ||| c == '\u{205F}'
    ||| c == '\u{3000}'
}

/// Executable mirror of [`is_space`].
pub fn is_space_char(c: char) -> (r: bool)
    ensures
        r == is_space(c),
{
    c == ' ' || ('\u{0009}' <= c && c <= '\u{000D}') || c == '\u{0085}' || c == '\u{00A0}' || c
        == '\u{1680}' || ('\u{2000}' <= c && c <= '\u{200A}') || c == '\u{2028}' || c
        == '\u{2029}' || c == '\u{202F}' || c == '\u{205F}' || c == '\u{3000}'
}

/// The characters of a string, in order.
pub fn chars_of(s: &str) -> (v: Vec<char>)
    ensures
        v@ == s@,
{
    let n = s.unicode_len();
    let mut v: Vec<char> = Vec::new();
    let mut i: usize = 0;
    while i < n
        invariant
            n == s@.len(),
            i <= n,
            v@ == s@.subrange(0, i as int),
        decreases n - i,
    {
        v.push(s.get_char(i));
        i += 1;
        proof {
            assert(v@ =~= s@.subrange(0, i as int));
        }
    }
    proof {
        assert(v@ =~= s@);
    }
    v
}

/// `n` occurs in `h` starting at position `i`.
pub open spec fn matches_at(h: Seq<char>, n: Seq<char>, i: int) -> bool {
    0 <= i && i + n.len() <= h.len() && h.subrange(i, i + n.len()) == n
}

/// `n` occurs somewhere in `h` (the empty sequence occurs in everything).
pub open spec fn contains_seq(h: Seq<char>, n: Seq<char>) -> bool {
    exists|i: int| matches_at(h, n, i)
}

/// Whether the characters of `h` starting at `i` are exactly `n`.
pub fn matches_at_exec(h: &Vec<char>, n: &Vec<char>, i: usize) -> (r: bool)
    requires
        i + n@.len() <= h@.len(),
    ensures
        r == matches_at(h@, n@, i as int),
{
    let hlen = h.len();
    let mut j: usize = 0;
    while j < n.len()
        invariant
            hlen == h@.len(),
            i + n@.len() <= h@.len(),
            j <= n@.len(),
            forall|k: int| 0 <= k < j ==> h@[i + k] == n@[k],
        decreases n@.len() - j,
    {
        if h[i + j] != n[j] {
            proof {
                assert(h@.subrange(i as int, i + n@.len()) != n@) by {
                    assert(h@.subrange(i as int, i + n@.len())[j as int] != n@[j as int]);
                }
            }
            return false;
        }
        j += 1;
    }
    proof {
        assert(h@.subrange(i as int, i + n@.len()) =~= n@);
    }
    true
}

/// Position of the first occurrence of `n` in `h`, if any.
pub fn index_of_sub(h: &Vec<char>, n: &Vec<char>) -> (r: Option<usize>)
    ensures
        match r {
            Some(i) => matches_at(h@, n@, i as int) && forall|k: int|
                0 <= k < i ==> !matches_at(h@, n@, k),
            None => !contains_seq(h@, n@),
        },
{
    if n.len() > h.len() {
        return None;
    }
    if n.len() == 0 {
        proof {
            assert(h@.subrange(0, 0) =~= n@);
        }
        return Some(0);
    }
    let mut i: usize = 0;
    while i <= h.len() - n.len()
        invariant
            1 <= n@.len() <= h@.len(),
            i <= h@.len() - n@.len() + 1,
            forall|k: int| 0 <= k < i ==> !matches_at(h@, n@, k),
        decreases h@.len() - n@.len() - i + 1,
    {
        if matches_at_exec(h, n, i) {
            return Some(i);
        }
        i += 1;
    }
    None
}

/// Whether `n` occurs in `h`.
pub fn contains_sub(h: &Vec<char>, n: &Vec<char>) -> (r: bool)
    ensures
        r == contains_seq(h@, n@),
{
    index_of_sub(h, n).is_some()
}

/// Whether two character vectors hold the same characters.
pub fn seq_eq(a: &Vec<char>, b: &Vec<char>) -> (r: bool)
    ensures
        r == (a@ == b@),
{
    if a.len() != b.len() {
        return false;
    }
    let mut i: usize = 0;
    while i < a.len()
        invariant
            a@.len() == b@.len(),
            i <= a@.len(),
            forall|k: int| 0 <= k < i ==> a@[k] == b@[k],
        decreases a@.len() - i,
    {
        if a[i] != b[i] {
            return false;
        }
        i += 1;
    }
    proof {
        assert(a@ =~= b@);
    }
    true
}

/// The sequence without its leading blank characters.
pub open spec fn trim_left_spec(s: Seq<char>) -> Seq<char>
    decreases s.len(),
{
    if s.len() > 0 && is_space(s[0]) {
        trim_left_spec(s.drop_first())
    } else {
        s
    }
}

/// The sequence without its trailing blank characters.
pub open spec fn trim_right_spec(s: Seq<char>) -> Seq<char>
    decreases s.len(),
{
    if s.len() > 0 && is_space(s[s.len() - 1]) {
        trim_right_spec(s.drop_last())
    } else {
        s
    }
}

/// The sequence without leading and trailing blank characters.
pub open spec fn trim_spec(s: Seq<char>) -> Seq<char> {
    trim_right_spec(trim_left_spec(s))
}

proof fn lemma_trim_left_range(s: Seq<char>, i: int)
    requires
        0 <= i <= s.len(),
        forall|k: int| 0 <= k < i ==> is_space(s[k]),
    ensures
        trim_left_spec(s) == trim_left_spec(s.subrange(i, s.len() as int)),
    decreases i,
{
    if i > 0 {
        assert(is_space(s[0]));
        assert(s.drop_first() =~= s.subrange(1, s.len() as int));
        let t = s.subrange(1, s.len() as int);
        lemma_trim_left_range(t, i - 1);
        assert(t.subrange(i - 1, t.len() as int) =~= s.subrange(i, s.len() as int));
    } else {
        assert(s.subrange(0, s.len() as int) =~= s);
    }
}

proof fn lemma_trim_right_range(s: Seq<char>, j: int)
    requires
        0 <= j <= s.len(),
        forall|k: int| j <= k < s.len() ==> is_space(s[k]),
    ensures
        trim_right_spec(s) == trim_right_spec(s.subrange(0, j)),
    decreases s.len() - j,
{
    if j < s.len() {
        assert(is_space(s[s.len() - 1]));
        assert(s.drop_last() =~= s.subrange(0, s.len() - 1));
        let t = s.subrange(0, s.len() - 1);
        lemma_trim_right_range(t, j);
        assert(t.subrange(0, j) =~= s.subrange(0, j));
    } else {
        assert(s.subrange(0, s.len() as int) =~= s);
    }
}

/// Where the leading blanks end, the left trim starts.
pub proof fn lemma_trim_left_at(s: Seq<char>, i: int)
    requires
        0 <= i <= s.len(),
        forall|k: int| 0 <= k < i ==> is_space(s[k]),
        i == s.len() || !is_space(s[i]),
    ensures
        trim_left_spec(s) == s.subrange(i, s.len() as int),
{
    lemma_trim_left_range(s, i);
    if i < s.len() {
        assert(!is_space(s.subrange(i, s.len() as int)[0]));
    }
}

/// The characters of `v` with leading and trailing blanks removed.
pub fn trim_chars(v: &Vec<char>) -> (r: Vec<char>)
    ensures
        r@ == trim_spec(v@),
{
    let mut lo: usize = 0;
    while lo < v.len() && is_space_char(v[lo])
        invariant
            lo <= v@.len(),
            forall|k: int| 0 <= k < lo ==> is_space(v@[k]),
        decreases v@.len() - lo,
    {
        lo += 1;
    }
    proof {
        lemma_trim_left_range(v@, lo as int);
        if lo < v@.len() {
            assert(!is_space(v@.subrange(lo as int, v@.len() as int)[0]));
        }
        assert(trim_left_spec(v@) == v@.subrange(lo as int, v@.len() as int));
    }
    let mut hi: usize = v.len();
    while hi > lo && is_space_char(v[hi - 1])
        invariant
            lo <= hi <= v@.len(),
            forall|k: int| hi <= k < v@.len() ==> is_space(v@[k]),
        decreases hi,
    {
        hi -= 1;
    }
    let ghost left = v@.subrange(lo as int, v@.len() as int);
    proof {
        lemma_trim_right_range(left, hi - lo);
        if hi > lo {
            assert(left.subrange(0, hi - lo)[hi - lo - 1] == v@[hi - 1]);
            assert(!is_space(left.subrange(0, hi - lo)[hi - lo - 1]));
        }
        assert(trim_right_spec(left) == left.subrange(0, hi - lo));
    }
    let mut r: Vec<char> = Vec::new();
    let mut i: usize = lo;
    while i < hi
        invariant
            lo <= i <= hi <= v@.len(),
            r@ == v@.subrange(lo as int, i as int),
        decreases hi - i,
    {
        r.push(v[i]);
        i += 1;
        proof {
            assert(r@ =~= v@.subrange(lo as int, i as int));
        }
    }
    proof {
        assert(left.subrange(0, hi - lo) =~= v@.subrange(lo as int, hi as int));
    }
    r
}

/// The leading run of non-blank characters.
pub open spec fn take_word(s: Seq<char>) -> Seq<char>
    decreases s.len(),
{
    if s.len() == 0 || is_space(s[0]) {
        Seq::empty()
    } else {
        seq![s[0]] + take_word(s.drop_first())
    }
}

pub proof fn lemma_take_word_len(s: Seq<char>)
    ensures
        take_word(s).len() <= s.len(),
        s.len() > 0 && !is_space(s[0]) ==> take_word(s).len() >= 1,
    decreases s.len(),
{
    if s.len() > 0 && !is_space(s[0]) {
        lemma_take_word_len(s.drop_first());
    }
}

/// The blank-separated words of `s`, in order, without empties.
pub open spec fn words(s: Seq<char>) -> Seq<Seq<char>>
    decreases s.len(),
{
    if s.len() == 0 {
        Seq::empty()
    } else if is_space(s[0]) {
        words(s.drop_first())
    } else {
        proof {
            lemma_take_word_len(s);
        }
        seq![take_word(s)] + words(s.skip(take_word(s).len() as int))
    }
}

/// The parts joined by `sep`.
pub open spec fn join_with(ws: Seq<Seq<char>>, sep: Seq<char>) -> Seq<char>
    decreases ws.len(),
{
    if ws.len() == 0 {
        Seq::empty()
    } else if ws.len() == 1 {
        ws[0]
    } else {
        ws[0] + sep + join_with(ws.drop_first(), sep)
    }
}

/// Whitespace normalization: the words of `s` joined by single spaces.
/// Runs of blanks collapse to one space and the ends are trimmed.
pub open spec fn norm_ws(s: Seq<char>) -> Seq<char> {
    join_with(words(s), seq![' '])
}

proof fn lemma_words_skip_space(s: Seq<char>, i: int)
    requires
        0 <= i < s.len(),
        is_space(s[i]),
        words(s) == words(s.skip(i)),
    ensures
        words(s) == words(s.skip(i + 1)),
{
    let t = s.skip(i);
    assert(t.len() > 0 && is_space(t[0]));
    assert(t.drop_first() =~= s.skip(i + 1));
}

proof fn lemma_take_word_range(s: Seq<char>, k: int)
    requires
        0 <= k <= s.len(),
        forall|m: int| 0 <= m < k ==> !is_space(s[m]),
        k == s.len() || is_space(s[k]),
    ensures
        take_word(s) == s.subrange(0, k),
    decreases k,
{
    if k == 0 {
        assert(s.subrange(0, 0) =~= Seq::<char>::empty());
    } else {
        assert(!is_space(s[0]));
        let t = s.drop_first();
        assert(t =~= s.subrange(1, s.len() as int));
        lemma_take_word_range(t, k - 1);
        assert(seq![s[0]] + t.subrange(0, k - 1) =~= s.subrange(0, k));
    }
}

pub proof fn lemma_join_snoc(ws: Seq<Seq<char>>, sep: Seq<char>)
    requires
        ws.len() >= 2,
    ensures
        join_with(ws, sep) == join_with(ws.drop_last(), sep) + sep + ws.last(),
    decreases ws.len(),
{
    if ws.len() == 2 {
        assert(ws.drop_first().len() == 1);
        assert(join_with(ws.drop_first(), sep) == ws[1]);
        assert(ws.drop_last().len() == 1);
        assert(join_with(ws.drop_last(), sep) == ws.drop_last()[0]);
        assert(ws.drop_last()[0] == ws[0]);
    } else {
        let tail = ws.drop_first();
        lemma_join_snoc(tail, sep);
        assert(tail.drop_last() =~= ws.drop_last().drop_first());
        assert(ws.drop_last().len() >= 2);
        assert(join_with(ws.drop_last(), sep) == ws.drop_last()[0] + sep + join_with(
            ws.drop_last().drop_first(),
            sep,
        ));
        assert(ws.drop_last()[0] == ws[0]);
        assert(tail.last() == ws.last());
        assert(ws[0] + sep + (join_with(tail.drop_last(), sep) + sep + tail.last()) =~= (ws[0]
            + sep + join_with(tail.drop_last(), sep)) + sep + ws.last());
    }
}

/// Joins the parts with the separator.
pub fn join_parts(parts: &Vec<Vec<char>>, sep: &Vec<char>) -> (r: Vec<char>)
    ensures
        r@ == join_with(parts@.map_values(|w: Vec<char>| w@), sep@),
{
    let mut out: Vec<char> = Vec::new();
    if parts.len() == 0 {
        return out;
    }
    proof {
        assert(parts@.map_values(|w: Vec<char>| w@).subrange(0, 1) =~= seq![parts@[0]@]);
    }
    push_all(&mut out, &parts[0]);
    let mut idx: usize = 1;
    while idx < parts.len()
        invariant
            1 <= idx <= parts@.len(),
            out@ == join_with(parts@.map_values(|w: Vec<char>| w@).subrange(0, idx as int), sep@),
        decreases parts@.len() - idx,
    {
        push_all(&mut out, sep);
        push_all(&mut out, &parts[idx]);
        idx += 1;
        proof {
            let m = parts@.map_values(|w: Vec<char>| w@);
            let pre = m.subrange(0, idx as int);
            assert(pre.len() >= 2);
            lemma_join_snoc(pre, sep@);
            assert(pre.drop_last() =~= m.subrange(0, idx - 1));
            assert(pre.last() == parts@[idx - 1]@);
        }
    }
    proof {
        assert(parts@.map_values(|w: Vec<char>| w@).subrange(
            0,
            parts@.len() as int,
        ) =~= parts@.map_values(|w: Vec<char>| w@));
    }
    out
}

/// The characters `t[from..to)` as a new vector.
pub fn copy_range(t: &Vec<char>, from: usize, to: usize) -> (r: Vec<char>)
    requires
        from <= to <= t@.len(),
    ensures
        r@ == t@.subrange(from as int, to as int),
{
    let mut r: Vec<char> = Vec::new();
    let mut i = from;
    while i < to
        invariant
            from <= i <= to <= t@.len(),
            r@ == t@.subrange(from as int, i as int),
        decreases to - i,
    {
        r.push(t[i]);
        i += 1;
        proof {
            assert(r@ =~= t@.subrange(from as int, i as int));
        }
    }
    r
}

/// Appends all characters of `src` to `dst`.
pub fn push_all(dst: &mut Vec<char>, src: &Vec<char>)
    ensures
        final(dst)@ == old(dst)@ + src@,
{
    let mut i: usize = 0;
    while i < src.len()
        invariant
            i <= src@.len(),
            dst@ == old(dst)@ + src@.subrange(0, i as int),
        decreases src@.len() - i,
    {
        dst.push(src[i]);
        i += 1;
        proof {
            assert(dst@ =~= old(dst)@ + src@.subrange(0, i as int));
        }
    }
    proof {
        assert(old(dst)@ + src@.subrange(0, src@.len() as int) =~= old(dst)@ + src@);
    }
}

/// Splits `v` into its blank-separated words.
fn split_words(v: &Vec<char>) -> (r: Vec<Vec<char>>)
    ensures
        r@.map_values(|w: Vec<char>| w@) == words(v@),
{
    let mut r: Vec<Vec<char>> = Vec::new();
    let mut i: usize = 0;
    proof {
        assert(v@.skip(0) =~= v@);
    }
    while i < v.len()
        invariant
            i <= v@.len(),
            words(v@) == r@.map_values(|w: Vec<char>| w@) + words(v@.skip(i as int)),
        decreases v@.len() - i,
    {
        if is_space_char(v[i]) {
            proof {
                let t = v@.skip(i as int);
                assert(t.len() > 0 && is_space(t[0]));
                assert(t.drop_first() =~= v@.skip(i as int + 1));
            }
            i += 1;
        } else {
            let start = i;
            let mut w: Vec<char> = Vec::new();
            while i < v.len() && !is_space_char(v[i])
                invariant
                    start <= i <= v@.len(),
                    w@ == v@.subrange(start as int, i as int),
                    forall|m: int| start <= m < i ==> !is_space(v@[m]),
                decreases v@.len() - i,
            {
                w.push(v[i]);
                i += 1;
                proof {
                    assert(w@ =~= v@.subrange(start as int, i as int));
                }
            }
            proof {
                let t = v@.skip(start as int);
                assert forall|m: int| 0 <= m < i - start implies !is_space(t[m]) by {
                    assert(t[m] == v@[start + m]);
                }
                if i < v@.len() {
                    assert(is_space(t[i - start]));
                }
                lemma_take_word_range(t, i - start);
                assert(t.subrange(0, i - start) =~= v@.subrange(start as int, i as int));
                assert(take_word(t) == w@);
                assert(t.len() > 0 && !is_space(t[0]));
                assert(words(t) == seq![take_word(t)] + words(t.skip(take_word(t).len() as int)));
                assert(t.skip(i - start) =~= v@.skip(i as int));
                let prev = r@.map_values(|u: Vec<char>| u@);
                assert(words(v@) == prev + (seq![w@] + words(v@.skip(i as int))));
                assert(prev + (seq![w@] + words(v@.skip(i as int))) =~= (prev + seq![w@]) + words(
                    v@.skip(i as int),
                ));
            }
            let ghost prev_r = r@;
            r.push(w);
            proof {
                assert(r@.map_values(|u: Vec<char>| u@) =~= prev_r.map_values(|u: Vec<char>| u@)
                    + seq![w@]);
            }
        }
    }
    proof {
        assert(words(v@.skip(i as int)) =~= Seq::<Seq<char>>::empty());
        assert(r@.map_values(|w: Vec<char>| w@) + words(v@.skip(i as int)) =~= r@.map_values(
            |w: Vec<char>| w@,
        ));
    }
    r
}

/// Collapses every run of blanks in `v` to a single space and trims the ends.
pub fn collapse_ws(v: &Vec<char>) -> (r: Vec<char>)
    ensures
        r@ == norm_ws(v@),
{
    let ws = split_words(v);
    let mut out: Vec<char> = Vec::new();
    if ws.len() == 0 {
        return out;
    }
    proof {
        assert(ws@.map_values(|w: Vec<char>| w@).subrange(0, 1) =~= seq![ws@[0]@]);
    }
    push_all(&mut out, &ws[0]);
    let mut idx: usize = 1;
    while idx < ws.len()
        invariant
            1 <= idx <= ws@.len(),
            out@ == join_with(ws@.map_values(|w: Vec<char>| w@).subrange(0, idx as int), seq![' ']),
        decreases ws@.len() - idx,
    {
        out.push(' ');
        push_all(&mut out, &ws[idx]);
        idx += 1;
        proof {
            let m = ws@.map_values(|w: Vec<char>| w@);
            let pre = m.subrange(0, idx as int);
            assert(pre.len() >= 2);
            lemma_join_snoc(pre, seq![' ']);
            assert(pre.drop_last() =~= m.subrange(0, idx - 1));
            assert(pre.last() == ws@[idx - 1]@);
        }
    }
    proof {
        assert(ws@.map_values(|w: Vec<char>| w@).subrange(
            0,
            ws@.len() as int,
        ) =~= ws@.map_values(|w: Vec<char>| w@));
    }
    out
}

/// Strict lexicographic order on character sequences, by code point.
pub open spec fn lex_lt(a: Seq<char>, b: Seq<char>) -> bool
    decreases a.len(),
{
    if b.len() == 0 {
        false
    } else if a.len() == 0 {
        true
    } else if a[0] < b[0] {
        true
    } else if a[0] > b[0] {
        false
    } else {
        lex_lt(a.drop_first(), b.drop_first())
    }
}

/// `lex_lt` is a strict total order: exactly one of `a < b`, `b < a`, `a == b`.
pub proof fn lemma_lex_total(a: Seq<char>, b: Seq<char>)
    ensures
        !lex_lt(a, b) && !lex_lt(b, a) ==> a == b,
        lex_lt(a, b) ==> !lex_lt(b, a),
    decreases a.len(),
{
    if a.len() > 0 && b.len() > 0 && a[0] == b[0] {
        lemma_lex_total(a.drop_first(), b.drop_first());
        if !lex_lt(a, b) && !lex_lt(b, a) {
            assert(a =~= seq![a[0]] + a.drop_first());
            assert(b =~= seq![b[0]] + b.drop_first());
        }
    }
}

/// `lex_lt` is transitive.
pub proof fn lemma_lex_trans(a: Seq<char>, b: Seq<char>, c: Seq<char>)
    requires
        lex_lt(a, b),
        lex_lt(b, c),
    ensures
        lex_lt(a, c),
    decreases a.len() + b.len() + c.len(),
{
    if a.len() > 0 && b.len() > 0 && c.len() > 0 && a[0] == b[0] && b[0] == c[0] {
        lemma_lex_trans(a.drop_first(), b.drop_first(), c.drop_first());
    }
}

/// Whether `a` is strictly before `b` in lexicographic order.
pub fn lex_lt_exec(a: &Vec<char>, b: &Vec<char>) -> (r: bool)
    ensures
        r == lex_lt(a@, b@),
{
    let mut i: usize = 0;
    proof {
        assert(a@.skip(0) =~= a@);
        assert(b@.skip(0) =~= b@);
    }
    while i < a.len() && i < b.len()
        invariant
            i <= a@.len(),
            i <= b@.len(),
            lex_lt(a@, b@) == lex_lt(a@.skip(i as int), b@.skip(i as int)),
        decreases a@.len() - i,
    {
        let ca = a[i];
        let cb = b[i];
        if ca < cb {
            return true;
        }
        if ca > cb {
            return false;
        }
        proof {
            let sa = a@.skip(i as int);
            let sb = b@.skip(i as int);
            assert(sa.drop_first() =~= a@.skip(i as int + 1));
            assert(sb.drop_first() =~= b@.skip(i as int + 1));
        }
        i += 1;
    }
    proof {
        if i >= b@.len() {
            assert(b@.skip(i as int).len() == 0);
        } else {
            assert(a@.skip(i as int).len() == 0);
            assert(b@.skip(i as int).len() > 0);
        }
    }
    i < b.len()
}

/// The decimal digit character for `d`.
pub open spec fn digit_char(d: int) -> char {
    if d == 0 {
        '0'
    } else if d == 1 {
        '1'
    } else if d == 2 {
        '2'
    } else if d == 3 {
        '3'
    } else if d == 4 {
        '4'
    } else if d == 5 {
        '5'
    } else if d == 6 {
        '6'
    } else if d == 7 {
        '7'
    } else if d == 8 {
        '8'
    } else {
        '9'
    }
}

/// The decimal representation of `n`, without leading zeros.
pub open spec fn dec_rep(n: nat) -> Seq<char>
    decreases n,
{
    if n < 10 {
        seq![digit_char(n as int)]
    } else {
        dec_rep(n / 10) + seq![digit_char((n % 10) as int)]
    }
}

/// `s` left-padded with zeros to width `w`.
pub open spec fn pad_zeros(s: Seq<char>, w: int) -> Seq<char>
    decreases w - s.len(),
{
    if s.len() >= w {
        s
    } else {
        pad_zeros(seq!['0'] + s, w)
    }
}

fn digit_exec(d: u64) -> (c: char)
    requires
        d < 10,
    ensures
        c == digit_char(d as int),
{
    match d {
        0 => '0',
        1 => '1',
        2 => '2',
        3 => '3',
        4 => '4',
        5 => '5',
        6 => '6',
        7 => '7',
        8 => '8',
        _ => '9',
    }
}

/// The decimal digits of `n`.
pub fn fmt_u64(n: u64) -> (r: Vec<char>)
    ensures
        r@ == dec_rep(n as nat),
    decreases n,
{
    if n < 10 {
        let mut r: Vec<char> = Vec::new();
        r.push(digit_exec(n));
        proof {
            assert(r@ =~= seq![digit_char(n as int)]);
        }
        r
    } else {
        let mut r = fmt_u64(n / 10);
        r.push(digit_exec(n % 10));
        proof {
            assert(r@ =~= dec_rep((n / 10) as nat) + seq![digit_char((n % 10) as int)]);
        }
        r
    }
}

/// The decimal digits of `n`, zero-padded on the left to width `w`.
pub fn fmt_u64_pad(n: u64, w: usize) -> (r: Vec<char>)
    ensures
        r@ == pad_zeros(dec_rep(n as nat), w as int),
{
    let mut r = fmt_u64(n);
    while r.len() < w
        invariant
            pad_zeros(r@, w as int) == pad_zeros(dec_rep(n as nat), w as int),
        decreases w - r@.len(),
    {
        let ghost prev = r@;
        r.insert(0, '0');
        proof {
            assert(r@ =~= seq!['0'] + prev);
        }
    }
    r
}

/// The decimal form of a signed value: a minus sign for negatives.
pub open spec fn dec_rep_i(n: int) -> Seq<char> {
    if n >= 0 {
        dec_rep(n as nat)
    } else {
        seq!['-'] + dec_rep((-n) as nat)
    }
}

/// The decimal digits of a signed value.
pub fn fmt_i64(n: i64) -> (r: Vec<char>)
    ensures
        r@ == dec_rep_i(n as int),
{
    if n >= 0 {
        fmt_u64(n as u64)
    } else {
        let m: i128 = -(n as i128);
        let mut r: Vec<char> = Vec::new();
        r.push('-');
        let digits = fmt_u64(m as u64);
        push_all(&mut r, &digits);
        proof {
            assert(r@ =~= seq!['-'] + dec_rep((-(n as int)) as nat));
        }
        r
    }
}

/// A name for what `str::to_lowercase` returns: the result depends on the
/// characters alone.
pub uninterp spec fn lower_of(s: Seq<char>) -> Seq<char>;

/// Relies on `str::to_lowercase`, which maps the characters of `s` to their
/// Unicode lowercase equivalents; an empty string stays empty.
#[verifier::external_body]
pub fn lowercase(s: &str) -> (r: String)
    ensures
        r@ == lower_of(s@),
        s@.len() == 0 ==> r@.len() == 0,
{
    s.to_lowercase()
}

/// Relies on `Iterator::collect` for `String`, which concatenates exactly the
/// characters of the iterator, in order.
#[verifier::external_body]
pub fn string_of(v: &Vec<char>) -> (s: String)
    ensures
        s@ == v@,
{
    v.iter().collect()
}

} // verus!
