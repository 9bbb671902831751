//! Character-level helpers on strings: equality, prefix and substring tests,
//! lexicographic ordering of keys, and splitting on a separator character.
use vstd::prelude::*;

verus! {

/// `p` is a prefix of `s`.
pub open spec fn starts_with_spec(s: Seq<char>, p: Seq<char>) -> bool {
    p.len() <= s.len() && s.subrange(0, p.len() as int) == p
}

/// `sub` occurs contiguously somewhere in `s`.
pub open spec fn contains_sub(s: Seq<char>, sub: Seq<char>) -> bool {
    exists|i: int|
        0 <= i && i + sub.len() <= s.len() && #[trigger] s.subrange(i, i + sub.len() as int) == sub
}

/// Character-wise string equality.
pub fn str_eq(a: &str, b: &str) -> (r: bool)
    ensures
        r == (a@ == b@),
{
    let alen = a.unicode_len();
    let blen = b.unicode_len();
    if alen != blen {
        return false;
    }
    let mut i: usize = 0;
    while i < alen
        invariant
            i <= alen,
            alen == a@.len(),
            alen == b@.len(),
            forall|j: int| 0 <= j < i ==> a@[j] == b@[j],
        decreases alen - i,
    {
        if a.get_char(i) != b.get_char(i) {
            return false;
        }
        i += 1;
    }
    proof {
        assert(a@ =~= b@);
    }
    true
}

/// Prefix test matching `starts_with_spec`.
pub fn str_starts_with(s: &str, p: &str) -> (r: bool)
    ensures
        r == starts_with_spec(s@, p@),
{
    let slen = s.unicode_len();
    let plen = p.unicode_len();
    if plen > slen {
        return false;
    }
    let mut i: usize = 0;
    while i < plen
        invariant
            i <= plen,
            plen <= slen,
            slen == s@.len(),
            plen == p@.len(),
            forall|j: int| 0 <= j < i ==> s@[j] == p@[j],
        decreases plen - i,
    {
        if s.get_char(i) != p.get_char(i) {
            proof {
                assert(s@.subrange(0, p@.len() as int)[i as int] == s@[i as int]);
            }
            return false;
        }
        i += 1;
    }
    proof {
        assert(s@.subrange(0, p@.len() as int) =~= p@);
    }
    true
}

/// `p` is a suffix of `s`.
pub open spec fn ends_with_spec(s: Seq<char>, p: Seq<char>) -> bool {
    p.len() <= s.len() && s.subrange(s.len() - p.len(), s.len() as int) == p
}

/// Suffix test matching `ends_with_spec`.
pub fn str_ends_with(s: &str, p: &str) -> (r: bool)
    ensures
        r == ends_with_spec(s@, p@),
{
    let slen = s.unicode_len();
    let plen = p.unicode_len();
    if plen > slen {
        return false;
    }
    let off = slen - plen;
    let mut i: usize = 0;
    while i < plen
        invariant
            i <= plen,
            plen <= slen,
            off == slen - plen,
            slen == s@.len(),
            plen == p@.len(),
            forall|j: int| 0 <= j < i ==> s@[off + j] == p@[j],
        decreases plen - i,
    {
        if s.get_char(off + i) != p.get_char(i) {
            proof {
                assert(s@.subrange(s@.len() - p@.len(), s@.len() as int)[i as int] == s@[
                    off + i as int
                ]);
            }
            return false;
        }
        i += 1;
    }
    proof {
        assert(s@.subrange(s@.len() - p@.len(), s@.len() as int) =~= p@);
    }
    true
}

/// The characters of `s` from `i` on are `sub`.
fn match_at(s: &str, slen: usize, i: usize, sub: &str) -> (r: bool)
    requires
        slen == s@.len(),
        i + sub@.len() <= slen,
    ensures
        r == (s@.subrange(i as int, i as int + sub@.len() as int) == sub@),
{
    let sublen = sub.unicode_len();
    let mut j: usize = 0;
    while j < sublen
        invariant
            j <= sublen,
            sublen == sub@.len(),
            slen == s@.len(),
            i + sublen <= slen,
            forall|k: int| 0 <= k < j ==> s@[i + k] == sub@[k],
        decreases sublen - j,
    {
        if s.get_char(i + j) != sub.get_char(j) {
            proof {
                assert(s@.subrange(i as int, i as int + sub@.len() as int)[j as int] == s@[
                    i + j as int
                ]);
            }
            return false;
        }
        j += 1;
    }
    proof {
        assert(s@.subrange(i as int, i as int + sub@.len() as int) =~= sub@);
    }
    true
}

/// Substring test matching `contains_sub`.
pub fn str_contains(s: &str, sub: &str) -> (r: bool)
    ensures
        r == contains_sub(s@, sub@),
{
    let slen = s.unicode_len();
    let sublen = sub.unicode_len();
    if sublen > slen {
        return false;
    }
    if sublen == 0 {
        proof {
            assert(s@.subrange(0, 0 + sub@.len() as int) =~= sub@);
        }
        return true;
    }
    let mut i: usize = 0;
    while i <= slen - sublen
        invariant
            1 <= sublen <= slen,
            i <= slen - sublen + 1,
            slen == s@.len(),
            sublen == sub@.len(),
            forall|k: int|
                0 <= k < i ==> #[trigger] s@.subrange(k, k + sub@.len() as int) != sub@,
        decreases slen - i,
    {
        if match_at(s, slen, i, sub) {
            return true;
        }
        i += 1;
    }
    false
}

/// Lexicographic order on character sequences, by Unicode scalar value.
pub open spec fn lex_le(a: Seq<char>, b: Seq<char>) -> bool
    decreases a.len(),
{
    if a.len() == 0 {
        true
    } else if b.len() == 0 {
        false
    } else if a[0] == b[0] {
        lex_le(a.drop_first(), b.drop_first())
    } else {
        (a[0] as u32) < (b[0] as u32)
    }
}

/// Executable comparison matching `lex_le`.
pub fn str_lex_le(a: &str, b: &str) -> (r: bool)
    ensures
        r == lex_le(a@, b@),
    decreases a@.len(),
{
    let alen = a.unicode_len();
    let blen = b.unicode_len();
    if alen == 0 {
        true
    } else if blen == 0 {
        false
    } else {
        let ca = a.get_char(0);
        let cb = b.get_char(0);
        if ca == cb {
            let a2 = a.substring_char(1, alen);
            let b2 = b.substring_char(1, blen);
            proof {
                assert(a2@ =~= a@.drop_first());
                assert(b2@ =~= b@.drop_first());
            }
            str_lex_le(a2, b2)
        } else {
            (ca as u32) < (cb as u32)
        }
    }
}

/// Index of the first occurrence of `c` in `s`, or `s.len()` if none.
pub open spec fn first_index_of(s: Seq<char>, c: char) -> int
    decreases s.len(),
{
    if s.len() == 0 {
        0
    } else if s[0] == c {
        0
    } else {
        1 + first_index_of(s.drop_first(), c)
    }
}

/// `first_index_of` is in range, points at `c` where one occurs, and
/// nothing before it is `c`.
pub proof fn lemma_first_index_of(s: Seq<char>, c: char)
    ensures
        0 <= first_index_of(s, c) <= s.len(),
        forall|j: int| 0 <= j < first_index_of(s, c) ==> s[j] != c,
        first_index_of(s, c) < s.len() ==> s[first_index_of(s, c)] == c,
    decreases s.len(),
{
    if s.len() == 0 {
    } else if s[0] == c {
    } else {
        lemma_first_index_of(s.drop_first(), c);
        assert forall|j: int| 0 <= j < first_index_of(s, c) implies s[j] != c by {
            if j > 0 {
                assert(s.drop_first()[j - 1] == s[j]);
            }
        }
        if first_index_of(s, c) < s.len() {
            assert(s.drop_first()[first_index_of(s.drop_first(), c)] == s[first_index_of(s, c)]);
        }
    }
}

/// The segments of `s` between occurrences of `c`, in order; always at
/// least one segment, possibly empty ones.
pub open spec fn split_spec(s: Seq<char>, c: char) -> Seq<Seq<char>>
    decreases s.len(),
{
    let i = first_index_of(s, c);
    if 0 <= i < s.len() {
        seq![s.subrange(0, i)] + split_spec(s.subrange(i + 1, s.len() as int), c)
    } else {
        seq![s]
    }
}

/// Splitting at a position `k` that is the first separator (or the end,
/// when no separator occurs) unfolds one step of `split_spec`.
pub proof fn lemma_split_step(t: Seq<char>, c: char, k: int)
    requires
        0 <= k <= t.len(),
        forall|j: int| 0 <= j < k ==> t[j] != c,
        k < t.len() ==> t[k] == c,
    ensures
        k < t.len() ==> split_spec(t, c) == seq![t.subrange(0, k)] + split_spec(
            t.subrange(k + 1, t.len() as int),
            c,
        ),
        k == t.len() ==> split_spec(t, c) == seq![t],
{
    lemma_first_index_of(t, c);
    let fi = first_index_of(t, c);
    if k < t.len() {
        if fi < k {
            assert(t[fi] != c);
            assert(false);
        }
        if k < fi {
            assert(t[k] != c);
            assert(false);
        }
    } else {
        if fi < t.len() {
            assert(t[fi] != c);
            assert(false);
        }
    }
}

/// Executable split matching `split_spec`.
pub fn split_str(s: &str, c: char) -> (r: Vec<String>)
    ensures
        r.deep_view() == split_spec(s@, c),
{
    let n = s.unicode_len();
    let mut segs: Vec<String> = Vec::new();
    let mut seg_start: usize = 0;
    let mut i: usize = 0;
    proof {
        assert(s@.subrange(0, n as int) =~= s@);
        assert(segs.deep_view() + split_spec(s@, c) =~= split_spec(s@, c));
    }
    while i < n
        invariant
            seg_start <= i <= n,
            n == s@.len(),
            forall|j: int| seg_start <= j < i ==> s@[j] != c,
            split_spec(s@, c) == segs.deep_view() + split_spec(
                s@.subrange(seg_start as int, n as int),
                c,
            ),
        decreases n - i,
    {
        let ch = s.get_char(i);
        if ch == c {
            let piece = s.substring_char(seg_start, i).to_owned();
            let ghost pv = piece@;
            let ghost prev = segs.deep_view();
            proof {
                let t = s@.subrange(seg_start as int, n as int);
                let k = i - seg_start;
                assert forall|j: int| 0 <= j < k implies t[j] != c by {
                    assert(t[j] == s@[seg_start + j]);
                }
                assert(t[k] == s@[i as int]);
                lemma_split_step(t, c, k);
                assert(t.subrange(0, k) =~= s@.subrange(seg_start as int, i as int));
                assert(t.subrange(k + 1, t.len() as int) =~= s@.subrange(i + 1, n as int));
                assert(pv == s@.subrange(seg_start as int, i as int));
                assert(prev + split_spec(t, c) =~= prev.push(pv) + split_spec(
                    s@.subrange(i + 1, n as int),
                    c,
                ));
            }
            segs.push(piece);
            proof {
                assert(segs.deep_view() =~= prev.push(pv));
            }
            seg_start = i + 1;
        }
        i += 1;
    }
    let piece = s.substring_char(seg_start, n).to_owned();
    let ghost pv = piece@;
    let ghost prev = segs.deep_view();
    proof {
        let t = s@.subrange(seg_start as int, n as int);
        assert forall|j: int| 0 <= j < t.len() implies t[j] != c by {
            assert(t[j] == s@[seg_start + j]);
        }
        lemma_split_step(t, c, t.len() as int);
        assert(pv == t);
        assert(prev + split_spec(t, c) =~= prev.push(pv));
    }
    segs.push(piece);
    proof {
        assert(segs.deep_view() =~= prev.push(pv));
    }
    segs
}

} // verus!
