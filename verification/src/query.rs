//! Query-string pairs: stable sorting by key and rendering back to
//! `key=value` form joined with `&`.
use vstd::prelude::*;
use crate::text::{lex_le, str_lex_le};

verus! {

/// A decoded query parameter at the specification level.
pub type PairView = (Seq<char>, Seq<char>);

/// Insert `p` into `sorted` behind every entry whose key is less than or
/// equal to `p`'s key; equal keys keep their earlier position, so repeated
/// insertion is a stable sort.
pub open spec fn insert_pair_spec(sorted: Seq<PairView>, p: PairView) -> Seq<PairView>
    decreases sorted.len(),
{
    if sorted.len() == 0 {
        seq![p]
    } else if lex_le(sorted.last().0, p.0) {
        sorted.push(p)
    } else {
        insert_pair_spec(sorted.drop_last(), p).push(sorted.last())
    }
}

/// Stable insertion sort of query pairs by key, in lexicographic order.
pub open spec fn sort_pairs_spec(ps: Seq<PairView>) -> Seq<PairView>
    decreases ps.len(),
{
    if ps.len() == 0 {
        Seq::empty()
    } else {
        insert_pair_spec(sort_pairs_spec(ps.drop_last()), ps.last())
    }
}

/// Inserting at the position found by scanning from the back matches
/// `insert_pair_spec`.
pub proof fn lemma_insert_pair_at(s: Seq<PairView>, p: PairView, j: int)
    requires
        0 <= j <= s.len(),
        forall|k: int| j <= k < s.len() ==> !lex_le(#[trigger] s[k].0, p.0),
        j > 0 ==> lex_le(s[j - 1].0, p.0),
    ensures
        insert_pair_spec(s, p) == s.subrange(0, j).push(p) + s.subrange(j, s.len() as int),
    decreases s.len(),
{
    if s.len() == 0 {
        assert(insert_pair_spec(s, p) =~= s.subrange(0, j).push(p) + s.subrange(
            j,
            s.len() as int,
        ));
    } else if lex_le(s.last().0, p.0) {
        assert(j == s.len());
        assert(s.subrange(0, j) =~= s);
        assert(insert_pair_spec(s, p) =~= s.subrange(0, j).push(p) + s.subrange(
            j,
            s.len() as int,
        ));
    } else {
        assert(j < s.len());
        let d = s.drop_last();
        assert forall|k: int| j <= k < d.len() implies !lex_le(#[trigger] d[k].0, p.0) by {
            assert(d[k] == s[k]);
        }
        if j > 0 {
            assert(d[j - 1] == s[j - 1]);
        }
        lemma_insert_pair_at(d, p, j);
        assert(d.subrange(0, j) =~= s.subrange(0, j));
        assert(insert_pair_spec(s, p) =~= s.subrange(0, j).push(p) + s.subrange(
            j,
            s.len() as int,
        ));
    }
}

/// Insertion keeps a property that holds of every key.
pub proof fn lemma_insert_pair_all(s: Seq<PairView>, p: PairView, pred: spec_fn(Seq<char>) -> bool)
    requires
        forall|k: int| 0 <= k < s.len() ==> pred(#[trigger] s[k].0),
        pred(p.0),
    ensures
        forall|k: int|
            0 <= k < insert_pair_spec(s, p).len() ==> pred(#[trigger] insert_pair_spec(s, p)[k].0),
    decreases s.len(),
{
    let out = insert_pair_spec(s, p);
    if s.len() == 0 {
        assert(out[0] == p);
    } else if lex_le(s.last().0, p.0) {
        assert forall|k: int| 0 <= k < out.len() implies pred(#[trigger] out[k].0) by {
            if k < s.len() {
                assert(out[k] == s[k]);
            } else {
                assert(out[k] == p);
            }
        }
    } else {
        let d = s.drop_last();
        assert forall|k: int| 0 <= k < d.len() implies pred(#[trigger] d[k].0) by {
            assert(d[k] == s[k]);
        }
        lemma_insert_pair_all(d, p, pred);
        let sub = insert_pair_spec(d, p);
        assert forall|k: int| 0 <= k < out.len() implies pred(#[trigger] out[k].0) by {
            if k < sub.len() {
                assert(out[k] == sub[k]);
            } else {
                assert(out[k] == s.last());
                assert(pred(s[s.len() - 1].0));
            }
        }
    }
}

/// Sorting keeps a property that holds of every key.
pub proof fn lemma_sort_pairs_all(s: Seq<PairView>, pred: spec_fn(Seq<char>) -> bool)
    requires
        forall|k: int| 0 <= k < s.len() ==> pred(#[trigger] s[k].0),
    ensures
        forall|k: int|
            0 <= k < sort_pairs_spec(s).len() ==> pred(#[trigger] sort_pairs_spec(s)[k].0),
    decreases s.len(),
{
    if s.len() == 0 {
    } else {
        let d = s.drop_last();
        assert forall|k: int| 0 <= k < d.len() implies pred(#[trigger] d[k].0) by {
            assert(d[k] == s[k]);
        }
        lemma_sort_pairs_all(d, pred);
        lemma_insert_pair_all(sort_pairs_spec(d), s.last(), pred);
    }
}

/// Insert one pair into an already sorted vector, scanning from the back.
fn insert_pair(v: &mut Vec<(String, String)>, p: (String, String))
    ensures
        final(v).deep_view() == insert_pair_spec(old(v).deep_view(), p.deep_view()),
{
    let ghost pd = p.deep_view();
    let mut j: usize = v.len();
    loop
        invariant
            j <= v.len(),
            pd == p.deep_view(),
            forall|k: int| j <= k < v.len() ==> !lex_le(#[trigger] v.deep_view()[k].0, pd.0),
        ensures
            j <= v.len(),
            forall|k: int| j <= k < v.len() ==> !lex_le(#[trigger] v.deep_view()[k].0, pd.0),
            j > 0 ==> lex_le(v.deep_view()[j - 1].0, pd.0),
        decreases j,
    {
        if j == 0 {
            break;
        }
        if str_lex_le(v[j - 1].0.as_str(), p.0.as_str()) {
            break;
        }
        j -= 1;
    }
    proof {
        lemma_insert_pair_at(v.deep_view(), pd, j as int);
    }
    let ghost prev = v.deep_view();
    v.insert(j, p);
    proof {
        assert(v.deep_view() =~= prev.subrange(0, j as int).push(pd) + prev.subrange(
            j as int,
            prev.len() as int,
        ));
    }
}

/// Sort query pairs by key; equal keys keep their input order.
pub fn sort_pairs(v: &Vec<(String, String)>) -> (r: Vec<(String, String)>)
    ensures
        r.deep_view() == sort_pairs_spec(v.deep_view()),
{
    let mut out: Vec<(String, String)> = Vec::new();
    let mut i: usize = 0;
    proof {
        assert(v.deep_view().take(0) =~= Seq::<PairView>::empty());
    }
    while i < v.len()
        invariant
            i <= v.len(),
            out.deep_view() == sort_pairs_spec(v.deep_view().take(i as int)),
        decreases v.len() - i,
    {
        let p = (v[i].0.clone(), v[i].1.clone());
        proof {
            assert(p.deep_view() == v.deep_view()[i as int]);
            let dv = v.deep_view();
            assert(dv.take(i + 1).drop_last() =~= dv.take(i as int));
            assert(dv.take(i + 1).last() == dv[i as int]);
        }
        insert_pair(&mut out, p);
        i += 1;
    }
    proof {
        assert(v.deep_view().take(v.deep_view().len() as int) =~= v.deep_view());
    }
    out
}

/// The query string `k1=v1&k2=v2&...` rendered from decoded pairs.
pub open spec fn join_pairs_spec(ps: Seq<PairView>) -> Seq<char>
    decreases ps.len(),
{
    if ps.len() == 0 {
        Seq::empty()
    } else if ps.len() == 1 {
        ps[0].0 + "="@ + ps[0].1
    } else {
        join_pairs_spec(ps.drop_last()) + "&"@ + ps.last().0 + "="@ + ps.last().1
    }
}

/// Render pairs back to `key=value` joined with `&`.
pub fn join_pairs(v: &Vec<(String, String)>) -> (r: String)
    ensures
        r@ == join_pairs_spec(v.deep_view()),
{
    let mut out = String::new();
    let mut i: usize = 0;
    while i < v.len()
        invariant
            i <= v.len(),
            out@ == join_pairs_spec(v.deep_view().take(i as int)),
        decreases v.len() - i,
    {
        if i > 0 {
            out.append("&");
        }
        out.append(v[i].0.as_str());
        out.append("=");
        out.append(v[i].1.as_str());
        proof {
            let dv = v.deep_view();
            assert(dv.take(i + 1).drop_last() =~= dv.take(i as int));
            assert(dv.take(i + 1).last() == dv[i as int]);
            assert(dv.take(i + 1)[0] == dv[0]);
            assert(out@ =~= join_pairs_spec(dv.take(i + 1)));
        }
        i += 1;
    }
    proof {
        assert(v.deep_view().take(v.deep_view().len() as int) =~= v.deep_view());
    }
    out
}

} // verus!
