//! URL cleaners: independent, composable rewrites of a link's URL.
//!
//! Each cleaner is deterministic and side-effect-free and keeps the link's
//! provenance and anchor text; only the URL may change.
use vstd::prelude::*;
use crate::model::Link;
use crate::query::{
    PairView, join_pairs, join_pairs_spec, lemma_sort_pairs_all, sort_pairs, sort_pairs_spec,
};
use crate::text::{
    ends_with_spec, split_spec, split_str, starts_with_spec, str_ends_with, str_eq,
    str_starts_with,
};
use crate::urls::{
    UrlParts, UrlPartsView, opt_parts_view, parse_url_parts, rewrite_url_query, url_parse_spec,
    url_with_query_spec,
};

verus! {

pub open spec fn opt_string_view(r: Option<String>) -> Option<Seq<char>> {
    match r {
        Some(s) => Some(s@),
        None => None,
    }
}

/// A single URL-rewriting capability.  `clean_url_spec` is the cleaner's
/// mathematical meaning; `clean` realizes it and never touches the other
/// two fields of the link.
pub trait UrlCleaner: Sized {
    spec fn clean_url_spec(&self, url: Seq<char>) -> Seq<char>;

    fn clean(&self, link: &Link) -> (r: Link)
        ensures
            r@.url == self.clean_url_spec(link@.url),
            r@.source_file == link@.source_file,
            r@.link_text == link@.link_text,
    ;
}

/// A query key names a tracker: it starts with `utm_` or is one of the
/// fixed analytics keys.
pub open spec fn is_tracker_key(k: Seq<char>) -> bool {
    starts_with_spec(k, "utm_"@) || k == "fbclid"@ || k == "gclid"@ || k == "msclkid"@ || k
        == "ref"@ || k == "source"@
}

/// Some query pair of `ps` has a tracker key.
pub open spec fn has_tracker_spec(ps: Seq<PairView>) -> bool {
    exists|i: int| 0 <= i < ps.len() && is_tracker_key(#[trigger] ps[i].0)
}

/// The query pairs of `ps` whose keys are not trackers, in order.
pub open spec fn kept_pairs(ps: Seq<PairView>) -> Seq<PairView>
    decreases ps.len(),
{
    if ps.len() == 0 {
        Seq::empty()
    } else if is_tracker_key(ps.last().0) {
        kept_pairs(ps.drop_last())
    } else {
        kept_pairs(ps.drop_last()).push(ps.last())
    }
}

/// No kept pair has a tracker key.
pub proof fn lemma_kept_pairs_no_tracker(ps: Seq<PairView>)
    ensures
        forall|k: int| 0 <= k < kept_pairs(ps).len() ==> !is_tracker_key(#[trigger] kept_pairs(ps)[k].0),
    decreases ps.len(),
{
    if ps.len() == 0 {
    } else {
        lemma_kept_pairs_no_tracker(ps.drop_last());
        if !is_tracker_key(ps.last().0) {
            let out = kept_pairs(ps);
            let sub = kept_pairs(ps.drop_last());
            assert forall|k: int| 0 <= k < out.len() implies !is_tracker_key(
                #[trigger] out[k].0,
            ) by {
                if k < sub.len() {
                    assert(out[k] == sub[k]);
                } else {
                    assert(out[k] == ps.last());
                }
            }
        }
    }
}

/// What the tracker cleaner does to a URL: where it parses and some query
/// key is a tracker, the query is rebuilt from the non-tracker pairs,
/// sorted by key (removed entirely when none remain); otherwise the URL is
/// untouched.
pub open spec fn tracker_clean_spec(url: Seq<char>) -> Seq<char> {
    match url_parse_spec(url) {
        None => url,
        Some(p) => if has_tracker_spec(p.pairs) {
            let kept = kept_pairs(p.pairs);
            if kept.len() == 0 {
                url_with_query_spec(url, None)
            } else {
                url_with_query_spec(url, Some(join_pairs_spec(sort_pairs_spec(kept))))
            }
        } else {
            url
        },
    }
}

/// Strips analytics parameters (`utm_*`, `fbclid`, `gclid`, `msclkid`,
/// `ref`, `source`) from a URL's query string.
#[derive(Clone, Copy)]
pub struct TrackerParamCleaner;

impl TrackerParamCleaner {
    pub fn new() -> (r: Self)
        ensures
            r == TrackerParamCleaner,
    {
        TrackerParamCleaner
    }

    /// The key of a query parameter names a tracker.
    pub fn is_tracker_param(&self, param: &str) -> (r: bool)
        ensures
            r == is_tracker_key(param@),
    {
        str_starts_with(param, "utm_") || str_eq(param, "fbclid") || str_eq(param, "gclid")
            || str_eq(param, "msclkid") || str_eq(param, "ref") || str_eq(param, "source")
    }

    /// Some pair of `pairs` has a tracker key.
    fn has_tracker(&self, pairs: &Vec<(String, String)>) -> (r: bool)
        ensures
            r == has_tracker_spec(pairs.deep_view()),
    {
        let mut i: usize = 0;
        while i < pairs.len()
            invariant
                i <= pairs.len(),
                forall|k: int|
                    0 <= k < i ==> !is_tracker_key(#[trigger] pairs.deep_view()[k].0),
            decreases pairs.len() - i,
        {
            proof {
                assert(pairs.deep_view()[i as int].0 == pairs@[i as int].0@);
            }
            if self.is_tracker_param(pairs[i].0.as_str()) {
                return true;
            }
            i += 1;
        }
        false
    }

    /// The pairs of `pairs` whose keys are not trackers, in order.
    fn keep_non_trackers(&self, pairs: &Vec<(String, String)>) -> (r: Vec<(String, String)>)
        ensures
            r.deep_view() == kept_pairs(pairs.deep_view()),
    {
        let mut out: Vec<(String, String)> = Vec::new();
        let mut i: usize = 0;
        proof {
            assert(pairs.deep_view().take(0) =~= Seq::<PairView>::empty());
            assert(out.deep_view() =~= kept_pairs(pairs.deep_view().take(0)));
        }
        while i < pairs.len()
            invariant
                i <= pairs.len(),
                out.deep_view() == kept_pairs(pairs.deep_view().take(i as int)),
            decreases pairs.len() - i,
        {
            let ghost dv = pairs.deep_view();
            proof {
                assert(dv.take(i + 1).drop_last() =~= dv.take(i as int));
                assert(dv.take(i + 1).last() == dv[i as int]);
            }
            if !self.is_tracker_param(pairs[i].0.as_str()) {
                let ghost prev = out.deep_view();
                out.push((pairs[i].0.clone(), pairs[i].1.clone()));
                proof {
                    assert(out.deep_view() =~= prev.push(dv[i as int]));
                }
            }
            i += 1;
        }
        proof {
            assert(pairs.deep_view().take(pairs.deep_view().len() as int) =~= pairs.deep_view());
        }
        out
    }
}

impl UrlCleaner for TrackerParamCleaner {
    open spec fn clean_url_spec(&self, url: Seq<char>) -> Seq<char> {
        tracker_clean_spec(url)
    }

    fn clean(&self, link: &Link) -> (r: Link) {
        match parse_url_parts(link.url.as_str()) {
            None => link.clone(),
            Some(parts) => {
                if self.has_tracker(&parts.pairs) {
                    let kept = self.keep_non_trackers(&parts.pairs);
                    let new_url = if kept.len() == 0 {
                        proof {
                            assert(kept.deep_view().len() == 0);
                        }
                        rewrite_url_query(link.url.as_str(), None).unwrap()
                    } else {
                        let sorted = sort_pairs(&kept);
                        let q = join_pairs(&sorted);
                        rewrite_url_query(link.url.as_str(), Some(q.as_str())).unwrap()
                    };
                    Link {
                        url: new_url,
                        source_file: link.source_file.clone(),
                        link_text: link.link_text.clone(),
                    }
                } else {
                    link.clone()
                }
            },
        }
    }
}

/// Law: the tracker cleaner rewrites only URLs that parse and carry at
/// least one tracker key; every other URL comes back exactly as written,
/// parameter order and values preserved.
pub proof fn lemma_tracker_noop_without_trackers(url: Seq<char>)
    requires
        (match url_parse_spec(url) {
            Some(p) => !has_tracker_spec(p.pairs),
            None => true,
        }),
    ensures
        tracker_clean_spec(url) == url,
{
}

/// Law: the tracker cleaner is idempotent.  The proviso pins the `url`
/// crate's behaviour on the rewritten URL: where the rewrite reparses, its
/// decoded query pairs are exactly the kept, sorted pairs that were
/// serialized.  (A key that percent-decodes into a tracker key on the
/// second pass would violate the proviso; such inputs are excluded.)
pub proof fn lemma_tracker_clean_idempotent(url: Seq<char>)
    requires
        ({
            let out = tracker_clean_spec(url);
            match url_parse_spec(url) {
                Some(p) => has_tracker_spec(p.pairs) ==> match url_parse_spec(out) {
                    Some(p2) => p2.pairs == sort_pairs_spec(kept_pairs(p.pairs)),
                    None => true,
                },
                None => true,
            }
        }),
    ensures
        tracker_clean_spec(tracker_clean_spec(url)) == tracker_clean_spec(url),
{
    let out = tracker_clean_spec(url);
    match url_parse_spec(url) {
        None => {},
        Some(p) => {
            if has_tracker_spec(p.pairs) {
                match url_parse_spec(out) {
                    None => {},
                    Some(p2) => {
                        let kept = kept_pairs(p.pairs);
                        lemma_kept_pairs_no_tracker(p.pairs);
                        lemma_sort_pairs_all(kept, |key: Seq<char>| !is_tracker_key(key));
                        assert(!has_tracker_spec(p2.pairs));
                    },
                }
            }
        },
    }
}

/// The `v` in a canonical YouTube watch URL, or the identifier embedded in
/// a `youtu.be`, `/embed/` or `/v/` form; `None` where the URL is not a
/// YouTube video reference.
pub open spec fn first_value_spec(ps: Seq<PairView>, key: Seq<char>) -> Option<Seq<char>>
    decreases ps.len(),
{
    if ps.len() == 0 {
        None
    } else if ps[0].0 == key {
        Some(ps[0].1)
    } else {
        first_value_spec(ps.drop_first(), key)
    }
}

/// The host is the YouTube site itself: `youtube.com` or one of its
/// subdomains (`www.youtube.com`, `m.youtube.com`, ...).  A host that
/// merely contains the name somewhere (`evil-youtube.com.example`) is not.
pub open spec fn is_youtube_host(h: Seq<char>) -> bool {
    h == "youtube.com"@ || ends_with_spec(h, ".youtube.com"@)
}

/// The video identifier the YouTube cleaner extracts from a URL, if any.
pub open spec fn yt_video_id_spec(url: Seq<char>) -> Option<Seq<char>> {
    match url_parse_spec(url) {
        None => None,
        Some(p) => match p.host {
            None => None,
            Some(h) => if is_youtube_host(h) {
                if p.path == "/watch"@ {
                    first_value_spec(p.pairs, "v"@)
                } else if starts_with_spec(p.path, "/embed/"@) || starts_with_spec(
                    p.path,
                    "/v/"@,
                ) {
                    let segs = split_spec(p.path, '/');
                    if segs.len() > 2 {
                        Some(segs[2])
                    } else {
                        None
                    }
                } else {
                    None
                }
            } else if h == "youtu.be"@ {
                if p.path.len() > 1 {
                    Some(p.path.subrange(1, p.path.len() as int))
                } else {
                    None
                }
            } else {
                None
            },
        },
    }
}

/// The canonical form every recognized YouTube video URL is rewritten to.
pub open spec fn yt_canonical_spec(id: Seq<char>) -> Seq<char> {
    "https://www.youtube.com/watch?v="@ + id
}

/// What the YouTube cleaner does to a URL.
pub open spec fn yt_clean_spec(url: Seq<char>) -> Seq<char> {
    match yt_video_id_spec(url) {
        Some(id) => yt_canonical_spec(id),
        None => url,
    }
}

/// Rewrites recognized YouTube video URLs to the canonical
/// `https://www.youtube.com/watch?v=ID` form.
#[derive(Clone, Copy)]
pub struct YouTubeUrlCleaner;

/// First value among `pairs` under `key`, in input order.
fn first_value(pairs: &Vec<(String, String)>, key: &str) -> (r: Option<String>)
    ensures
        opt_string_view(r) == first_value_spec(pairs.deep_view(), key@),
{
    let ghost dv = pairs.deep_view();
    let mut i: usize = 0;
    proof {
        assert(dv.skip(0) =~= dv);
    }
    while i < pairs.len()
        invariant
            i <= pairs.len(),
            dv == pairs.deep_view(),
            first_value_spec(dv, key@) == first_value_spec(dv.skip(i as int), key@),
        decreases pairs.len() - i,
    {
        proof {
            assert(dv.skip(i as int)[0] == dv[i as int]);
            assert(dv.skip(i as int).drop_first() =~= dv.skip(i + 1));
        }
        if str_eq(pairs[i].0.as_str(), key) {
            return Some(pairs[i].1.clone());
        }
        i += 1;
    }
    proof {
        assert(dv.skip(dv.len() as int) =~= Seq::<PairView>::empty());
    }
    None
}

impl YouTubeUrlCleaner {
    pub fn new() -> (r: Self)
        ensures
            r == YouTubeUrlCleaner,
    {
        YouTubeUrlCleaner
    }

    /// The identifier this cleaner would canonicalize `url_str` around.
    pub fn extract_video_id(&self, url_str: &str) -> (r: Option<String>)
        ensures
            opt_string_view(r) == yt_video_id_spec(url_str@),
    {
        let parts = match parse_url_parts(url_str) {
            Some(p) => p,
            None => {
                return None;
            },
        };
        match &parts.host {
            None => None,
            Some(host) => {
                if str_eq(host.as_str(), "youtube.com") || str_ends_with(
                    host.as_str(),
                    ".youtube.com",
                ) {
                    if str_eq(parts.path.as_str(), "/watch") {
                        first_value(&parts.pairs, "v")
                    } else if str_starts_with(parts.path.as_str(), "/embed/") || str_starts_with(
                        parts.path.as_str(),
                        "/v/",
                    ) {
                        let segs = split_str(parts.path.as_str(), '/');
                        if segs.len() > 2 {
                            Some(segs[2].clone())
                        } else {
                            None
                        }
                    } else {
                        None
                    }
                } else if str_eq(host.as_str(), "youtu.be") {
                    let plen = parts.path.as_str().unicode_len();
                    if plen > 1 {
                        Some(parts.path.as_str().substring_char(1, plen).to_owned())
                    } else {
                        None
                    }
                } else {
                    None
                }
            },
        }
    }
}

impl UrlCleaner for YouTubeUrlCleaner {
    open spec fn clean_url_spec(&self, url: Seq<char>) -> Seq<char> {
        yt_clean_spec(url)
    }

    fn clean(&self, link: &Link) -> (r: Link) {
        match self.extract_video_id(link.url.as_str()) {
            Some(id) => {
                let mut u = String::from_str("https://www.youtube.com/watch?v=");
                u.append(id.as_str());
                Link {
                    url: u,
                    source_file: link.source_file.clone(),
                    link_text: link.link_text.clone(),
                }
            },
            None => link.clone(),
        }
    }
}

/// Law: the YouTube cleaner is idempotent.  The proviso says extracting
/// from the canonical URL returns the identifier unchanged, which holds
/// whenever the `url` crate parses the canonical form back intact.
pub proof fn lemma_yt_clean_idempotent(url: Seq<char>)
    requires
        (match yt_video_id_spec(url) {
            Some(id) => yt_video_id_spec(yt_canonical_spec(id)) == Some(id),
            None => true,
        }),
    ensures
        yt_clean_spec(yt_clean_spec(url)) == yt_clean_spec(url),
{
}

/// One registered cleaner of a chain.
#[derive(Clone, Copy)]
pub enum CleanerKind {
    Tracker(TrackerParamCleaner),
    YouTube(YouTubeUrlCleaner),
}

impl UrlCleaner for CleanerKind {
    open spec fn clean_url_spec(&self, url: Seq<char>) -> Seq<char> {
        match self {
            CleanerKind::Tracker(c) => c.clean_url_spec(url),
            CleanerKind::YouTube(c) => c.clean_url_spec(url),
        }
    }

    fn clean(&self, link: &Link) -> (r: Link) {
        match self {
            CleanerKind::Tracker(c) => c.clean(link),
            CleanerKind::YouTube(c) => c.clean(link),
        }
    }
}

/// The chain's effect: each cleaner applied in registration order, each
/// output feeding the next.
pub open spec fn chain_clean_spec(cs: Seq<CleanerKind>, url: Seq<char>) -> Seq<char>
    decreases cs.len(),
{
    if cs.len() == 0 {
        url
    } else {
        chain_clean_spec(cs.drop_first(), cs[0].clean_url_spec(url))
    }
}

/// Applies registered cleaners in order; cleaners can be added freely.
pub struct CompositeUrlCleaner {
    cleaners: Vec<CleanerKind>,
}

impl View for CompositeUrlCleaner {
    type V = Seq<CleanerKind>;

    closed spec fn view(&self) -> Seq<CleanerKind> {
        self.cleaners@
    }
}

impl CompositeUrlCleaner {
    pub fn new() -> (r: Self)
        ensures
            r@ == Seq::<CleanerKind>::empty(),
    {
        CompositeUrlCleaner { cleaners: Vec::new() }
    }

    /// Register one more cleaner at the end of the chain.
    pub fn add_cleaner(&mut self, cleaner: CleanerKind)
        ensures
            final(self)@ == old(self)@.push(cleaner),
    {
        self.cleaners.push(cleaner);
    }
}

impl UrlCleaner for CompositeUrlCleaner {
    open spec fn clean_url_spec(&self, url: Seq<char>) -> Seq<char> {
        chain_clean_spec(self@, url)
    }

    fn clean(&self, link: &Link) -> (r: Link) {
        let mut result = link.clone();
        let mut i: usize = 0;
        proof {
            assert(self@.skip(0) =~= self@);
        }
        while i < self.cleaners.len()
            invariant
                i <= self.cleaners.len(),
                self.cleaners@ == self@,
                chain_clean_spec(self@.skip(i as int), result@.url) == chain_clean_spec(
                    self@,
                    link@.url,
                ),
                result@.source_file == link@.source_file,
                result@.link_text == link@.link_text,
            decreases self.cleaners.len() - i,
        {
            proof {
                assert(self@.skip(i as int)[0] == self@[i as int]);
                assert(self@.skip(i as int).drop_first() =~= self@.skip(i + 1));
            }
            result = self.cleaners[i].clean(&result);
            i += 1;
        }
        proof {
            assert(self@.skip(self@.len() as int) =~= Seq::<CleanerKind>::empty());
        }
        result
    }
}

/// A URL every cleaner of the chain leaves unchanged is left unchanged by
/// the whole chain.
pub proof fn lemma_chain_fixed_point(cs: Seq<CleanerKind>, url: Seq<char>)
    requires
        forall|i: int| 0 <= i < cs.len() ==> #[trigger] cs[i].clean_url_spec(url) == url,
    ensures
        chain_clean_spec(cs, url) == url,
    decreases cs.len(),
{
    if cs.len() == 0 {
    } else {
        assert(cs[0].clean_url_spec(url) == url);
        let d = cs.drop_first();
        assert forall|i: int| 0 <= i < d.len() implies #[trigger] d[i].clean_url_spec(url)
            == url by {
            assert(d[i] == cs[i + 1]);
        }
        lemma_chain_fixed_point(d, url);
    }
}

/// Law: cleaning twice with a chain gives what cleaning once gives,
/// provided each registered cleaner leaves the chain's output fixed (as
/// the per-cleaner idempotence laws give for their outputs).
pub proof fn lemma_chain_idempotent(cs: Seq<CleanerKind>, url: Seq<char>)
    requires
        forall|i: int|
            0 <= i < cs.len() ==> #[trigger] cs[i].clean_url_spec(chain_clean_spec(cs, url))
                == chain_clean_spec(cs, url),
    ensures
        chain_clean_spec(cs, chain_clean_spec(cs, url)) == chain_clean_spec(cs, url),
{
    lemma_chain_fixed_point(cs, chain_clean_spec(cs, url));
}

} // verus!
