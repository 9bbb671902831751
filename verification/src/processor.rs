//! The URL processor: validation, filtering, cleaning and first-wins
//! deduplication over the full link set.
use vstd::prelude::*;
use crate::cleaner::{CleanerKind, CompositeUrlCleaner, UrlCleaner, chain_clean_spec};
use crate::model::{ExtractError, Link, LinkView};
use crate::text::{contains_sub, str_contains, str_eq};
use crate::urls::{UrlParts, UrlPartsView, resolve_url_parts, url_resolve_spec};

verus! {

/// Mathematical value of [`UrlProcessorConfig`].
#[verifier::ext_equal]
pub ghost struct ConfigView {
    pub filter_domain: Option<Seq<char>>,
    pub filter_protocol: Seq<Seq<char>>,
}

/// The processor's configuration: an optional substring every kept host
/// must contain, and an allow-list of schemes (empty: no protocol filter).
pub struct UrlProcessorConfig {
    pub filter_domain: Option<String>,
    pub filter_protocol: Vec<String>,
}

impl View for UrlProcessorConfig {
    type V = ConfigView;

    open spec fn view(&self) -> ConfigView {
        ConfigView {
            filter_domain: match self.filter_domain {
                Some(d) => Some(d@),
                None => None,
            },
            filter_protocol: self.filter_protocol.deep_view(),
        }
    }
}

/// A URL that is only an in-page anchor.
pub open spec fn is_fragment_url(u: Seq<char>) -> bool {
    u.len() > 0 && u[0] == '#'
}

pub open spec fn seq_contains_str(ss: Seq<Seq<char>>, s: Seq<char>) -> bool {
    exists|i: int| 0 <= i < ss.len() && #[trigger] ss[i] == s
}

/// The domain filter admits these resolved parts.
pub open spec fn domain_ok(cfg: ConfigView, p: UrlPartsView) -> bool {
    match cfg.filter_domain {
        None => true,
        Some(d) => match p.host {
            Some(h) => contains_sub(h, d),
            None => false,
        },
    }
}

/// The protocol filter admits these resolved parts.
pub open spec fn protocol_ok(cfg: ConfigView, p: UrlPartsView) -> bool {
    cfg.filter_protocol.len() == 0 || seq_contains_str(cfg.filter_protocol, p.scheme)
}

/// The link passes validation and both filters: it is not a bare fragment,
/// it resolves (as absolute or against the synthetic base), and the
/// resolved host and scheme pass the configured filters.
pub open spec fn link_survives(cfg: ConfigView, l: LinkView) -> bool {
    &&& !is_fragment_url(l.url)
    &&& match url_resolve_spec(l.url) {
        Some(p) => domain_ok(cfg, p) && protocol_ok(cfg, p),
        None => false,
    }
}

/// The link is discarded as malformed: it is a real destination (not a
/// bare fragment) yet neither parses as absolute nor resolves against the
/// synthetic base.  These are the links the batch warns about.
pub open spec fn is_malformed_link(l: LinkView) -> bool {
    !is_fragment_url(l.url) && url_resolve_spec(l.url) is None
}

/// The malformed links of the input, in input order.
pub open spec fn malformed_links_spec(links: Seq<LinkView>) -> Seq<LinkView>
    decreases links.len(),
{
    if links.len() == 0 {
        Seq::empty()
    } else if is_malformed_link(links[0]) {
        seq![links[0]] + malformed_links_spec(links.drop_first())
    } else {
        malformed_links_spec(links.drop_first())
    }
}

/// The link after the cleaner chain: URL rewritten, provenance and text kept.
pub open spec fn clean_link_spec(cs: Seq<CleanerKind>, l: LinkView) -> LinkView {
    LinkView { url: chain_clean_spec(cs, l.url), source_file: l.source_file, link_text: l.link_text }
}

/// Some link of `s` already carries URL `u`.
pub open spec fn has_url(s: Seq<LinkView>, u: Seq<char>) -> bool {
    exists|i: int| 0 <= i < s.len() && #[trigger] s[i].url == u
}

/// All URLs of `s` are pairwise distinct.
pub open spec fn distinct_urls(s: Seq<LinkView>) -> bool {
    forall|i: int, j: int| 0 <= i < j < s.len() ==> s[i].url != s[j].url
}

/// One pass over the remaining links, extending the accumulated output:
/// a surviving link is cleaned and appended unless its cleaned URL was
/// already emitted; every other link is dropped.
pub open spec fn process_rec(
    cs: Seq<CleanerKind>,
    cfg: ConfigView,
    links: Seq<LinkView>,
    acc: Seq<LinkView>,
) -> Seq<LinkView>
    decreases links.len(),
{
    if links.len() == 0 {
        acc
    } else {
        let l = links[0];
        let rest = links.drop_first();
        if link_survives(cfg, l) {
            let cl = clean_link_spec(cs, l);
            if has_url(acc, cl.url) {
                process_rec(cs, cfg, rest, acc)
            } else {
                process_rec(cs, cfg, rest, acc.push(cl))
            }
        } else {
            process_rec(cs, cfg, rest, acc)
        }
    }
}

/// The processor's full output for a link sequence.
pub open spec fn process_spec(
    cs: Seq<CleanerKind>,
    cfg: ConfigView,
    links: Seq<LinkView>,
) -> Seq<LinkView> {
    process_rec(cs, cfg, links, Seq::empty())
}

/// The cleaned form of the first surviving link whose cleaned URL is `u`.
pub open spec fn first_surviving_clean(
    cs: Seq<CleanerKind>,
    cfg: ConfigView,
    links: Seq<LinkView>,
    u: Seq<char>,
) -> Option<LinkView>
    decreases links.len(),
{
    if links.len() == 0 {
        None
    } else if link_survives(cfg, links[0]) && chain_clean_spec(cs, links[0].url) == u {
        Some(clean_link_spec(cs, links[0]))
    } else {
        first_surviving_clean(cs, cfg, links.drop_first(), u)
    }
}

proof fn lemma_process_rec_props(
    cs: Seq<CleanerKind>,
    cfg: ConfigView,
    links: Seq<LinkView>,
    acc: Seq<LinkView>,
)
    requires
        distinct_urls(acc),
    ensures
        ({
            let out = process_rec(cs, cfg, links, acc);
            &&& out.len() >= acc.len()
            &&& out.subrange(0, acc.len() as int) == acc
            &&& distinct_urls(out)
            &&& forall|k: int|
                acc.len() <= k < out.len() ==> !has_url(acc, #[trigger] out[k].url)
                    && first_surviving_clean(cs, cfg, links, out[k].url) == Some(out[k])
            &&& forall|j: int|
                0 <= j < links.len() && link_survives(cfg, #[trigger] links[j]) ==> has_url(
                    out,
                    chain_clean_spec(cs, links[j].url),
                )
        }),
    decreases links.len(),
{
    let out = process_rec(cs, cfg, links, acc);
    if links.len() == 0 {
        assert(out.subrange(0, acc.len() as int) =~= acc);
    } else {
        let l = links[0];
        let rest = links.drop_first();
        if link_survives(cfg, l) {
            let cl = clean_link_spec(cs, l);
            if has_url(acc, cl.url) {
                lemma_process_rec_props(cs, cfg, rest, acc);
                assert forall|k: int|
                    acc.len() <= k < out.len() implies !has_url(acc, #[trigger] out[k].url)
                    && first_surviving_clean(cs, cfg, links, out[k].url) == Some(out[k]) by {
                    assert(out[k].url != cl.url);
                }
                assert forall|j: int|
                    0 <= j < links.len() && link_survives(cfg, #[trigger] links[j]) implies has_url(
                    out,
                    chain_clean_spec(cs, links[j].url),
                ) by {
                    if j == 0 {
                        let w = choose|i: int| 0 <= i < acc.len() && #[trigger] acc[i].url == cl.url;
                        assert(out[w] == acc[w]);
                        assert(out[w].url == chain_clean_spec(cs, links[0].url));
                    } else {
                        assert(links[j] == rest[j - 1]);
                    }
                }
            } else {
                let acc2 = acc.push(cl);
                assert forall|i: int, j: int| 0 <= i < j < acc2.len() implies acc2[i].url
                    != acc2[j].url by {
                    if j < acc.len() {
                        assert(acc2[i] == acc[i] && acc2[j] == acc[j]);
                    } else {
                        assert(acc2[j] == cl);
                        assert(acc2[i] == acc[i]);
                        if acc[i].url == cl.url {
                            assert(has_url(acc, cl.url));
                        }
                    }
                }
                lemma_process_rec_props(cs, cfg, rest, acc2);
                assert(out.subrange(0, acc2.len() as int) == acc2);
                assert forall|k: int| 0 <= k < acc.len() implies out.subrange(
                    0,
                    acc.len() as int,
                )[k] == acc[k] by {
                    assert(out[k] == acc2[k]);
                }
                assert(out.subrange(0, acc.len() as int) =~= acc);
                assert(has_url(acc2, cl.url)) by {
                    assert(acc2[acc.len() as int].url == cl.url);
                }
                assert forall|k: int|
                    acc.len() <= k < out.len() implies !has_url(acc, #[trigger] out[k].url)
                    && first_surviving_clean(cs, cfg, links, out[k].url) == Some(out[k]) by {
                    if k == acc.len() {
                        assert(out[k] == acc2[k] && acc2[k] == cl);
                        assert(!has_url(acc, cl.url));
                        assert(chain_clean_spec(cs, links[0].url) == cl.url);
                        assert(first_surviving_clean(cs, cfg, links, cl.url) == Some(cl));
                    } else {
                        assert(!has_url(acc2, out[k].url));
                        assert forall|i: int| 0 <= i < acc.len() implies #[trigger] acc[i].url
                            != out[k].url by {
                            assert(acc2[i] == acc[i]);
                        }
                        assert(out[k].url != cl.url) by {
                            assert(acc2[acc.len() as int].url == cl.url);
                        }
                        assert(first_surviving_clean(cs, cfg, rest, out[k].url) == Some(out[k]));
                    }
                }
                assert forall|j: int|
                    0 <= j < links.len() && link_survives(cfg, #[trigger] links[j]) implies has_url(
                    out,
                    chain_clean_spec(cs, links[j].url),
                ) by {
                    if j == 0 {
                        assert(out[acc.len() as int] == acc2[acc.len() as int]);
                        assert(out[acc.len() as int].url == chain_clean_spec(cs, links[0].url));
                    } else {
                        assert(links[j] == rest[j - 1]);
                    }
                }
            }
        } else {
            lemma_process_rec_props(cs, cfg, rest, acc);
            assert forall|j: int|
                0 <= j < links.len() && link_survives(cfg, #[trigger] links[j]) implies has_url(
                out,
                chain_clean_spec(cs, links[j].url),
            ) by {
                assert(j != 0);
                assert(links[j] == rest[j - 1]);
            }
        }
    }
}

/// Law (deduplication, first occurrence wins): the processor's output has
/// pairwise distinct URLs; each of its links is exactly the cleaned form
/// of the first surviving input link that cleaned to that URL — so of two
/// inputs with the same cleaned URL, the earlier one's text and provenance
/// are kept; and every surviving input is represented by its cleaned URL.
pub proof fn lemma_process_dedup_first_wins(
    cs: Seq<CleanerKind>,
    cfg: ConfigView,
    links: Seq<LinkView>,
)
    ensures
        distinct_urls(process_spec(cs, cfg, links)),
        forall|k: int|
            0 <= k < process_spec(cs, cfg, links).len() ==> first_surviving_clean(
                cs,
                cfg,
                links,
                #[trigger] process_spec(cs, cfg, links)[k].url,
            ) == Some(process_spec(cs, cfg, links)[k]),
        forall|j: int|
            0 <= j < links.len() && link_survives(cfg, #[trigger] links[j]) ==> has_url(
                process_spec(cs, cfg, links),
                chain_clean_spec(cs, links[j].url),
            ),
{
    lemma_process_rec_props(cs, cfg, links, Seq::empty());
}

/// A first survivor exists in the input: it is some surviving link, cleaned.
pub proof fn lemma_first_surviving_clean_origin(
    cs: Seq<CleanerKind>,
    cfg: ConfigView,
    links: Seq<LinkView>,
    u: Seq<char>,
)
    requires
        first_surviving_clean(cs, cfg, links, u) is Some,
    ensures
        exists|j: int|
            0 <= j < links.len() && link_survives(cfg, #[trigger] links[j]) && clean_link_spec(
                cs,
                links[j],
            ) == first_surviving_clean(cs, cfg, links, u)->Some_0 && chain_clean_spec(
                cs,
                links[j].url,
            ) == u,
    decreases links.len(),
{
    if link_survives(cfg, links[0]) && chain_clean_spec(cs, links[0].url) == u {
        assert(0 <= 0 < links.len() && link_survives(cfg, links[0int]) && clean_link_spec(
            cs,
            links[0],
        ) == first_surviving_clean(cs, cfg, links, u)->Some_0 && chain_clean_spec(
            cs,
            links[0].url,
        ) == u);
    } else {
        let rest = links.drop_first();
        lemma_first_surviving_clean_origin(cs, cfg, rest, u);
        let j = choose|j: int|
            0 <= j < rest.len() && link_survives(cfg, #[trigger] rest[j]) && clean_link_spec(
                cs,
                rest[j],
            ) == first_surviving_clean(cs, cfg, rest, u)->Some_0 && chain_clean_spec(
                cs,
                rest[j].url,
            ) == u;
        assert(links[j + 1] == rest[j]);
        assert(0 <= j + 1 < links.len() && link_survives(cfg, links[j + 1]) && clean_link_spec(
            cs,
            links[j + 1],
        ) == first_surviving_clean(cs, cfg, links, u)->Some_0 && chain_clean_spec(
            cs,
            links[j + 1].url,
        ) == u);
    }
}

/// The input with every bare-fragment link removed.
pub open spec fn drop_fragment_links(links: Seq<LinkView>) -> Seq<LinkView>
    decreases links.len(),
{
    if links.len() == 0 {
        Seq::empty()
    } else if is_fragment_url(links[0].url) {
        drop_fragment_links(links.drop_first())
    } else {
        seq![links[0]] + drop_fragment_links(links.drop_first())
    }
}

proof fn lemma_fragment_links_ignored_rec(
    cs: Seq<CleanerKind>,
    cfg: ConfigView,
    links: Seq<LinkView>,
    acc: Seq<LinkView>,
)
    ensures
        process_rec(cs, cfg, links, acc) == process_rec(cs, cfg, drop_fragment_links(links), acc),
    decreases links.len(),
{
    if links.len() == 0 {
    } else {
        let l = links[0];
        let rest = links.drop_first();
        if is_fragment_url(l.url) {
            assert(!link_survives(cfg, l));
            lemma_fragment_links_ignored_rec(cs, cfg, rest, acc);
        } else {
            let dropped = seq![l] + drop_fragment_links(rest);
            assert(dropped[0] == l);
            assert(dropped.drop_first() =~= drop_fragment_links(rest));
            if link_survives(cfg, l) {
                let cl = clean_link_spec(cs, l);
                if has_url(acc, cl.url) {
                    lemma_fragment_links_ignored_rec(cs, cfg, rest, acc);
                } else {
                    lemma_fragment_links_ignored_rec(cs, cfg, rest, acc.push(cl));
                }
            } else {
                lemma_fragment_links_ignored_rec(cs, cfg, rest, acc);
            }
        }
    }
}

/// Law (fragment skip): a link whose URL is a bare in-page anchor never
/// influences the output — removing all such links changes nothing.
pub proof fn lemma_fragment_links_ignored(
    cs: Seq<CleanerKind>,
    cfg: ConfigView,
    links: Seq<LinkView>,
)
    ensures
        process_spec(cs, cfg, links) == process_spec(cs, cfg, drop_fragment_links(links)),
{
    lemma_fragment_links_ignored_rec(cs, cfg, links, Seq::empty());
}

/// Law (protocol filter): with a non-empty allow-list, a link whose URL
/// does not resolve to a listed scheme is never a survivor.
pub proof fn lemma_protocol_filter_excludes(cfg: ConfigView, l: LinkView)
    requires
        cfg.filter_protocol.len() > 0,
        (match url_resolve_spec(l.url) {
            Some(p) => !seq_contains_str(cfg.filter_protocol, p.scheme),
            None => true,
        }),
    ensures
        !link_survives(cfg, l),
{
}

/// Mathematical value of [`UrlProcessor`].
#[verifier::ext_equal]
pub ghost struct ProcessorView {
    pub cfg: ConfigView,
    pub cleaners: Seq<CleanerKind>,
}

/// Orchestrates validation, filtering, cleaning and deduplication.
pub struct UrlProcessor {
    config: UrlProcessorConfig,
    url_cleaner: CompositeUrlCleaner,
}

impl View for UrlProcessor {
    type V = ProcessorView;

    closed spec fn view(&self) -> ProcessorView {
        ProcessorView { cfg: self.config@, cleaners: self.url_cleaner@ }
    }
}

/// Membership of `s` among the strings of `v`.
fn contains_string(v: &Vec<String>, s: &str) -> (r: bool)
    ensures
        r == seq_contains_str(v.deep_view(), s@),
{
    let mut i: usize = 0;
    while i < v.len()
        invariant
            i <= v.len(),
            forall|k: int| 0 <= k < i ==> #[trigger] v.deep_view()[k] != s@,
        decreases v.len() - i,
    {
        proof {
            assert(v.deep_view()[i as int] == v@[i as int]@);
        }
        if str_eq(v[i].as_str(), s) {
            return true;
        }
        i += 1;
    }
    false
}

/// The domain filter, on resolved parts.
fn passes_domain(config: &UrlProcessorConfig, parts: &UrlParts) -> (r: bool)
    ensures
        r == domain_ok(config@, parts@),
{
    match &config.filter_domain {
        None => true,
        Some(d) => match &parts.host {
            Some(h) => str_contains(h.as_str(), d.as_str()),
            None => false,
        },
    }
}

/// The protocol filter, on resolved parts.
fn passes_protocol(config: &UrlProcessorConfig, parts: &UrlParts) -> (r: bool)
    ensures
        r == protocol_ok(config@, parts@),
{
    if config.filter_protocol.len() == 0 {
        true
    } else {
        contains_string(&config.filter_protocol, parts.scheme.as_str())
    }
}

/// Whether `out` already holds a link with this URL.
fn output_has_url(out: &Vec<Link>, url: &String) -> (r: bool)
    ensures
        r == has_url(out.deep_view(), url@),
{
    let mut i: usize = 0;
    while i < out.len()
        invariant
            i <= out.len(),
            forall|k: int| 0 <= k < i ==> #[trigger] out.deep_view()[k].url != url@,
        decreases out.len() - i,
    {
        proof {
            assert(out.deep_view()[i as int] == out@[i as int]@);
        }
        if str_eq(out[i].url.as_str(), url.as_str()) {
            proof {
                assert(out.deep_view()[i as int].url == url@);
            }
            return true;
        }
        i += 1;
    }
    false
}

impl UrlProcessor {
    /// Build a processor from a configuration and a cleaner chain.
    pub fn new(config: UrlProcessorConfig, url_cleaner: CompositeUrlCleaner) -> (r: Self)
        ensures
            r@.cfg == config@,
            r@.cleaners == url_cleaner@,
    {
        UrlProcessor { config, url_cleaner }
    }

    /// Validate, filter, clean and deduplicate the whole link sequence.
    /// No single bad link aborts the batch, so the result is always `Ok`;
    /// its value is exactly `process_spec`.
    pub fn process_urls(&self, url_infos: Vec<Link>) -> (r: Result<Vec<Link>, ExtractError>)
        ensures
            r is Ok,
            r->Ok_0.deep_view() == process_spec(self@.cleaners, self@.cfg, url_infos.deep_view()),
    {
        match self.process_urls_reporting(url_infos) {
            Ok((kept, _)) => Ok(kept),
            Err(e) => Err(e),
        }
    }

    /// As [`Self::process_urls`], but also hand back the links that were
    /// discarded as malformed (neither absolute nor resolvable against the
    /// synthetic base), in input order, so the caller can warn about each
    /// with its URL and source document.
    pub fn process_urls_reporting(&self, url_infos: Vec<Link>) -> (r: Result<
        (Vec<Link>, Vec<Link>),
        ExtractError,
    >)
        ensures
            r is Ok,
            r->Ok_0.0.deep_view() == process_spec(self@.cleaners, self@.cfg, url_infos.deep_view()),
            r->Ok_0.1.deep_view() == malformed_links_spec(url_infos.deep_view()),
    {
        let ghost cs = self@.cleaners;
        let ghost cfg = self@.cfg;
        let ghost dv = url_infos.deep_view();
        let mut out: Vec<Link> = Vec::new();
        let mut dropped: Vec<Link> = Vec::new();
        let mut i: usize = 0;
        proof {
            assert(dv.skip(0) =~= dv);
            assert(out.deep_view() =~= Seq::<LinkView>::empty());
            assert(dropped.deep_view() =~= Seq::<LinkView>::empty());
            assert(dropped.deep_view() + malformed_links_spec(dv) =~= malformed_links_spec(dv));
        }
        while i < url_infos.len()
            invariant
                i <= url_infos.len(),
                cs == self@.cleaners,
                cfg == self@.cfg,
                dv == url_infos.deep_view(),
                process_rec(cs, cfg, dv, Seq::empty()) == process_rec(
                    cs,
                    cfg,
                    dv.skip(i as int),
                    out.deep_view(),
                ),
                malformed_links_spec(dv) == dropped.deep_view() + malformed_links_spec(
                    dv.skip(i as int),
                ),
            decreases url_infos.len() - i,
        {
            let link = &url_infos[i];
            proof {
                assert(dv.skip(i as int)[0] == dv[i as int]);
                assert(dv.skip(i as int).drop_first() =~= dv.skip(i + 1));
                assert(dv[i as int] == url_infos@[i as int]@);
            }
            let ulen = link.url.as_str().unicode_len();
            let is_frag = ulen > 0 && link.url.as_str().get_char(0) == '#';
            if !is_frag {
                match resolve_url_parts(link.url.as_str()) {
                    None => {
                        let ghost prevd = dropped.deep_view();
                        let bad = link.clone();
                        let ghost bv = bad@;
                        dropped.push(bad);
                        proof {
                            assert(dropped.deep_view() =~= prevd.push(bv));
                            assert(dropped.deep_view() + malformed_links_spec(dv.skip(i + 1))
                                =~= prevd + malformed_links_spec(dv.skip(i as int)));
                        }
                    },
                    Some(parts) => {
                        if passes_domain(&self.config, &parts) && passes_protocol(
                            &self.config,
                            &parts,
                        ) {
                            let cleaned = self.url_cleaner.clean(link);
                            proof {
                                assert(link_survives(cfg, dv[i as int]));
                                assert(cleaned@ =~= clean_link_spec(cs, dv[i as int]));
                            }
                            if !output_has_url(&out, &cleaned.url) {
                                let ghost prev = out.deep_view();
                                let ghost cv = cleaned@;
                                out.push(cleaned);
                                proof {
                                    assert(out.deep_view() =~= prev.push(cv));
                                }
                            }
                        }
                    },
                }
            }
            i += 1;
        }
        proof {
            assert(dv.skip(dv.len() as int) =~= Seq::<LinkView>::empty());
        }
        Ok((out, dropped))
    }
}

} // verus!
