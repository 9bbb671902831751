//! The parts of a URL that the pipeline reads, as plain values, and the
//! trusted boundary to the `url` crate that computes them.
//!
//! Parsing follows the WHATWG URL standard and is far too large to state
//! here, so the outcome of each parsing operation is given a name
//! (an uninterpreted function of the input alone); the pipeline's own logic
//! is verified against those names.
use vstd::prelude::*;

verus! {

/// Mathematical value of [`UrlParts`].
#[verifier::ext_equal]
pub ghost struct UrlPartsView {
    pub scheme: Seq<char>,
    pub host: Option<Seq<char>>,
    pub path: Seq<char>,
    pub pairs: Seq<(Seq<char>, Seq<char>)>,
}

/// What the pipeline reads from a parsed URL: its scheme, its host if it
/// has one, its percent-encoded path, and its decoded query pairs in order.
pub struct UrlParts {
    pub scheme: String,
    pub host: Option<String>,
    pub path: String,
    pub pairs: Vec<(String, String)>,
}

impl View for UrlParts {
    type V = UrlPartsView;

    open spec fn view(&self) -> UrlPartsView {
        UrlPartsView {
            scheme: self.scheme@,
            host: match self.host {
                Some(h) => Some(h@),
                None => None,
            },
            path: self.path@,
            pairs: self.pairs.deep_view(),
        }
    }
}

/// The parts that `url::Url::parse` yields for an absolute URL string, or
/// `None` where parsing fails; a function of the string alone.
pub uninterp spec fn url_parse_spec(s: Seq<char>) -> Option<UrlPartsView>;

/// The serialization that the `url` crate gives a parsed URL after its
/// query string is replaced (`None` removes it); a function of the
/// original string and the new query alone.  Meaningful only where
/// `url_parse_spec` succeeds on `s`.
pub uninterp spec fn url_with_query_spec(s: Seq<char>, q: Option<Seq<char>>) -> Seq<char>;

/// The parts obtained by parsing `s` as absolute, or else resolving it
/// against the fixed synthetic base `http://base.example.com/`; `None`
/// where both fail.  A function of the string alone.
pub uninterp spec fn url_resolve_spec(s: Seq<char>) -> Option<UrlPartsView>;

pub open spec fn opt_parts_view(r: Option<UrlParts>) -> Option<UrlPartsView> {
    match r {
        Some(p) => Some(p@),
        None => None,
    }
}

pub open spec fn opt_str_view(q: Option<&str>) -> Option<Seq<char>> {
    match q {
        Some(x) => Some(x@),
        None => None,
    }
}

/// Relies on `url::Url::parse` and the accessors `scheme`, `host_str`,
/// `path` and `query_pairs`: the parts of an absolute URL, with the query
/// decoded as `application/x-www-form-urlencoded` pairs in order.
#[verifier::external_body]
pub(crate) fn parse_url_parts(s: &str) -> (r: Option<UrlParts>)
    ensures
        opt_parts_view(r) == url_parse_spec(s@),
{
    let u = url::Url::parse(s).ok()?;
    Some(UrlParts {
        scheme: u.scheme().to_string(),
        host: u.host_str().map(|h| h.to_string()),
        path: u.path().to_string(),
        pairs: u.query_pairs().map(|(k, v)| (k.to_string(), v.to_string())).collect(),
    })
}

/// Relies on `url::Url::parse` and `Url::join`: the parts of `s` parsed as
/// absolute, or else resolved against the fixed base
/// `http://base.example.com/`, as the processor's validation step asks.
#[verifier::external_body]
pub(crate) fn resolve_url_parts(s: &str) -> (r: Option<UrlParts>)
    ensures
        opt_parts_view(r) == url_resolve_spec(s@),
{
    let u = match url::Url::parse(s) {
        Ok(u) => u,
        Err(_) => url::Url::parse("http://base.example.com/").ok()?.join(s).ok()?,
    };
    Some(UrlParts {
        scheme: u.scheme().to_string(),
        host: u.host_str().map(|h| h.to_string()),
        path: u.path().to_string(),
        pairs: u.query_pairs().map(|(k, v)| (k.to_string(), v.to_string())).collect(),
    })
}

/// Relies on `url::Url::parse`, `Url::set_query` and `Url::as_str`: the
/// input URL re-serialized with its query string replaced by `q` (removed
/// for `None`), every other component kept.
#[verifier::external_body]
pub(crate) fn rewrite_url_query(s: &str, q: Option<&str>) -> (r: Option<String>)
    ensures
        r is Some <==> url_parse_spec(s@) is Some,
        r is Some ==> r->Some_0@ == url_with_query_spec(s@, opt_str_view(q)),
{
    match url::Url::parse(s) {
        Ok(mut u) => {
            u.set_query(q);
            Some(u.as_str().to_string())
        },
        Err(_) => None,
    }
}

} // verus!
