//! The Markdown link scanner: from one document's text to its links, in
//! document order, over the CommonMark event stream.
use vstd::prelude::*;
use crate::model::{Link, LinkView};

verus! {

/// Mathematical value of [`MdEvent`].
pub ghost enum MdEventView {
    LinkStart(Seq<char>),
    Text(Seq<char>),
    LinkEnd,
    Other,
}

/// One CommonMark event, reduced to what the scanner reads: a link
/// opening with its destination, a text run, a link closing, or anything
/// else.
pub enum MdEvent {
    LinkStart(String),
    Text(String),
    LinkEnd,
    Other,
}

impl View for MdEvent {
    type V = MdEventView;

    open spec fn view(&self) -> MdEventView {
        match self {
            MdEvent::LinkStart(d) => MdEventView::LinkStart(d@),
            MdEvent::Text(t) => MdEventView::Text(t@),
            MdEvent::LinkEnd => MdEventView::LinkEnd,
            MdEvent::Other => MdEventView::Other,
        }
    }
}

impl DeepView for MdEvent {
    type V = MdEventView;

    open spec fn deep_view(&self) -> MdEventView {
        self.view()
    }
}

/// The CommonMark event stream of a document, in document order, reduced
/// to [`MdEventView`]; a function of the text alone.
pub uninterp spec fn md_events_spec(text: Seq<char>) -> Seq<MdEventView>;

/// Relies on `pulldown_cmark::Parser`: the CommonMark event stream of the
/// text, in document order.  Openings of inline- and reference-style links
/// keep their destination and text runs their content.  Autolinks
/// (`<http://...>`, `<user@host>`) also arrive as link openings but are
/// not link constructs here, so they collapse to `Other`, as do images and
/// every other construct; the scanner ignores `Other`.
#[verifier::external_body]
pub(crate) fn markdown_events(text: &str) -> (r: Vec<MdEvent>)
    ensures
        r.deep_view() == md_events_spec(text@),
{
    pulldown_cmark::Parser::new(text).map(|ev| match ev {
        pulldown_cmark::Event::Start(pulldown_cmark::Tag::Link { link_type, dest_url, .. }) =>
            match link_type {
                pulldown_cmark::LinkType::Autolink => MdEvent::Other,
                pulldown_cmark::LinkType::Email => MdEvent::Other,
                _ => MdEvent::LinkStart(dest_url.to_string()),
            },
        pulldown_cmark::Event::Text(t) => MdEvent::Text(t.to_string()),
        pulldown_cmark::Event::End(pulldown_cmark::TagEnd::Link) => MdEvent::LinkEnd,
        _ => MdEvent::Other,
    }).collect()
}

/// The scanner's fold over the event stream.  `cur` is the open link span,
/// if any: its destination and the text gathered so far.  A link opening
/// (re)starts the span, text inside a span is concatenated, a closing
/// emits the link; everything else is ignored.  An unterminated span at
/// the end of the stream yields nothing.
pub open spec fn scan_rec(
    events: Seq<MdEventView>,
    source: Seq<char>,
    cur: Option<(Seq<char>, Seq<char>)>,
    acc: Seq<LinkView>,
) -> Seq<LinkView>
    decreases events.len(),
{
    if events.len() == 0 {
        acc
    } else {
        let rest = events.drop_first();
        match events[0] {
            MdEventView::LinkStart(d) => scan_rec(rest, source, Some((d, Seq::empty())), acc),
            MdEventView::Text(t) => match cur {
                Some(c) => scan_rec(rest, source, Some((c.0, c.1 + t)), acc),
                None => scan_rec(rest, source, None, acc),
            },
            MdEventView::LinkEnd => match cur {
                Some(c) => scan_rec(
                    rest,
                    source,
                    None,
                    acc.push(LinkView { url: c.0, source_file: source, link_text: c.1 }),
                ),
                None => scan_rec(rest, source, None, acc),
            },
            MdEventView::Other => scan_rec(rest, source, cur, acc),
        }
    }
}

/// The links of one document's event stream: one per well-formed link
/// construct, in order, with all nested text concatenated.
pub open spec fn scan_spec(events: Seq<MdEventView>, source: Seq<char>) -> Seq<LinkView> {
    scan_rec(events, source, None, Seq::empty())
}

/// Fold an event stream into links, as `scan_spec` says.
pub fn scan_events(events: &Vec<MdEvent>, source_file: &str) -> (r: Vec<Link>)
    ensures
        r.deep_view() == scan_spec(events.deep_view(), source_file@),
{
    let ghost ev = events.deep_view();
    let ghost sf = source_file@;
    let mut out: Vec<Link> = Vec::new();
    let mut cur_active = false;
    let mut cur_url = String::new();
    let mut cur_text = String::new();
    let mut i: usize = 0;
    proof {
        assert(ev.skip(0) =~= ev);
        assert(out.deep_view() =~= Seq::<LinkView>::empty());
    }
    while i < events.len()
        invariant
            i <= events.len(),
            ev == events.deep_view(),
            sf == source_file@,
            scan_rec(ev, sf, None, Seq::empty()) == scan_rec(
                ev.skip(i as int),
                sf,
                if cur_active {
                    Some((cur_url@, cur_text@))
                } else {
                    None
                },
                out.deep_view(),
            ),
        decreases events.len() - i,
    {
        proof {
            assert(ev.skip(i as int)[0] == ev[i as int]);
            assert(ev.skip(i as int).drop_first() =~= ev.skip(i + 1));
            assert(ev[i as int] == events@[i as int]@);
        }
        match &events[i] {
            MdEvent::LinkStart(d) => {
                cur_active = true;
                cur_url = d.clone();
                cur_text = String::new();
                proof {
                    assert(cur_text@ =~= Seq::<char>::empty());
                }
            },
            MdEvent::Text(t) => {
                if cur_active {
                    cur_text.append(t.as_str());
                }
            },
            MdEvent::LinkEnd => {
                if cur_active {
                    let link = Link {
                        url: cur_url.clone(),
                        source_file: source_file.to_owned(),
                        link_text: cur_text.clone(),
                    };
                    let ghost prev = out.deep_view();
                    let ghost lv = link@;
                    proof {
                        assert(lv =~= (LinkView {
                            url: cur_url@,
                            source_file: sf,
                            link_text: cur_text@,
                        }));
                    }
                    out.push(link);
                    proof {
                        assert(out.deep_view() =~= prev.push(lv));
                    }
                    cur_active = false;
                }
            },
            MdEvent::Other => {},
        }
        i += 1;
    }
    proof {
        assert(ev.skip(ev.len() as int) =~= Seq::<MdEventView>::empty());
    }
    out
}

/// Scan one document: the links of its well-formed inline link
/// constructs, in document order, tagged with the document identifier.
pub fn extract_links_from_markdown(content: &str, source_file: &str) -> (r: Vec<Link>)
    ensures
        r.deep_view() == scan_spec(md_events_spec(content@), source_file@),
{
    let events = markdown_events(content);
    scan_events(&events, source_file)
}

} // verus!
