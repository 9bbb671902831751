//! The extraction orchestrator: scans each document independently, merges
//! the results in document order, and hands the merged list to the URL
//! processor.  Reading files and fanning the scan out over them is the
//! caller's part; this service works on already-read document texts.
use vstd::prelude::*;
use crate::cleaner::{
    CleanerKind, CompositeUrlCleaner, TrackerParamCleaner, YouTubeUrlCleaner, opt_string_view,
};
use crate::model::{ExtractError, Link, LinkView};
use crate::processor::{
    ConfigView, UrlProcessor, UrlProcessorConfig, malformed_links_spec, process_spec,
};
use crate::scanner::{extract_links_from_markdown, md_events_spec, scan_spec};

verus! {

/// The cleaner chain the service registers: tracker stripping first, then
/// YouTube canonicalization.
pub open spec fn default_chain_spec() -> Seq<CleanerKind> {
    seq![
        CleanerKind::Tracker(TrackerParamCleaner),
        CleanerKind::YouTube(YouTubeUrlCleaner),
    ]
}

/// The merged scans of a document list, each document given as
/// `(identifier, text)`: per-document links in document order, documents
/// in list order.
pub open spec fn merged_scans_spec(docs: Seq<(Seq<char>, Seq<char>)>) -> Seq<LinkView>
    decreases docs.len(),
{
    if docs.len() == 0 {
        Seq::empty()
    } else {
        merged_scans_spec(docs.drop_last()) + scan_spec(
            md_events_spec(docs.last().1),
            docs.last().0,
        )
    }
}

/// Orchestrates link extraction and processing over a set of documents.
pub struct LinkExtractorService;

impl LinkExtractorService {
    pub fn new() -> (r: Self)
        ensures
            r == LinkExtractorService,
    {
        LinkExtractorService
    }

    /// Build the URL processor with the default cleaner chain.
    fn create_url_processor(&self, config: UrlProcessorConfig) -> (r: UrlProcessor)
        ensures
            r@.cfg == config@,
            r@.cleaners == default_chain_spec(),
    {
        let mut composite_cleaner = CompositeUrlCleaner::new();
        composite_cleaner.add_cleaner(CleanerKind::Tracker(TrackerParamCleaner::new()));
        composite_cleaner.add_cleaner(CleanerKind::YouTube(YouTubeUrlCleaner::new()));
        proof {
            assert(composite_cleaner@ =~= default_chain_spec());
        }
        UrlProcessor::new(config, composite_cleaner)
    }

    /// Scan every document of `documents` (each an `(identifier, text)`
    /// pair, already read), merge the links in document order, and run the
    /// processor over the merged list with the given filters.
    pub fn extract_and_process_links(
        &self,
        documents: Vec<(String, String)>,
        filter_domain: Option<String>,
        filter_protocol: Vec<String>,
    ) -> (r: Result<Vec<Link>, ExtractError>)
        ensures
            r is Ok,
            r->Ok_0.deep_view() == process_spec(
                default_chain_spec(),
                (ConfigView {
                    filter_domain: opt_string_view(filter_domain),
                    filter_protocol: filter_protocol.deep_view(),
                }),
                merged_scans_spec(documents.deep_view()),
            ),
    {
        match self.extract_and_process_links_reporting(documents, filter_domain, filter_protocol) {
            Ok((kept, _)) => Ok(kept),
            Err(e) => Err(e),
        }
    }

    /// As [`Self::extract_and_process_links`], but also hand back the
    /// links the processor discarded as malformed, each with its URL and
    /// source document, so the caller can warn about them.
    pub fn extract_and_process_links_reporting(
        &self,
        documents: Vec<(String, String)>,
        filter_domain: Option<String>,
        filter_protocol: Vec<String>,
    ) -> (r: Result<(Vec<Link>, Vec<Link>), ExtractError>)
        ensures
            r is Ok,
            r->Ok_0.0.deep_view() == process_spec(
                default_chain_spec(),
                (ConfigView {
                    filter_domain: opt_string_view(filter_domain),
                    filter_protocol: filter_protocol.deep_view(),
                }),
                merged_scans_spec(documents.deep_view()),
            ),
            r->Ok_0.1.deep_view() == malformed_links_spec(merged_scans_spec(documents.deep_view())),
    {
        let ghost docs = documents.deep_view();
        let mut links: Vec<Link> = Vec::new();
        let mut i: usize = 0;
        proof {
            assert(docs.take(0) =~= Seq::<(Seq<char>, Seq<char>)>::empty());
            assert(links.deep_view() =~= merged_scans_spec(docs.take(0)));
        }
        while i < documents.len()
            invariant
                i <= documents.len(),
                docs == documents.deep_view(),
                links.deep_view() == merged_scans_spec(docs.take(i as int)),
            decreases documents.len() - i,
        {
            let doc = &documents[i];
            let mut found = extract_links_from_markdown(doc.1.as_str(), doc.0.as_str());
            let ghost prev = links.deep_view();
            let ghost fv = found.deep_view();
            proof {
                assert(docs[i as int] == documents@[i as int].deep_view());
                assert(docs.take(i + 1).drop_last() =~= docs.take(i as int));
                assert(docs.take(i + 1).last() == docs[i as int]);
            }
            links.append(&mut found);
            proof {
                assert(links.deep_view() =~= prev + fv);
            }
            i += 1;
        }
        proof {
            assert(docs.take(docs.len() as int) =~= docs);
        }
        let url_processor = self.create_url_processor(
            UrlProcessorConfig { filter_domain, filter_protocol },
        );
        url_processor.process_urls_reporting(links)
    }
}

} // verus!
