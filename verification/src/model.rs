//! The record type that flows through the pipeline, and the configuration
//! values the pipeline is built from.
use vstd::prelude::*;

verus! {

/// Mathematical value of a [`Link`]: the three fields as character sequences.
#[verifier::ext_equal]
pub ghost struct LinkView {
    pub url: Seq<char>,
    pub source_file: Seq<char>,
    pub link_text: Seq<char>,
}

/// A single hyperlink extracted from a Markdown document: the destination
/// URL as written in the source, the document it came from, and the
/// concatenated anchor text of the link span.
#[derive(Debug)]
pub struct Link {
    pub url: String,
    pub source_file: String,
    pub link_text: String,
}

impl View for Link {
    type V = LinkView;

    open spec fn view(&self) -> LinkView {
        LinkView { url: self.url@, source_file: self.source_file@, link_text: self.link_text@ }
    }
}

impl DeepView for Link {
    type V = LinkView;

    open spec fn deep_view(&self) -> LinkView {
        self.view()
    }
}

impl Clone for Link {
    fn clone(&self) -> (r: Self)
        ensures
            r@ == self@,
    {
        Link {
            url: self.url.clone(),
            source_file: self.source_file.clone(),
            link_text: self.link_text.clone(),
        }
    }
}

impl Link {
    /// Build a link record from its three fields.
    pub fn new(url: String, source_file: String, link_text: String) -> (r: Link)
        ensures
            r@ == (LinkView { url: url@, source_file: source_file@, link_text: link_text@ }),
    {
        Link { url, source_file, link_text }
    }
}

/// The errors the pipeline distinguishes: a URL that neither parses as
/// absolute nor resolves against the synthetic base, a document that could
/// not be read, and a configuration the pipeline cannot be built from.
#[derive(Clone, Copy, PartialEq, Eq, Structural, Debug)]
pub enum ExtractError {
    MalformedUrl,
    UnreadableFile,
    InvalidConfiguration,
}

/// Command-line choices, as plain values: the input directory, the output
/// format name, an optional output path, and the two URL filters.
#[derive(Debug)]
pub struct CliArgs {
    pub input_dir: String,
    pub output_format: String,
    pub output_path: Option<String>,
    pub filter_domain: Option<String>,
    pub filter_protocol: Vec<String>,
}

} // verus!
