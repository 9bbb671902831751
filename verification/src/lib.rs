use vstd::prelude::*;

pub mod cleaner;
pub mod extractor;
pub mod model;
pub mod processor;
pub mod query;
pub mod scanner;
pub mod text;
pub mod urls;

verus! {

pub use crate::cleaner::{
    CleanerKind, CompositeUrlCleaner, TrackerParamCleaner, UrlCleaner, YouTubeUrlCleaner,
};
pub use crate::extractor::LinkExtractorService;
pub use crate::model::{CliArgs, ExtractError, Link};
pub use crate::processor::{UrlProcessor, UrlProcessorConfig};

} // verus!
