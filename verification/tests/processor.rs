use md_url_extractor::cleaner::{
    CleanerKind, CompositeUrlCleaner, TrackerParamCleaner, YouTubeUrlCleaner,
};
use md_url_extractor::model::Link;
use md_url_extractor::processor::{UrlProcessor, UrlProcessorConfig};

fn link(url: &str, text: &str) -> Link {
    Link::new(url.to_string(), "doc.md".to_string(), text.to_string())
}

fn default_processor(filter_domain: Option<&str>, filter_protocol: &[&str]) -> UrlProcessor {
    let mut composite = CompositeUrlCleaner::new();
    composite.add_cleaner(CleanerKind::Tracker(TrackerParamCleaner::new()));
    composite.add_cleaner(CleanerKind::YouTube(YouTubeUrlCleaner::new()));
    let config = UrlProcessorConfig {
        filter_domain: filter_domain.map(|d| d.to_string()),
        filter_protocol: filter_protocol.iter().map(|p| p.to_string()).collect(),
    };
    UrlProcessor::new(config, composite)
}

fn urls(out: &[Link]) -> Vec<&str> {
    out.iter().map(|l| l.url.as_str()).collect()
}

#[test]
fn dedup_keeps_first_occurrence() {
    let processor = default_processor(None, &[]);
    let out = processor
        .process_urls(vec![
            link("https://example.com/a?utm_source=x", "first"),
            link("https://example.com/a", "second"),
        ])
        .unwrap();
    assert_eq!(out.len(), 1);
    assert_eq!(out[0].url, "https://example.com/a");
    assert_eq!(out[0].link_text, "first");
}

#[test]
fn fragment_links_never_appear() {
    let processor = default_processor(None, &[]);
    let out = processor
        .process_urls(vec![
            link("#section1", "anchor"),
            link("https://example.com/a", "kept"),
        ])
        .unwrap();
    assert_eq!(urls(&out), ["https://example.com/a"]);
}

#[test]
fn protocol_filter_excludes_other_schemes() {
    let processor = default_processor(None, &["https"]);
    let out = processor
        .process_urls(vec![
            link("ftp://host/file", "ftp"),
            link("https://host/file", "https"),
        ])
        .unwrap();
    assert_eq!(urls(&out), ["https://host/file"]);
}

#[test]
fn domain_filter_is_substring_on_host() {
    let processor = default_processor(Some("github.com"), &[]);
    let out = processor
        .process_urls(vec![
            link("https://gist.github.com/a", "kept"),
            link("https://example.com/b", "dropped"),
            link("/relative/only", "no matching host"),
        ])
        .unwrap();
    assert_eq!(urls(&out), ["https://gist.github.com/a"]);
}

#[test]
fn malformed_url_does_not_abort_the_batch() {
    let processor = default_processor(None, &["http", "https"]);
    let result = processor.process_urls(vec![
        link("not a url at all", "bad"),
        link("https://example.com/ok", "good"),
    ]);
    let out = result.expect("a single bad link must not fail the batch");
    assert!(out.iter().any(|l| l.url == "https://example.com/ok"));
}

#[test]
fn word_salad_resolves_against_the_synthetic_base() {
    let processor = default_processor(None, &[]);
    let out = processor
        .process_urls(vec![link("not a url at all", "resolved")])
        .unwrap();
    assert_eq!(urls(&out), ["not a url at all"]);
}

#[test]
fn unresolvable_url_is_dropped() {
    let processor = default_processor(None, &[]);
    let out = processor
        .process_urls(vec![
            link("https://exa mple.com/", "bad host"),
            link("https://example.com/ok", "good"),
        ])
        .unwrap();
    assert_eq!(urls(&out), ["https://example.com/ok"]);
}

#[test]
fn malformed_links_are_reported_with_their_source() {
    let processor = default_processor(None, &[]);
    let (kept, dropped) = processor
        .process_urls_reporting(vec![
            link("https://exa mple.com/", "bad host"),
            link("#anchor", "fragment, not malformed"),
            link("not a url at all", "resolves"),
            link("https://example.com/ok", "good"),
        ])
        .unwrap();
    assert_eq!(urls(&kept), ["not a url at all", "https://example.com/ok"]);
    assert_eq!(dropped.len(), 1);
    assert_eq!(dropped[0].url, "https://exa mple.com/");
    assert_eq!(dropped[0].source_file, "doc.md");
}

#[test]
fn empty_input_gives_empty_output() {
    let processor = default_processor(None, &[]);
    let out = processor.process_urls(Vec::new()).unwrap();
    assert!(out.is_empty());
}

#[test]
fn output_urls_are_cleaned_and_distinct() {
    let processor = default_processor(None, &[]);
    let out = processor
        .process_urls(vec![
            link("https://youtu.be/abc123", "short"),
            link("https://www.youtube.com/watch?v=abc123&t=30", "long"),
            link("https://example.com/a?b=2&utm_source=x", "tracked"),
        ])
        .unwrap();
    assert_eq!(
        urls(&out),
        ["https://www.youtube.com/watch?v=abc123", "https://example.com/a?b=2"]
    );
    assert_eq!(out[0].link_text, "short");
}
