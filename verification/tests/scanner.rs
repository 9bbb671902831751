use md_url_extractor::extractor::LinkExtractorService;
use md_url_extractor::scanner::extract_links_from_markdown;
use md_url_extractor::text::split_str;

#[test]
fn nested_text_is_concatenated() {
    let links = extract_links_from_markdown("[foo **bar** baz](http://x)", "doc.md");
    assert_eq!(links.len(), 1);
    assert_eq!(links[0].url, "http://x");
    assert_eq!(links[0].link_text, "foo bar baz");
    assert_eq!(links[0].source_file, "doc.md");
}

#[test]
fn links_come_in_document_order() {
    let links = extract_links_from_markdown(
        "See [one](http://a) and then [two](http://b).",
        "doc.md",
    );
    let urls: Vec<&str> = links.iter().map(|l| l.url.as_str()).collect();
    assert_eq!(urls, ["http://a", "http://b"]);
    assert_eq!(links[0].link_text, "one");
    assert_eq!(links[1].link_text, "two");
}

#[test]
fn images_yield_no_links() {
    let links = extract_links_from_markdown("![alt text](http://img.example/x.png)", "doc.md");
    assert!(links.is_empty());
}

#[test]
fn autolinks_yield_no_links() {
    let links = extract_links_from_markdown(
        "See <http://auto.example/> or write to <user@example.org>.",
        "doc.md",
    );
    assert!(links.is_empty());
}

#[test]
fn autolink_beside_a_real_link_does_not_disturb_it() {
    let links = extract_links_from_markdown(
        "<http://auto.example/> then [real](http://real.example/)",
        "doc.md",
    );
    let urls: Vec<&str> = links.iter().map(|l| l.url.as_str()).collect();
    assert_eq!(urls, ["http://real.example/"]);
    assert_eq!(links[0].link_text, "real");
}

#[test]
fn link_without_text_has_empty_text() {
    let links = extract_links_from_markdown("[](http://bare)", "doc.md");
    assert_eq!(links.len(), 1);
    assert_eq!(links[0].url, "http://bare");
    assert_eq!(links[0].link_text, "");
}

#[test]
fn reference_style_links_are_found() {
    let links = extract_links_from_markdown(
        "See [docs][1].\n\n[1]: http://ref.example/",
        "doc.md",
    );
    assert_eq!(links.len(), 1);
    assert_eq!(links[0].url, "http://ref.example/");
    assert_eq!(links[0].link_text, "docs");
}

#[test]
fn malformed_markdown_yields_fewer_links_not_an_error() {
    let links = extract_links_from_markdown("[unterminated](http://a) then [broken", "doc.md");
    let urls: Vec<&str> = links.iter().map(|l| l.url.as_str()).collect();
    assert_eq!(urls, ["http://a"]);
}

#[test]
fn service_merges_documents_and_processes() {
    let service = LinkExtractorService::new();
    let documents = vec![
        (
            "a.md".to_string(),
            "[one](https://example.com/a?utm_source=x) and [anchor](#top)".to_string(),
        ),
        ("b.md".to_string(), "[dup](https://example.com/a)".to_string()),
    ];
    let out = service
        .extract_and_process_links(documents, None, Vec::new())
        .unwrap();
    assert_eq!(out.len(), 1);
    assert_eq!(out[0].url, "https://example.com/a");
    assert_eq!(out[0].link_text, "one");
    assert_eq!(out[0].source_file, "a.md");
}

#[test]
fn service_reports_malformed_links() {
    let service = LinkExtractorService::new();
    let documents = vec![(
        "bad.md".to_string(),
        "[broken](http://) and [fine](https://example.com/)".to_string(),
    )];
    let (kept, dropped) = service
        .extract_and_process_links_reporting(documents, None, Vec::new())
        .unwrap();
    assert_eq!(kept.len(), 1);
    assert_eq!(kept[0].url, "https://example.com/");
    assert_eq!(dropped.len(), 1);
    assert_eq!(dropped[0].url, "http://");
    assert_eq!(dropped[0].source_file, "bad.md");
}

#[test]
fn split_keeps_empty_segments() {
    let segs = split_str("/embed/abc123", '/');
    assert_eq!(segs, ["", "embed", "abc123"]);
    let segs2 = split_str("a//b/", '/');
    assert_eq!(segs2, ["a", "", "b", ""]);
    let segs3 = split_str("plain", '/');
    assert_eq!(segs3, ["plain"]);
}
