use md_url_extractor::cleaner::{
    CleanerKind, CompositeUrlCleaner, TrackerParamCleaner, UrlCleaner, YouTubeUrlCleaner,
};
use md_url_extractor::model::Link;

fn link(url: &str) -> Link {
    Link::new(url.to_string(), "doc.md".to_string(), "text".to_string())
}

#[test]
fn tracker_params_are_stripped_and_rest_sorted() {
    let cleaner = TrackerParamCleaner::new();
    let out = cleaner.clean(&link("https://example.com/a?utm_source=x&b=2&fbclid=y"));
    assert_eq!(out.url, "https://example.com/a?b=2");
    assert_eq!(out.source_file, "doc.md");
    assert_eq!(out.link_text, "text");
}

#[test]
fn remaining_params_sort_by_key() {
    let cleaner = TrackerParamCleaner::new();
    let out = cleaner.clean(&link("https://example.com/a?c=3&utm_x=1&b=2&a=1"));
    assert_eq!(out.url, "https://example.com/a?a=1&b=2&c=3");
}

#[test]
fn no_trackers_means_untouched() {
    let cleaner = TrackerParamCleaner::new();
    let out = cleaner.clean(&link("https://example.com/a?b=1&c=2"));
    assert_eq!(out.url, "https://example.com/a?b=1&c=2");
}

#[test]
fn all_trackers_removes_query_entirely() {
    let cleaner = TrackerParamCleaner::new();
    let out = cleaner.clean(&link("https://example.com/a?utm_source=x&gclid=1"));
    assert_eq!(out.url, "https://example.com/a");
}

#[test]
fn unparsable_url_left_alone_by_tracker_cleaner() {
    let cleaner = TrackerParamCleaner::new();
    let out = cleaner.clean(&link("/relative/path?utm_source=x"));
    assert_eq!(out.url, "/relative/path?utm_source=x");
}

#[test]
fn tracker_key_recognition() {
    let cleaner = TrackerParamCleaner::new();
    assert!(cleaner.is_tracker_param("utm_source"));
    assert!(cleaner.is_tracker_param("utm_"));
    assert!(cleaner.is_tracker_param("fbclid"));
    assert!(cleaner.is_tracker_param("gclid"));
    assert!(cleaner.is_tracker_param("msclkid"));
    assert!(cleaner.is_tracker_param("ref"));
    assert!(cleaner.is_tracker_param("source"));
    assert!(!cleaner.is_tracker_param("utm"));
    assert!(!cleaner.is_tracker_param("b"));
    assert!(!cleaner.is_tracker_param("reference"));
}

#[test]
fn youtube_short_embed_and_watch_forms_canonicalize() {
    let cleaner = YouTubeUrlCleaner::new();
    let canonical = "https://www.youtube.com/watch?v=abc123";
    for input in [
        "https://youtu.be/abc123",
        "https://www.youtube.com/embed/abc123",
        "https://www.youtube.com/watch?v=abc123&t=30",
        "https://www.youtube.com/v/abc123",
    ] {
        let out = cleaner.clean(&link(input));
        assert_eq!(out.url, canonical, "input {}", input);
    }
}

#[test]
fn youtube_host_without_identifier_left_alone() {
    let cleaner = YouTubeUrlCleaner::new();
    for input in ["https://youtu.be/", "https://www.youtube.com/feed", "https://www.youtube.com/watch?t=30"] {
        let out = cleaner.clean(&link(input));
        assert_eq!(out.url, input, "input {}", input);
    }
}

#[test]
fn non_youtube_host_left_alone() {
    let cleaner = YouTubeUrlCleaner::new();
    let out = cleaner.clean(&link("https://example.com/watch?v=abc123"));
    assert_eq!(out.url, "https://example.com/watch?v=abc123");
}

#[test]
fn host_merely_containing_the_name_left_alone() {
    let cleaner = YouTubeUrlCleaner::new();
    for input in [
        "https://evil-youtube.com.example/watch?v=abc123",
        "https://notyoutube.com/watch?v=abc123",
        "https://youtube.com.example.org/embed/abc123",
    ] {
        let out = cleaner.clean(&link(input));
        assert_eq!(out.url, input, "input {}", input);
    }
}

#[test]
fn youtube_subdomains_canonicalize() {
    let cleaner = YouTubeUrlCleaner::new();
    for input in [
        "https://youtube.com/watch?v=abc123",
        "https://m.youtube.com/watch?v=abc123",
        "https://music.youtube.com/watch?v=abc123",
    ] {
        let out = cleaner.clean(&link(input));
        assert_eq!(out.url, "https://www.youtube.com/watch?v=abc123", "input {}", input);
    }
}

#[test]
fn cleaning_twice_gives_cleaning_once() {
    let tracker = TrackerParamCleaner::new();
    let youtube = YouTubeUrlCleaner::new();
    let mut composite = CompositeUrlCleaner::new();
    composite.add_cleaner(CleanerKind::Tracker(TrackerParamCleaner::new()));
    composite.add_cleaner(CleanerKind::YouTube(YouTubeUrlCleaner::new()));
    for input in [
        "https://example.com/a?utm_source=x&b=2&fbclid=y",
        "https://example.com/a?b=1&c=2",
        "https://youtu.be/abc123",
        "https://www.youtube.com/watch?v=abc123&utm_source=x",
        "not a url at all",
        "#fragment",
    ] {
        let once_t = tracker.clean(&link(input));
        assert_eq!(tracker.clean(&once_t).url, once_t.url, "tracker on {}", input);
        let once_y = youtube.clean(&link(input));
        assert_eq!(youtube.clean(&once_y).url, once_y.url, "youtube on {}", input);
        let once_c = composite.clean(&link(input));
        assert_eq!(composite.clean(&once_c).url, once_c.url, "composite on {}", input);
    }
}

#[test]
fn composite_applies_in_registration_order() {
    let mut composite = CompositeUrlCleaner::new();
    composite.add_cleaner(CleanerKind::Tracker(TrackerParamCleaner::new()));
    composite.add_cleaner(CleanerKind::YouTube(YouTubeUrlCleaner::new()));
    let out = composite.clean(&link("https://www.youtube.com/watch?v=abc123&utm_source=x"));
    assert_eq!(out.url, "https://www.youtube.com/watch?v=abc123");
}

#[test]
fn composite_without_tracker_cleaner_keeps_trackers() {
    let mut composite = CompositeUrlCleaner::new();
    composite.add_cleaner(CleanerKind::YouTube(YouTubeUrlCleaner::new()));
    let out = composite.clean(&link("https://example.com/a?utm_source=x"));
    assert_eq!(out.url, "https://example.com/a?utm_source=x");
}

#[test]
fn empty_composite_is_identity() {
    let composite = CompositeUrlCleaner::new();
    let out = composite.clean(&link("https://example.com/a?utm_source=x"));
    assert_eq!(out.url, "https://example.com/a?utm_source=x");
}
