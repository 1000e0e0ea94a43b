use mouser::fetch::{
    classify_status, conditional_headers, current_unix_timestamp, entries_from_parsed,
    feed_from_response, fetch_source_entries, looks_like_summary, unix_seconds_or_zero,
    ConditionalHeader, FeedTimestamp, ParsedEntry, ResponseClass, ENTRIES_PER_FEED,
};
use mouser::ids::{article_id, to_hex_lower};
use mouser::like::{like, like_contains_chars, like_contains_str};
use mouser::model::{FeedSyncOutcome, FeedValidator, FetchedFeed};
use mouser::pages::{normalize_query, page_limit};
use mouser::sources::FeedSource;
use mouser::text::{chars_lt, trimmed};

const NOW: i64 = 1_700_000_000;

fn chars(s: &str) -> Vec<char> {
    s.chars().collect()
}

fn blog() -> FeedSource {
    FeedSource {
        name: "Blog".to_string(),
        rss: "https://example.com/feed".to_string(),
        source_type: "blog".to_string(),
    }
}

fn channel() -> FeedSource {
    FeedSource {
        name: "Channel".to_string(),
        rss: "https://www.youtube.com/feeds/videos.xml?channel_id=UCx".to_string(),
        source_type: "youtube".to_string(),
    }
}

fn parsed(link: Option<&str>, id: &str) -> ParsedEntry {
    ParsedEntry {
        id: id.to_string(),
        first_link: link.map(|l| l.to_string()),
        title: Some(format!("Title {id}")),
        content_body: None,
        summary: Some("Full text.".to_string()),
        published: Some(FeedTimestamp {
            rfc3339: "2023-11-14T22:13:20+00:00".to_string(),
            unix_seconds: 1_700_000_000,
        }),
        updated: None,
    }
}

#[test]
fn article_ids_are_hex_sha256_of_the_trimmed_link() {
    let expected = "2dce0a4c50441bfccfa9caf4b58c3cba6e06c420505dd829f0436de1aa44baac";
    assert_eq!(article_id("https://example.com/a"), expected);
    assert_eq!(article_id("  https://example.com/a\n"), expected);
    assert_eq!(
        article_id("https://example.com/expired"),
        "f4248e226ac3d1d6df105f66a2f597b9f1b6c9cca1b34915a3a0e894b44f5345"
    );
    assert_eq!(
        article_id("   "),
        "e3b0c44298fc1c149afbf4c8996fb92427ae41e4649b934ca495991b7852b855"
    );
}

#[test]
fn bytes_are_written_as_two_lowercase_hex_digits() {
    assert_eq!(to_hex_lower(&vec![0x00, 0xff, 0x1a, 0x09]), "00ff1a09");
    assert_eq!(to_hex_lower(&Vec::new()), "");
}

#[test]
fn teasers_are_recognised() {
    assert!(looks_like_summary("The start of a post..."));
    assert!(looks_like_summary("The start of a post...  \n"));
    assert!(looks_like_summary("Something. READ MORE"));
    assert!(looks_like_summary("Something. Continue Reading here"));
    assert!(!looks_like_summary("The whole post."));
    assert!(!looks_like_summary("Dots... in the middle"));
    assert!(!looks_like_summary(""));
}

#[test]
fn whitespace_is_trimmed_on_both_sides() {
    assert_eq!(trimmed("  a b \n\t"), "a b");
    assert_eq!(trimmed("\u{3000}x\u{a0}"), "x");
    assert_eq!(trimmed("   "), "");
}

#[test]
fn identifiers_order_by_code_point() {
    assert!(chars_lt(&chars("abc"), &chars("abd")));
    assert!(chars_lt(&chars("ab"), &chars("abc")));
    assert!(!chars_lt(&chars("abc"), &chars("abc")));
    assert!(!chars_lt(&chars("b"), &chars("abc")));
    assert!(chars_lt(&chars("Z"), &chars("a")));
}

#[test]
fn like_follows_sql_wildcards_and_ascii_case() {
    assert!(like(&chars("%world%"), &chars("Hello World")));
    assert!(like(&chars("h_llo"), &chars("HELLO")));
    assert!(!like(&chars("h_llo"), &chars("hllo")));
    assert!(like(&chars("%"), &chars("")));
    assert!(!like(&chars("abc"), &chars("abcd")));
    assert!(like_contains_chars(&chars("Hello World"), &chars("o w")));
    assert!(like_contains_chars(&chars("abc"), &chars("a_c")));
    assert!(!like_contains_chars(&chars("Ünïcode"), &chars("ü")));
    assert!(like_contains_str("Rust and Verus", &chars("VERUS")));
    assert!(!like_contains_str("Rust", &chars("rusty")));
}

#[test]
fn search_text_is_trimmed_and_dropped_when_empty() {
    assert_eq!(normalize_query(&Some("  rust ".to_string())).unwrap(), chars("rust"));
    assert_eq!(normalize_query(&Some("   ".to_string())), None);
    assert_eq!(normalize_query(&None), None);
}

#[test]
fn page_size_defaults_to_twenty_and_is_clamped() {
    assert_eq!(page_limit(None), 20);
    assert_eq!(page_limit(Some(0)), 1);
    assert_eq!(page_limit(Some(1)), 1);
    assert_eq!(page_limit(Some(50)), 50);
    assert_eq!(page_limit(Some(200)), 200);
    assert_eq!(page_limit(Some(5000)), 200);
}

#[test]
fn response_status_decides_what_a_fetch_means() {
    assert!(matches!(classify_status(304), ResponseClass::NotModified));
    assert!(matches!(classify_status(200), ResponseClass::Success));
    assert!(matches!(classify_status(204), ResponseClass::Success));
    assert!(matches!(classify_status(400), ResponseClass::Failure));
    assert!(matches!(classify_status(404), ResponseClass::Failure));
    assert!(matches!(classify_status(599), ResponseClass::Failure));
    assert!(matches!(classify_status(600), ResponseClass::Success));
}

#[test]
fn requests_carry_the_validators_last_received() {
    let none = conditional_headers(&FeedValidator { etag: None, last_modified: None });
    assert!(none.is_empty());
    let both = conditional_headers(&FeedValidator {
        etag: Some("\"abc\"".to_string()),
        last_modified: Some("Tue, 14 Nov 2023 22:13:20 GMT".to_string()),
    });
    assert_eq!(both.len(), 2);
    assert!(matches!(&both[0], ConditionalHeader::IfNoneMatch(t) if t == "\"abc\""));
    assert!(
        matches!(&both[1], ConditionalHeader::IfModifiedSince(m) if m == "Tue, 14 Nov 2023 22:13:20 GMT")
    );
    let only_date = conditional_headers(&FeedValidator {
        etag: None,
        last_modified: Some("yesterday".to_string()),
    });
    assert_eq!(only_date.len(), 1);
    assert!(matches!(&only_date[0], ConditionalHeader::IfModifiedSince(m) if m == "yesterday"));
}

#[test]
fn fetch_results_become_sync_outcomes() {
    let fetched = FetchedFeed { source: blog(), entries: Vec::new(), etag: Some("e".to_string()), last_modified: None };
    match fetch_source_entries(blog(), Ok(Some(fetched))) {
        FeedSyncOutcome::Updated(f) => assert_eq!(f.etag.unwrap(), "e"),
        _ => panic!("expected an update"),
    }
    match fetch_source_entries(blog(), Ok(None)) {
        FeedSyncOutcome::NotModified(s) => assert_eq!(s.name, "Blog"),
        _ => panic!("expected no change"),
    }
    match fetch_source_entries(blog(), Err("timed out".to_string())) {
        FeedSyncOutcome::Failed(s, e) => {
            assert_eq!(s.name, "Blog");
            assert_eq!(e, "timed out");
        }
        _ => panic!("expected a failure"),
    }
}

#[test]
fn parsed_entries_keep_the_first_ten_with_a_link() {
    let mut entries: Vec<ParsedEntry> = (0..12)
        .map(|i| parsed(Some(&format!("https://example.com/post-{i}")), &format!("{i}")))
        .collect();
    entries[3].first_link = Some("   ".to_string());
    let out = entries_from_parsed(&blog(), &entries, NOW);
    assert_eq!(out.len(), ENTRIES_PER_FEED - 1);
    assert_eq!(out[0].entry.link, "https://example.com/post-0");
    assert_eq!(out[3].entry.link, "https://example.com/post-4");
    assert_eq!(out[8].entry.link, "https://example.com/post-9");
    assert_eq!(
        out[1].entry.id,
        "781f5d25341ecd4602369a7821d58f18640c6c8824a1b78d6d9d5aa980d78641"
    );
    assert_eq!(out[0].entry.author, "Blog");
    assert_eq!(out[0].entry.title, "Title 0");
    assert_eq!(out[0].entry.description, "Full text.");
    assert_eq!(out[0].entry.pub_date, "2023-11-14T22:13:20+00:00");
    assert_eq!(out[0].published_ts, 1_700_000_000);
    assert!(!out[0].entry.is_summary);
    assert_eq!(out[0].entry.video_id, None);
}

#[test]
fn parsed_entries_fall_back_for_missing_fields() {
    let mut e = parsed(None, "https://example.com/by-id");
    e.title = None;
    e.content_body = Some("Body wins...".to_string());
    e.published = None;
    e.updated = Some(FeedTimestamp { rfc3339: "2020-01-01T00:00:00+00:00".to_string(), unix_seconds: 1_577_836_800 });
    let mut undated = parsed(Some("https://example.com/undated"), "u");
    undated.published = None;
    undated.summary = None;
    let out = entries_from_parsed(&blog(), &vec![e, undated], NOW);
    assert_eq!(out.len(), 2);
    assert_eq!(out[0].entry.link, "https://example.com/by-id");
    assert_eq!(out[0].entry.title, "Untitled");
    assert_eq!(out[0].entry.description, "Body wins...");
    assert!(out[0].entry.is_summary);
    assert_eq!(out[0].entry.pub_date, "2020-01-01T00:00:00+00:00");
    assert_eq!(out[0].published_ts, 1_577_836_800);
    assert_eq!(out[1].entry.description, "");
    assert_eq!(out[1].entry.pub_date, "");
    assert_eq!(out[1].published_ts, NOW);
}

#[test]
fn video_entries_carry_their_video_id_and_are_never_teasers() {
    let mut e = parsed(Some("https://www.youtube.com/watch?v=abc123"), "yt:video:abc123");
    e.summary = Some("Watch now... read more".to_string());
    let out = entries_from_parsed(&channel(), &vec![e], NOW);
    assert_eq!(out.len(), 1);
    assert_eq!(out[0].entry.video_id.as_deref(), Some("abc123"));
    assert_eq!(out[0].entry.source_type, "youtube");
    assert!(!out[0].entry.is_summary);
    assert_eq!(
        out[0].entry.id,
        "28191ec6b0c29ddf699199c8b5eec0898d03a5e7ed4fccfbd0a6aaf5f8b6d2e3"
    );
}

#[test]
fn response_becomes_a_fetched_feed() {
    let mut teaser = parsed(Some("https://example.com/post-1"), "https://example.com/post-1");
    teaser.title = Some("First".to_string());
    teaser.summary = Some("A short teaser... Read more".to_string());
    let mut whole = parsed(Some("https://example.com/post-2"), "https://example.com/post-2");
    whole.summary = Some("The whole second post.".to_string());
    whole.published = None;
    let feed = feed_from_response(blog(), Some("\"v1\"".to_string()), None, &vec![teaser, whole], NOW);
    assert_eq!(feed.source.name, "Blog");
    assert_eq!(feed.etag.as_deref(), Some("\"v1\""));
    assert_eq!(feed.last_modified, None);
    assert_eq!(feed.entries.len(), 2);
    let first = &feed.entries[0];
    assert_eq!(first.entry.title, "First");
    assert_eq!(first.entry.link, "https://example.com/post-1");
    assert_eq!(
        first.entry.id,
        "781f5d25341ecd4602369a7821d58f18640c6c8824a1b78d6d9d5aa980d78641"
    );
    assert!(first.entry.is_summary);
    assert_eq!(first.published_ts, 1_700_000_000);
    assert_eq!(first.entry.pub_date, "2023-11-14T22:13:20+00:00");
    let second = &feed.entries[1];
    assert_eq!(second.entry.description, "The whole second post.");
    assert!(!second.entry.is_summary);
    assert_eq!(second.published_ts, NOW);
    assert_eq!(second.entry.pub_date, "");
}

#[test]
fn empty_response_gives_a_feed_without_entries() {
    let feed = feed_from_response(blog(), None, Some("yesterday".to_string()), &Vec::new(), NOW);
    assert!(feed.entries.is_empty());
    assert_eq!(feed.last_modified.as_deref(), Some("yesterday"));
}

#[test]
fn clock_readings_become_timestamps() {
    assert_eq!(unix_seconds_or_zero(Some(1_700_000_000)), 1_700_000_000);
    assert_eq!(unix_seconds_or_zero(None), 0);
    assert_eq!(unix_seconds_or_zero(Some(u64::MAX)), -1);
}

#[test]
fn clock_reads_a_time_after_the_epoch() {
    assert!(current_unix_timestamp() > 1_600_000_000);
}
