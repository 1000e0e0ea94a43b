use mouser::sources::{
    channel_feed_url, channel_from_path, check_feed_url, complete_youtube_source,
    default_source_type, extract_youtube_channel_id, find_after_marker, finish_lookup,
    is_default_source_type, normalize_source_type, normalize_youtube_feed_url, prepare_source,
    save_step, FeedSource, SaveStep, SourceError, SourcePlan, YoutubeUrl,
};
use mouser::urls::{check_external_url, get_youtube_video_id, validate_feed_url, ExternalUrlError, FeedUrlError};

fn source(name: &str, rss: &str, source_type: &str) -> FeedSource {
    FeedSource {
        name: name.to_string(),
        rss: rss.to_string(),
        source_type: source_type.to_string(),
    }
}

fn ready(plan: SourcePlan) -> FeedSource {
    match plan {
        SourcePlan::Ready(s) => s,
        SourcePlan::LookUpYoutubeChannel { .. } => panic!("unexpected channel lookup"),
        SourcePlan::Rejected(_) => panic!("unexpected rejection"),
    }
}

fn rejected(plan: SourcePlan) -> SourceError {
    match plan {
        SourcePlan::Rejected(e) => e,
        _ => panic!("expected a rejection"),
    }
}

fn feed(outcome: YoutubeUrl) -> String {
    match outcome {
        YoutubeUrl::Feed(u) => u,
        YoutubeUrl::LookUpPage => panic!("unexpected page lookup"),
        YoutubeUrl::Invalid(_) => panic!("unexpected invalid URL"),
    }
}

#[test]
fn default_source_type_is_blog_and_is_recognised() {
    assert_eq!(default_source_type(), "blog");
    assert!(is_default_source_type(&default_source_type()));
    assert!(!is_default_source_type("youtube"));
    assert!(!is_default_source_type("Blog"));
}

#[test]
fn source_types_are_trimmed_and_lowercased() {
    assert_eq!(normalize_source_type(" YouTube ").ok().unwrap(), "youtube");
    assert_eq!(normalize_source_type("BLOG").ok().unwrap(), "blog");
    assert_eq!(normalize_source_type("   ").ok().unwrap(), "blog");
    match normalize_source_type(" Podcast ") {
        Err(SourceError::UnsupportedSourceType(t)) => assert_eq!(t, "podcast"),
        _ => panic!("expected an unsupported type"),
    }
}

#[test]
fn channel_feed_url_appends_the_identifier() {
    assert_eq!(
        channel_feed_url("UCabc"),
        "https://www.youtube.com/feeds/videos.xml?channel_id=UCabc"
    );
}

#[test]
fn marker_is_followed_by_identifier_characters_only() {
    assert_eq!(
        find_after_marker("x /channel/UC12-_ab!rest", "/channel/").unwrap(),
        "UC12-_ab"
    );
    assert_eq!(find_after_marker("ends with /channel/", "/channel/"), None);
    assert_eq!(find_after_marker("/channel/!x", "/channel/"), None);
    assert_eq!(find_after_marker("no marker here", "/channel/"), None);
    assert_eq!(
        find_after_marker("a=1 a=2", "a=").unwrap(),
        "1"
    );
}

#[test]
fn channel_id_prefers_the_json_field_and_needs_uc() {
    let page = r#"<a href="/channel/UCother"></a> {"channelId":"UCjson_1-x"}"#;
    assert_eq!(extract_youtube_channel_id(page).unwrap(), "UCjson_1-x");
    let page = r#"<link href="https://www.youtube.com/channel/UCpath">"#;
    assert_eq!(extract_youtube_channel_id(page).unwrap(), "UCpath");
    // The JSON field is found, so the path is not consulted; it lacks `UC`.
    let page = r#"{"channelId":"XYZ"} /channel/UCpath"#;
    assert_eq!(extract_youtube_channel_id(page), None);
    assert_eq!(extract_youtube_channel_id("nothing to see"), None);
}

#[test]
fn channel_path_gives_the_second_segment() {
    assert_eq!(channel_from_path("/channel/UCx/videos").unwrap(), "UCx");
    assert_eq!(channel_from_path("/channel/UCy").unwrap(), "UCy");
    assert_eq!(channel_from_path("/channel/").unwrap(), "");
    assert_eq!(channel_from_path("/channel"), None);
    assert_eq!(channel_from_path("/c/someone"), None);
    assert_eq!(channel_from_path("channel/UCx"), None);
}

#[test]
fn youtube_inputs_resolve_locally_where_they_can() {
    assert_eq!(
        feed(normalize_youtube_feed_url("UCabc123")),
        "https://www.youtube.com/feeds/videos.xml?channel_id=UCabc123"
    );
    assert_eq!(
        feed(normalize_youtube_feed_url("https://www.youtube.com/channel/UCxyz")),
        "https://www.youtube.com/feeds/videos.xml?channel_id=UCxyz"
    );
    let feed_url = "https://www.youtube.com/feeds/videos.xml?channel_id=UCq";
    assert_eq!(feed(normalize_youtube_feed_url(feed_url)), feed_url);
    assert_eq!(
        feed(normalize_youtube_feed_url("https://example.com/feed.xml")),
        "https://example.com/feed.xml"
    );
    assert!(matches!(
        normalize_youtube_feed_url("https://www.youtube.com/@someone"),
        YoutubeUrl::LookUpPage
    ));
    assert!(matches!(
        normalize_youtube_feed_url("https://youtu.be/abc"),
        YoutubeUrl::LookUpPage
    ));
    assert!(matches!(
        normalize_youtube_feed_url("youtube.com/@someone"),
        YoutubeUrl::Invalid(_)
    ));
}

#[test]
fn saved_blog_sources_are_trimmed_and_checked() {
    let s = ready(prepare_source(&source(" Blog ", " https://example.com/rss ", " BLOG ")));
    assert_eq!(s.name, "Blog");
    assert_eq!(s.rss, "https://example.com/rss");
    assert_eq!(s.source_type, "blog");
    let s = ready(prepare_source(&source("Blog", "http://example.com/rss", "")));
    assert_eq!(s.source_type, "blog");
}

#[test]
fn saved_sources_are_refused_in_order() {
    match rejected(prepare_source(&source("", "", "podcast"))) {
        SourceError::UnsupportedSourceType(t) => assert_eq!(t, "podcast"),
        _ => panic!("expected an unsupported type"),
    }
    assert!(matches!(
        rejected(prepare_source(&source("  ", "https://example.com/rss", "blog"))),
        SourceError::EmptyName
    ));
    match rejected(prepare_source(&source(" Name ", "  ", "blog"))) {
        SourceError::MissingFeedUrl(n) => assert_eq!(n, "Name"),
        _ => panic!("expected a missing URL"),
    }
    match rejected(prepare_source(&source("Name", "ftp://example.com/rss", "blog"))) {
        SourceError::UnsupportedFeedScheme(s) => assert_eq!(s, "ftp"),
        _ => panic!("expected an unsupported scheme"),
    }
    match rejected(prepare_source(&source("Name", "not a url", "blog"))) {
        SourceError::InvalidFeedUrl(u, _) => assert_eq!(u, "not a url"),
        _ => panic!("expected an invalid URL"),
    }
    match rejected(prepare_source(&source("Name", "youtube.com/@x", "youtube"))) {
        SourceError::InvalidYoutubeUrl(u, _) => assert_eq!(u, "youtube.com/@x"),
        _ => panic!("expected an invalid YouTube URL"),
    }
}

#[test]
fn saved_youtube_sources_resolve_or_ask_for_their_page() {
    let s = ready(prepare_source(&source("Chan", " UCabc ", "youtube")));
    assert_eq!(s.rss, "https://www.youtube.com/feeds/videos.xml?channel_id=UCabc");
    assert_eq!(s.source_type, "youtube");
    match prepare_source(&source(" Chan ", " https://www.youtube.com/@chan ", "YouTube")) {
        SourcePlan::LookUpYoutubeChannel { name, page_url } => {
            assert_eq!(name, "Chan");
            assert_eq!(page_url, "https://www.youtube.com/@chan");
        }
        _ => panic!("expected a channel lookup"),
    }
}

#[test]
fn youtube_sources_complete_from_their_channel_page() {
    let page = r#"<script>var x = {"channelId":"UCfromPage"};</script>"#;
    let s = complete_youtube_source("Chan", page).ok().unwrap();
    assert_eq!(s.name, "Chan");
    assert_eq!(s.rss, "https://www.youtube.com/feeds/videos.xml?channel_id=UCfromPage");
    assert_eq!(s.source_type, "youtube");
    assert!(matches!(
        complete_youtube_source("Chan", "<html></html>"),
        Err(SourceError::NoYoutubeChannelId)
    ));
}

#[test]
fn feed_urls_must_parse_and_be_web_urls() {
    assert!(validate_feed_url("https://example.com/feed").is_ok());
    assert!(validate_feed_url("http://example.com/feed").is_ok());
    match validate_feed_url("gopher://example.com/") {
        Err(FeedUrlError::UnsupportedScheme(s)) => assert_eq!(s, "gopher"),
        _ => panic!("expected an unsupported scheme"),
    }
    assert!(matches!(validate_feed_url("example.com/feed"), Err(FeedUrlError::Invalid(_))));
    assert!(check_feed_url("https://example.com/feed").is_ok());
    assert!(matches!(
        check_feed_url("mailto:someone@example.com"),
        Err(SourceError::UnsupportedFeedScheme(_))
    ));
}

#[test]
fn external_links_are_trimmed_and_must_be_web_links() {
    assert_eq!(
        check_external_url("  https://example.com/post \n").ok().unwrap(),
        "https://example.com/post"
    );
    assert!(matches!(
        check_external_url("file:///etc/passwd"),
        Err(ExternalUrlError::NotWeb)
    ));
    assert!(matches!(check_external_url("   "), Err(ExternalUrlError::Invalid(_))));
}

#[test]
fn video_id_is_the_first_v_parameter() {
    assert_eq!(
        get_youtube_video_id("https://www.youtube.com/watch?v=abc123&t=5").unwrap(),
        "abc123"
    );
    assert_eq!(
        get_youtube_video_id("https://www.youtube.com/watch?x=1&v=first&v=second").unwrap(),
        "first"
    );
    assert_eq!(
        get_youtube_video_id("https://www.youtube.com/watch?v=a%20b").unwrap(),
        "a b"
    );
    assert_eq!(get_youtube_video_id("https://www.youtube.com/watch"), None);
    assert_eq!(get_youtube_video_id("not a link"), None);
}

#[test]
fn a_built_channel_feed_resolves_to_itself() {
    let built = feed(normalize_youtube_feed_url("UCabc123"));
    assert_eq!(feed(normalize_youtube_feed_url(&built)), built);
    let from_path = feed(normalize_youtube_feed_url("https://www.youtube.com/channel/UCxyz/videos"));
    assert_eq!(feed(normalize_youtube_feed_url(&from_path)), from_path);
}

#[test]
fn saving_cleans_in_order_and_pauses_for_channel_pages() {
    let sources = vec![
        source(" One ", " https://example.com/one ", ""),
        source("Chan", "https://www.youtube.com/@chan", "youtube"),
        source("Two", "https://example.com/two", "blog"),
    ];
    let mut cleaned = Vec::new();
    match save_step(&sources, &mut cleaned) {
        SaveStep::LookUp { name, page_url } => {
            assert_eq!(name, "Chan");
            assert_eq!(page_url, "https://www.youtube.com/@chan");
        }
        _ => panic!("expected a page lookup"),
    }
    assert_eq!(cleaned.len(), 1);
    assert_eq!(cleaned[0].name, "One");
    let page = r#"{"channelId":"UCchan"}"#;
    assert!(finish_lookup(&sources, &mut cleaned, page).is_ok());
    assert!(matches!(save_step(&sources, &mut cleaned), SaveStep::Done));
    let rss: Vec<&str> = cleaned.iter().map(|s| s.rss.as_str()).collect();
    assert_eq!(
        rss,
        vec![
            "https://example.com/one",
            "https://www.youtube.com/feeds/videos.xml?channel_id=UCchan",
            "https://example.com/two",
        ]
    );
}

#[test]
fn saving_stops_at_the_first_refused_source() {
    let sources = vec![
        source("One", "https://example.com/one", "blog"),
        source("", "https://example.com/nameless", "blog"),
        source("Three", "ftp://example.com/three", "blog"),
    ];
    let mut cleaned = Vec::new();
    assert!(matches!(
        save_step(&sources, &mut cleaned),
        SaveStep::Refused(SourceError::EmptyName)
    ));
    assert_eq!(cleaned.len(), 1);
    let lookups = vec![source("Chan", "https://www.youtube.com/@chan", "youtube")];
    let mut none = Vec::new();
    assert!(matches!(
        finish_lookup(&lookups, &mut none, "<html></html>"),
        Err(SourceError::NoYoutubeChannelId)
    ));
    assert!(none.is_empty());
}
