use mouser::model::{ArchiveEntry, CachedFeedEntry, FeedEntry, FeedSyncOutcome, FetchedFeed};
use mouser::sources::FeedSource;
use mouser::store::{Article, ArchivedArticle, ArticleStore, FeedState, StoreError, Tombstone};

const NOW: i64 = 1_700_000_000;
const DAY: i64 = 86_400;

fn article(id: &str, timestamp: i64) -> Article {
    Article {
        article_id: id.to_string(),
        url: format!("https://example.com/{id}"),
        title: id.to_string(),
        author: "Author".to_string(),
        description: String::new(),
        published_at: String::new(),
        published_ts: timestamp,
        is_summary: false,
        source_type: "blog".to_string(),
        video_id: None,
        feed_url: "https://example.com/feed".to_string(),
        last_seen_at: NOW,
    }
}

fn archived_row(id: &str, archived_at: i64) -> ArchivedArticle {
    ArchivedArticle {
        article_id: id.to_string(),
        url: format!("https://example.com/{id}"),
        title: None,
        author: None,
        published_at: None,
        archived_at,
        source_type: None,
    }
}

fn feed_entry(id: &str, link: &str) -> FeedEntry {
    FeedEntry {
        id: id.to_string(),
        author: "Author".to_string(),
        title: "Title".to_string(),
        link: link.to_string(),
        description: String::new(),
        pub_date: String::new(),
        is_summary: false,
        source_type: "blog".to_string(),
        video_id: None,
    }
}

fn blog_source() -> FeedSource {
    FeedSource {
        name: "Author".to_string(),
        rss: "https://example.com/feed".to_string(),
        source_type: "blog".to_string(),
    }
}

fn count_articles(store: &ArticleStore, id: &str) -> usize {
    store.articles().iter().filter(|a| a.article_id == id).count()
}

fn count_archived(store: &ArticleStore, id: &str) -> usize {
    store.archived().iter().filter(|a| a.article_id == id).count()
}

fn count_tombstones(store: &ArticleStore, id: &str) -> usize {
    store.tombstones().iter().filter(|a| a.article_id == id).count()
}

#[test]
fn pages_feed_and_archive_in_date_order() {
    let mut store = ArticleStore::new();
    assert!(store.insert_article(article("newest", 3)).is_ok());
    assert!(store.insert_article(article("archived", 2)).is_ok());
    assert!(store.insert_article(article("oldest", 1)).is_ok());
    assert!(store.insert_archived(archived_row("archived", NOW)).is_ok());

    let first = store.read_articles_page(false, &None, &None, 1);
    assert_eq!(first.entries[0].id, "newest");
    let second = store.read_articles_page(false, &first.next_cursor, &None, 1);
    assert_eq!(second.entries[0].id, "oldest");
    let archive = store.read_articles_page(true, &None, &None, 20);
    assert_eq!(archive.entries[0].id, "archived");
}

#[test]
fn expired_archive_is_deleted_and_tombstoned() {
    let mut store = ArticleStore::new();
    assert!(store.insert_article(article("expired", 1)).is_ok());
    assert!(store.insert_archived(archived_row("expired", NOW - 8 * DAY)).is_ok());

    store.prune_cache(NOW);
    let counts = (
        count_articles(&store, "expired"),
        count_archived(&store, "expired"),
        count_tombstones(&store, "expired"),
    );
    assert_eq!(counts, (0, 0, 1));

    let feed = FetchedFeed {
        source: blog_source(),
        entries: vec![CachedFeedEntry {
            entry: FeedEntry {
                id: "expired".to_string(),
                author: "Author".to_string(),
                title: "Expired".to_string(),
                link: "https://example.com/expired".to_string(),
                description: String::new(),
                pub_date: String::new(),
                is_summary: false,
                source_type: "blog".to_string(),
                video_id: None,
            },
            published_ts: 1,
        }],
        etag: None,
        last_modified: None,
    };
    assert!(store.write_fetched_feed(&feed, NOW).is_ok());
    assert_eq!(count_articles(&store, "expired"), 0);
}

#[test]
fn pages_are_newest_first_and_continue_without_gaps() {
    let mut store = ArticleStore::new();
    for (id, ts) in [("c", 5), ("a", 5), ("b", 5), ("d", 9), ("e", 1)] {
        assert!(store.insert_article(article(id, ts)).is_ok());
    }
    let first = store.read_articles_page(false, &None, &None, 2);
    let ids: Vec<&str> = first.entries.iter().map(|e| e.id.as_str()).collect();
    assert_eq!(ids, vec!["d", "c"]);
    let cursor = first.next_cursor.as_ref().unwrap();
    assert_eq!((cursor.published_ts, cursor.article_id.as_str()), (5, "c"));
    let second = store.read_articles_page(false, &first.next_cursor, &None, 2);
    let ids: Vec<&str> = second.entries.iter().map(|e| e.id.as_str()).collect();
    assert_eq!(ids, vec!["b", "a"]);
    let third = store.read_articles_page(false, &second.next_cursor, &None, 2);
    let ids: Vec<&str> = third.entries.iter().map(|e| e.id.as_str()).collect();
    assert_eq!(ids, vec!["e"]);
    assert!(third.next_cursor.is_none());

    let whole = store.read_articles_page(false, &None, &None, 4);
    let ids: Vec<&str> = whole.entries.iter().map(|e| e.id.as_str()).collect();
    assert_eq!(ids, vec!["d", "c", "b", "a"]);
}

#[test]
fn page_of_exact_size_has_no_next_cursor() {
    let mut store = ArticleStore::new();
    assert!(store.insert_article(article("x", 2)).is_ok());
    assert!(store.insert_article(article("y", 1)).is_ok());
    let page = store.read_articles_page(false, &None, &None, 2);
    assert_eq!(page.entries.len(), 2);
    assert!(page.next_cursor.is_none());
    let empty = store.read_articles_page(false, &None, &None, 0);
    assert!(empty.entries.is_empty());
    assert!(empty.next_cursor.is_none());
}

#[test]
fn search_matches_title_author_or_description_ignoring_ascii_case() {
    let mut store = ArticleStore::new();
    let mut rust = article("rust", 3);
    rust.title = "Learning Rust".to_string();
    let mut other = article("other", 2);
    other.description = "A note on RUSTACEANS".to_string();
    let plain = article("plain", 1);
    assert!(store.insert_article(rust).is_ok());
    assert!(store.insert_article(other).is_ok());
    assert!(store.insert_article(plain).is_ok());

    let page = store.read_articles_page(false, &None, &Some("  rust ".to_string()), 20);
    let ids: Vec<&str> = page.entries.iter().map(|e| e.id.as_str()).collect();
    assert_eq!(ids, vec!["rust", "other"]);

    let by_author = store.read_articles_page(false, &None, &Some("AUTH".to_string()), 20);
    assert_eq!(by_author.entries.len(), 3);

    let wildcard = store.read_articles_page(false, &None, &Some("Le_rning".to_string()), 20);
    let ids: Vec<&str> = wildcard.entries.iter().map(|e| e.id.as_str()).collect();
    assert_eq!(ids, vec!["rust"]);

    let blank = store.read_articles_page(false, &None, &Some("   ".to_string()), 20);
    assert_eq!(blank.entries.len(), 3);
}

#[test]
fn archive_then_reinstate_returns_article_to_feed() {
    let mut store = ArticleStore::new();
    let link = "https://example.com/a";
    let id = mouser::ids::article_id(link);
    let mut a = article("a", 1);
    a.article_id = id.clone();
    a.url = link.to_string();
    assert!(store.insert_article(a).is_ok());

    let entry = ArchiveEntry {
        link: format!("  {link} "),
        title: Some("A".to_string()),
        author: None,
        pub_date: None,
        source_type: None,
    };
    let archived_id = store.write_archived_article(&entry, NOW).ok().unwrap();
    assert_eq!(archived_id, id);
    assert_eq!(store.archived()[0].url, link);
    assert_eq!(store.archived()[0].source_type.as_deref(), Some("blog"));
    assert!(store.read_articles_page(false, &None, &None, 20).entries.is_empty());
    assert_eq!(store.read_articles_page(true, &None, &None, 20).entries[0].id, id);

    let reinstated = store.delete_archived_article(&id);
    assert_eq!(reinstated, id);
    assert!(store.archived().is_empty());
    assert_eq!(store.read_articles_page(false, &None, &None, 20).entries[0].id, id);
}

#[test]
fn archiving_needs_a_link() {
    let mut store = ArticleStore::new();
    let entry = ArchiveEntry {
        link: "   ".to_string(),
        title: None,
        author: None,
        pub_date: None,
        source_type: None,
    };
    assert!(matches!(
        store.write_archived_article(&entry, NOW),
        Err(mouser::store::ArchiveError::MissingLink)
    ));
}

#[test]
fn archiving_refuses_a_link_archived_under_another_id() {
    let mut store = ArticleStore::new();
    let mut row = archived_row("other", NOW);
    row.url = "https://example.com/a".to_string();
    assert!(store.insert_archived(row).is_ok());
    let entry = ArchiveEntry {
        link: "https://example.com/a".to_string(),
        title: None,
        author: None,
        pub_date: None,
        source_type: Some("youtube".to_string()),
    };
    assert!(matches!(
        store.write_archived_article(&entry, NOW),
        Err(mouser::store::ArchiveError::DuplicateUrl)
    ));
    assert_eq!(store.archived().len(), 1);
}

#[test]
fn permanent_delete_removes_and_tombstones_then_feeds_do_not_reinsert() {
    let mut store = ArticleStore::new();
    assert!(store.insert_article(article("gone", 1)).is_ok());
    assert!(store.insert_archived(archived_row("gone", NOW)).is_ok());
    let id = store.permanently_delete_article("gone", NOW);
    assert_eq!(id, "gone");
    assert_eq!(count_articles(&store, "gone"), 0);
    assert_eq!(count_archived(&store, "gone"), 0);
    assert_eq!(store.tombstones()[0].deleted_at, NOW);

    let feed = FetchedFeed {
        source: blog_source(),
        entries: vec![
            CachedFeedEntry { entry: feed_entry("gone", "https://example.com/gone"), published_ts: 1 },
            CachedFeedEntry { entry: feed_entry("new", "https://example.com/new"), published_ts: 2 },
        ],
        etag: Some("\"v1\"".to_string()),
        last_modified: None,
    };
    assert_eq!(store.write_fetched_feed(&feed, NOW).ok(), Some(1));
    assert_eq!(count_articles(&store, "gone"), 0);
    assert_eq!(count_articles(&store, "new"), 1);
    let validator = store.feed_validator("https://example.com/feed");
    assert_eq!(validator.etag.as_deref(), Some("\"v1\""));
    assert!(validator.last_modified.is_none());
}

#[test]
fn tombstones_expire_after_ninety_days() {
    let mut store = ArticleStore::new();
    assert!(store.insert_tombstone(Tombstone { article_id: "old".to_string(), deleted_at: NOW - 91 * DAY }).is_ok());
    assert!(store.insert_tombstone(Tombstone { article_id: "young".to_string(), deleted_at: NOW - 89 * DAY }).is_ok());
    store.prune_cache(NOW);
    assert_eq!(count_tombstones(&store, "old"), 0);
    assert_eq!(count_tombstones(&store, "young"), 1);
}

#[test]
fn stale_articles_are_pruned_unless_archived() {
    let mut store = ArticleStore::new();
    let mut stale = article("stale", 1);
    stale.last_seen_at = NOW - 90 * DAY;
    let mut kept = article("kept", 2);
    kept.last_seen_at = NOW - 100 * DAY;
    let mut fresh = article("fresh", 3);
    fresh.last_seen_at = NOW - 89 * DAY;
    assert!(store.insert_article(stale).is_ok());
    assert!(store.insert_article(kept).is_ok());
    assert!(store.insert_article(fresh).is_ok());
    assert!(store.insert_archived(archived_row("kept", NOW - DAY)).is_ok());
    store.prune_cache(NOW);
    assert_eq!(count_articles(&store, "stale"), 0);
    assert_eq!(count_articles(&store, "kept"), 1);
    assert_eq!(count_articles(&store, "fresh"), 1);
    assert_eq!(count_archived(&store, "kept"), 1);
}

#[test]
fn pruning_twice_changes_nothing_more() {
    let mut store = ArticleStore::new();
    assert!(store.insert_article(article("a", 1)).is_ok());
    assert!(store.insert_archived(archived_row("a", NOW - 30 * DAY)).is_ok());
    assert!(store.insert_tombstone(Tombstone { article_id: "a".to_string(), deleted_at: NOW - 95 * DAY }).is_ok());
    store.prune_cache(NOW);
    let once = (store.articles().len(), store.archived().len(), store.tombstones().len(), store.tombstones()[0].deleted_at);
    assert_eq!(once, (0, 0, 1, NOW));
    store.prune_cache(NOW);
    let twice = (store.articles().len(), store.archived().len(), store.tombstones().len(), store.tombstones()[0].deleted_at);
    assert_eq!(once, twice);
}

#[test]
fn written_feed_refreshes_last_seen_and_counts_writes() {
    let mut store = ArticleStore::new();
    let mut a = article("a", 1);
    a.url = "https://example.com/a".to_string();
    a.last_seen_at = NOW - 100 * DAY;
    assert!(store.insert_article(a).is_ok());
    let feed = FetchedFeed {
        source: blog_source(),
        entries: vec![CachedFeedEntry { entry: feed_entry("a", "https://example.com/a"), published_ts: 7 }],
        etag: None,
        last_modified: Some("Mon, 01 Jan 2024 00:00:00 GMT".to_string()),
    };
    assert_eq!(store.write_fetched_feed(&feed, NOW).ok(), Some(1));
    assert_eq!(store.articles()[0].last_seen_at, NOW);
    assert_eq!(store.articles()[0].published_ts, 7);
    store.prune_cache(NOW);
    assert_eq!(count_articles(&store, "a"), 1);
}

#[test]
fn feed_write_is_refused_when_a_link_belongs_to_another_article() {
    let mut store = ArticleStore::new();
    let mut a = article("a", 1);
    a.url = "https://example.com/shared".to_string();
    assert!(store.insert_article(a).is_ok());
    let feed = FetchedFeed {
        source: blog_source(),
        entries: vec![
            CachedFeedEntry { entry: feed_entry("b", "https://example.com/b"), published_ts: 1 },
            CachedFeedEntry { entry: feed_entry("c", "https://example.com/shared"), published_ts: 1 },
        ],
        etag: None,
        last_modified: None,
    };
    assert!(matches!(store.write_fetched_feed(&feed, NOW), Err(StoreError::DuplicateUrl)));
    assert_eq!(store.articles().len(), 1);
    assert!(store.feed_states().is_empty());
}

#[test]
fn plain_inserts_refuse_taken_keys() {
    let mut store = ArticleStore::new();
    assert!(store.insert_article(article("a", 1)).is_ok());
    assert!(matches!(store.insert_article(article("a", 2)), Err(StoreError::DuplicateId)));
    let mut same_link = article("b", 2);
    same_link.url = "https://example.com/a".to_string();
    assert!(matches!(store.insert_article(same_link), Err(StoreError::DuplicateUrl)));
    let state = FeedState {
        feed_url: "https://example.com/feed".to_string(),
        etag: None,
        last_modified: None,
        last_checked_at: 1,
    };
    assert!(store.insert_feed_state(state).is_ok());
    let again = FeedState {
        feed_url: "https://example.com/feed".to_string(),
        etag: None,
        last_modified: None,
        last_checked_at: 2,
    };
    assert!(matches!(store.insert_feed_state(again), Err(StoreError::DuplicateId)));
}

#[test]
fn sync_records_outcomes_and_prunes() {
    let mut store = ArticleStore::new();
    let state = FeedState {
        feed_url: "https://example.com/quiet".to_string(),
        etag: Some("e".to_string()),
        last_modified: None,
        last_checked_at: 1,
    };
    assert!(store.insert_feed_state(state).is_ok());
    assert!(store.insert_archived(archived_row("old", NOW - 10 * DAY)).is_ok());
    let quiet = FeedSource {
        name: "Quiet".to_string(),
        rss: "https://example.com/quiet".to_string(),
        source_type: "blog".to_string(),
    };
    let broken = FeedSource {
        name: "Broken".to_string(),
        rss: "https://example.com/broken".to_string(),
        source_type: "blog".to_string(),
    };
    let outcomes = vec![
        FeedSyncOutcome::Updated(FetchedFeed {
            source: blog_source(),
            entries: vec![
                CachedFeedEntry { entry: feed_entry("x", "https://example.com/x"), published_ts: 1 },
                CachedFeedEntry { entry: feed_entry("y", "https://example.com/y"), published_ts: 2 },
            ],
            etag: None,
            last_modified: None,
        }),
        FeedSyncOutcome::NotModified(quiet),
        FeedSyncOutcome::Failed(broken, "timed out".to_string()),
    ];
    let result = store.record_sync_outcomes(&outcomes, NOW).ok().unwrap();
    assert_eq!(result.updated_articles, 2);
    assert_eq!(result.unchanged_feeds, 1);
    assert_eq!(result.failed_feeds, vec!["Broken".to_string()]);
    assert_eq!(store.articles().len(), 2);
    let quiet_state = store.feed_states().iter().find(|s| s.feed_url == "https://example.com/quiet").unwrap();
    assert_eq!(quiet_state.last_checked_at, NOW);
    assert_eq!(count_archived(&store, "old"), 0);
    assert_eq!(count_tombstones(&store, "old"), 1);
}

#[test]
fn sync_records_nothing_when_a_feed_write_fails() {
    let mut store = ArticleStore::new();
    let mut a = article("a", 1);
    a.url = "https://example.com/shared".to_string();
    assert!(store.insert_article(a).is_ok());
    assert!(store.insert_archived(archived_row("old", NOW - 10 * DAY)).is_ok());
    let outcomes = vec![
        FeedSyncOutcome::Updated(FetchedFeed {
            source: blog_source(),
            entries: vec![CachedFeedEntry { entry: feed_entry("x", "https://example.com/x"), published_ts: 1 }],
            etag: None,
            last_modified: None,
        }),
        FeedSyncOutcome::Updated(FetchedFeed {
            source: blog_source(),
            entries: vec![CachedFeedEntry { entry: feed_entry("z", "https://example.com/shared"), published_ts: 1 }],
            etag: None,
            last_modified: None,
        }),
    ];
    assert!(matches!(store.record_sync_outcomes(&outcomes, NOW), Err(StoreError::DuplicateUrl)));
    assert_eq!(store.articles().len(), 1);
    assert_eq!(count_archived(&store, "old"), 1);
}

fn page_ids(store: &ArticleStore, query: Option<&str>, limit: usize) -> Vec<String> {
    let query = query.map(|q| q.to_string());
    store
        .read_articles_page(false, &None, &query, limit)
        .entries
        .iter()
        .map(|e| e.id.clone())
        .collect()
}

#[test]
fn padded_or_blank_search_text_gives_the_same_page() {
    let mut store = ArticleStore::new();
    for (id, ts) in [("rust-news", 3), ("other", 2), ("rusty", 1)] {
        assert!(store.insert_article(article(id, ts)).is_ok());
    }
    assert_eq!(page_ids(&store, Some("  rust\t"), 20), page_ids(&store, Some("rust"), 20));
    assert_eq!(page_ids(&store, Some("rust"), 20), vec!["rust-news", "rusty"]);
    assert_eq!(page_ids(&store, Some("   "), 20), page_ids(&store, None, 20));
    assert_eq!(page_ids(&store, None, 20).len(), 3);
}

fn snapshot(store: &ArticleStore) -> Vec<(String, String, i64, i64)> {
    let mut rows: Vec<(String, String, i64, i64)> = store
        .articles()
        .iter()
        .map(|a| (a.article_id.clone(), a.url.clone(), a.published_ts, a.last_seen_at))
        .collect();
    rows.extend(store.feed_states().iter().map(|f| {
        (f.feed_url.clone(), f.etag.clone().unwrap_or_default(), 0, f.last_checked_at)
    }));
    rows
}

#[test]
fn repeating_a_feed_write_changes_nothing() {
    let mut store = ArticleStore::new();
    assert!(store.insert_article(article("old", 1)).is_ok());
    let feed = FetchedFeed {
        source: blog_source(),
        entries: vec![
            CachedFeedEntry { entry: feed_entry("a", "https://example.com/a"), published_ts: 7 },
            CachedFeedEntry { entry: feed_entry("old", "https://example.com/moved"), published_ts: 8 },
        ],
        etag: Some("\"v2\"".to_string()),
        last_modified: None,
    };
    assert_eq!(store.write_fetched_feed(&feed, NOW).ok(), Some(2));
    let once = snapshot(&store);
    assert_eq!(store.write_fetched_feed(&feed, NOW).ok(), Some(2));
    assert_eq!(snapshot(&store), once);
}

#[test]
fn repeating_a_feed_write_with_a_repeated_link_changes_nothing() {
    let link = "https://example.com/twice";
    let id = mouser::ids::article_id(link);
    let other = "https://example.com/other";
    let mut store = ArticleStore::new();
    let mut first = feed_entry(&id, link);
    first.title = "First title".to_string();
    let mut again = feed_entry(&id, link);
    again.title = "Later title".to_string();
    let feed = FetchedFeed {
        source: blog_source(),
        entries: vec![
            CachedFeedEntry { entry: first, published_ts: 1 },
            CachedFeedEntry { entry: feed_entry(&mouser::ids::article_id(other), other), published_ts: 2 },
            CachedFeedEntry { entry: again, published_ts: 3 },
        ],
        etag: None,
        last_modified: None,
    };
    assert_eq!(store.write_fetched_feed(&feed, NOW).ok(), Some(3));
    let once = snapshot(&store);
    assert_eq!(store.articles().len(), 2);
    assert_eq!(store.articles()[0].title, "Later title");
    assert_eq!(store.write_fetched_feed(&feed, NOW).ok(), Some(3));
    assert_eq!(snapshot(&store), once);
}

#[test]
fn following_cursors_takes_the_fewest_calls() {
    let mut store = ArticleStore::new();
    for (id, ts) in [("a", 1), ("b", 2), ("c", 2), ("d", 3), ("e", 4)] {
        assert!(store.insert_article(article(id, ts)).is_ok());
    }
    let mut calls = 0;
    let mut cursor = None;
    let mut seen: Vec<String> = Vec::new();
    loop {
        let page = store.read_articles_page(false, &cursor, &None, 2);
        calls += 1;
        seen.extend(page.entries.iter().map(|e| e.id.clone()));
        if page.next_cursor.is_none() {
            break;
        }
        cursor = page.next_cursor;
    }
    assert_eq!(calls, 3);
    assert_eq!(seen, vec!["e", "d", "c", "b", "a"]);

    let empty = ArticleStore::new();
    let page = empty.read_articles_page(false, &None, &None, 2);
    assert!(page.entries.is_empty() && page.next_cursor.is_none());
}
