//! The values that pass between the feed fetcher, the article cache and the
//! user interface, with their mathematical views.

use vstd::prelude::*;
use crate::sources::{FeedSource, FeedSourceView};
use crate::urls::opt_view;

verus! {

/// A copy of an optional string.
pub fn clone_opt(o: &Option<String>) -> (r: Option<String>)
    ensures
        r == *o,
{
    match o {
        Some(s) => Some(s.clone()),
        None => None,
    }
}

/// An article as the interface shows it.
pub struct FeedEntry {
    pub id: String,
    pub author: String,
    pub title: String,
    pub link: String,
    pub description: String,
    pub pub_date: String,
    pub is_summary: bool,
    pub source_type: String,
    pub video_id: Option<String>,
}

/// The mathematical content of a [`FeedEntry`].
pub struct FeedEntryView {
    pub id: Seq<char>,
    pub author: Seq<char>,
    pub title: Seq<char>,
    pub link: Seq<char>,
    pub description: Seq<char>,
    pub pub_date: Seq<char>,
    pub is_summary: bool,
    pub source_type: Seq<char>,
    pub video_id: Option<Seq<char>>,
}

impl View for FeedEntry {
    type V = FeedEntryView;

    open spec fn view(&self) -> FeedEntryView {
        FeedEntryView {
            id: self.id@,
            author: self.author@,
            title: self.title@,
            link: self.link@,
            description: self.description@,
            pub_date: self.pub_date@,
            is_summary: self.is_summary,
            source_type: self.source_type@,
            video_id: opt_view(self.video_id),
        }
    }
}

/// A feed entry with the publication time by which the cache orders it.
pub struct CachedFeedEntry {
    pub entry: FeedEntry,
    pub published_ts: i64,
}

/// The mathematical content of a [`CachedFeedEntry`].
pub struct CachedFeedEntryView {
    pub entry: FeedEntryView,
    pub published_ts: i64,
}

impl View for CachedFeedEntry {
    type V = CachedFeedEntryView;

    open spec fn view(&self) -> CachedFeedEntryView {
        CachedFeedEntryView { entry: self.entry@, published_ts: self.published_ts }
    }
}

/// The views of a list of cached entries.
pub open spec fn cached_entries_view(v: Seq<CachedFeedEntry>) -> Seq<CachedFeedEntryView> {
    v.map_values(|e: CachedFeedEntry| e@)
}

/// A feed that answered with new content: its source, its recent entries,
/// and the HTTP validators it sent back.
pub struct FetchedFeed {
    pub source: FeedSource,
    pub entries: Vec<CachedFeedEntry>,
    pub etag: Option<String>,
    pub last_modified: Option<String>,
}

/// The mathematical content of a [`FetchedFeed`].
pub struct FetchedFeedView {
    pub source: FeedSourceView,
    pub entries: Seq<CachedFeedEntryView>,
    pub etag: Option<Seq<char>>,
    pub last_modified: Option<Seq<char>>,
}

impl View for FetchedFeed {
    type V = FetchedFeedView;

    open spec fn view(&self) -> FetchedFeedView {
        FetchedFeedView {
            source: self.source@,
            entries: cached_entries_view(self.entries@),
            etag: opt_view(self.etag),
            last_modified: opt_view(self.last_modified),
        }
    }
}

/// What refreshing one feed came to.
pub enum FeedSyncOutcome {
    Updated(FetchedFeed),
    NotModified(FeedSource),
    Failed(FeedSource, String),
}

/// Where the next page of articles starts: just after this publication time and identifier.
pub struct ArticleCursor {
    pub published_ts: i64,
    pub article_id: String,
}

/// The mathematical content of an [`ArticleCursor`].
pub struct ArticleCursorView {
    pub published_ts: i64,
    pub article_id: Seq<char>,
}

impl View for ArticleCursor {
    type V = ArticleCursorView;

    open spec fn view(&self) -> ArticleCursorView {
        ArticleCursorView { published_ts: self.published_ts, article_id: self.article_id@ }
    }
}

/// The view of an optional cursor.
pub open spec fn cursor_view(c: Option<ArticleCursor>) -> Option<ArticleCursorView> {
    match c {
        Some(x) => Some(x@),
        None => None,
    }
}

/// One page of articles, newest first, and where the next page starts if there is one.
pub struct ArticlePage {
    pub entries: Vec<FeedEntry>,
    pub next_cursor: Option<ArticleCursor>,
}

/// The views of a list of feed entries.
pub open spec fn entries_view(v: Seq<FeedEntry>) -> Seq<FeedEntryView> {
    v.map_values(|e: FeedEntry| e@)
}

/// What a refresh of all feeds did.
pub struct SyncResult {
    pub updated_articles: usize,
    pub unchanged_feeds: usize,
    pub failed_feeds: Vec<String>,
}

/// The HTTP validators last received for a feed.
pub struct FeedValidator {
    pub etag: Option<String>,
    pub last_modified: Option<String>,
}

/// An article the user archives, as the interface describes it.
pub struct ArchiveEntry {
    pub link: String,
    pub title: Option<String>,
    pub author: Option<String>,
    pub pub_date: Option<String>,
    pub source_type: Option<String>,
}

/// The mathematical content of an [`ArchiveEntry`].
pub struct ArchiveEntryView {
    pub link: Seq<char>,
    pub title: Option<Seq<char>>,
    pub author: Option<Seq<char>>,
    pub pub_date: Option<Seq<char>>,
    pub source_type: Option<Seq<char>>,
}

impl View for ArchiveEntry {
    type V = ArchiveEntryView;

    open spec fn view(&self) -> ArchiveEntryView {
        ArchiveEntryView {
            link: self.link@,
            title: opt_view(self.title),
            author: opt_view(self.author),
            pub_date: opt_view(self.pub_date),
            source_type: opt_view(self.source_type),
        }
    }
}

} // verus!
