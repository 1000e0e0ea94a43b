//! The article cache: cached articles, the archive, deletion tombstones and
//! per-feed HTTP state, with the lifecycle rules that govern them.
//! Times are Unix seconds; the caller supplies the current time.

use vstd::prelude::*;
use crate::model::{
    clone_opt, ArchiveEntry, ArchiveEntryView, FeedValidator, CachedFeedEntryView, FetchedFeed,
    FeedSyncOutcome, SyncResult, FetchedFeedView,
};
use crate::sources::FeedSourceView;
use crate::ids::{article_id, article_id_of};
use crate::text::{trim, trimmed};
use crate::urls::opt_view;
use crate::seqs::{lemma_filter_take_step, lemma_filter_unique_keys, lemma_filter_subset};

verus! {

/// How long an archived article stays before it is deleted: seven days.
pub const ARCHIVE_RETENTION_SECS: i64 = 604800;

/// How long an unarchived article stays cached after a feed last listed it: ninety days.
pub const CACHE_RETENTION_SECS: i64 = 7776000;

/// How long the tombstone of a deleted article is kept: ninety days.
pub const TOMBSTONE_RETENTION_SECS: i64 = 7776000;

/// A cached article.
pub struct Article {
    pub article_id: String,
    pub url: String,
    pub title: String,
    pub author: String,
    pub description: String,
    pub published_at: String,
    pub published_ts: i64,
    pub is_summary: bool,
    pub source_type: String,
    pub video_id: Option<String>,
    pub feed_url: String,
    pub last_seen_at: i64,
}

/// The mathematical content of an [`Article`].
pub struct ArticleView {
    pub article_id: Seq<char>,
    pub url: Seq<char>,
    pub title: Seq<char>,
    pub author: Seq<char>,
    pub description: Seq<char>,
    pub published_at: Seq<char>,
    pub published_ts: i64,
    pub is_summary: bool,
    pub source_type: Seq<char>,
    pub video_id: Option<Seq<char>>,
    pub feed_url: Seq<char>,
    pub last_seen_at: i64,
}

impl View for Article {
    type V = ArticleView;

    open spec fn view(&self) -> ArticleView {
        ArticleView {
            article_id: self.article_id@,
            url: self.url@,
            title: self.title@,
            author: self.author@,
            description: self.description@,
            published_at: self.published_at@,
            published_ts: self.published_ts,
            is_summary: self.is_summary,
            source_type: self.source_type@,
            video_id: opt_view(self.video_id),
            feed_url: self.feed_url@,
            last_seen_at: self.last_seen_at,
        }
    }
}

impl Article {
    /// A copy of this article.
    pub fn duplicate(&self) -> (r: Article)
        ensures
            r@ == self@,
    {
        Article {
            article_id: self.article_id.clone(),
            url: self.url.clone(),
            title: self.title.clone(),
            author: self.author.clone(),
            description: self.description.clone(),
            published_at: self.published_at.clone(),
            published_ts: self.published_ts,
            is_summary: self.is_summary,
            source_type: self.source_type.clone(),
            video_id: clone_opt(&self.video_id),
            feed_url: self.feed_url.clone(),
            last_seen_at: self.last_seen_at,
        }
    }
}

/// An archived article.
pub struct ArchivedArticle {
    pub article_id: String,
    pub url: String,
    pub title: Option<String>,
    pub author: Option<String>,
    pub published_at: Option<String>,
    pub archived_at: i64,
    pub source_type: Option<String>,
}

/// The mathematical content of an [`ArchivedArticle`].
pub struct ArchivedView {
    pub article_id: Seq<char>,
    pub url: Seq<char>,
    pub title: Option<Seq<char>>,
    pub author: Option<Seq<char>>,
    pub published_at: Option<Seq<char>>,
    pub archived_at: i64,
    pub source_type: Option<Seq<char>>,
}

impl View for ArchivedArticle {
    type V = ArchivedView;

    open spec fn view(&self) -> ArchivedView {
        ArchivedView {
            article_id: self.article_id@,
            url: self.url@,
            title: opt_view(self.title),
            author: opt_view(self.author),
            published_at: opt_view(self.published_at),
            archived_at: self.archived_at,
            source_type: opt_view(self.source_type),
        }
    }
}

impl ArchivedArticle {
    /// A copy of this archive row.
    pub fn duplicate(&self) -> (r: ArchivedArticle)
        ensures
            r@ == self@,
    {
        ArchivedArticle {
            article_id: self.article_id.clone(),
            url: self.url.clone(),
            title: clone_opt(&self.title),
            author: clone_opt(&self.author),
            published_at: clone_opt(&self.published_at),
            archived_at: self.archived_at,
            source_type: clone_opt(&self.source_type),
        }
    }
}

/// The record that an article was deleted, kept so that feeds do not bring it back.
pub struct Tombstone {
    pub article_id: String,
    pub deleted_at: i64,
}

/// The mathematical content of a [`Tombstone`].
pub struct TombstoneView {
    pub article_id: Seq<char>,
    pub deleted_at: i64,
}

impl View for Tombstone {
    type V = TombstoneView;

    open spec fn view(&self) -> TombstoneView {
        TombstoneView { article_id: self.article_id@, deleted_at: self.deleted_at }
    }
}

impl Tombstone {
    /// A copy of this tombstone.
    pub fn duplicate(&self) -> (r: Tombstone)
        ensures
            r@ == self@,
    {
        Tombstone { article_id: self.article_id.clone(), deleted_at: self.deleted_at }
    }
}

/// What the cache remembers of a feed: its HTTP validators and when it was last checked.
pub struct FeedState {
    pub feed_url: String,
    pub etag: Option<String>,
    pub last_modified: Option<String>,
    pub last_checked_at: i64,
}

/// The mathematical content of a [`FeedState`].
pub struct FeedStateView {
    pub feed_url: Seq<char>,
    pub etag: Option<Seq<char>>,
    pub last_modified: Option<Seq<char>>,
    pub last_checked_at: i64,
}

impl View for FeedState {
    type V = FeedStateView;

    open spec fn view(&self) -> FeedStateView {
        FeedStateView {
            feed_url: self.feed_url@,
            etag: opt_view(self.etag),
            last_modified: opt_view(self.last_modified),
            last_checked_at: self.last_checked_at,
        }
    }
}

impl FeedState {
    /// A copy of this feed state.
    pub fn duplicate(&self) -> (r: FeedState)
        ensures
            r@ == self@,
    {
        FeedState {
            feed_url: self.feed_url.clone(),
            etag: clone_opt(&self.etag),
            last_modified: clone_opt(&self.last_modified),
            last_checked_at: self.last_checked_at,
        }
    }
}

/// The identifiers of a list of articles.
pub open spec fn article_ids(rows: Seq<ArticleView>) -> Seq<Seq<char>> {
    rows.map_values(|r: ArticleView| r.article_id)
}

/// The links of a list of articles.
pub open spec fn article_urls(rows: Seq<ArticleView>) -> Seq<Seq<char>> {
    rows.map_values(|r: ArticleView| r.url)
}

/// The identifiers of a list of archive rows.
pub open spec fn archived_ids(rows: Seq<ArchivedView>) -> Seq<Seq<char>> {
    rows.map_values(|r: ArchivedView| r.article_id)
}

/// The links of a list of archive rows.
pub open spec fn archived_urls(rows: Seq<ArchivedView>) -> Seq<Seq<char>> {
    rows.map_values(|r: ArchivedView| r.url)
}

/// The identifiers of a list of tombstones.
pub open spec fn tombstone_ids(rows: Seq<TombstoneView>) -> Seq<Seq<char>> {
    rows.map_values(|r: TombstoneView| r.article_id)
}

/// The URLs of a list of feed states.
pub open spec fn feed_urls(rows: Seq<FeedStateView>) -> Seq<Seq<char>> {
    rows.map_values(|r: FeedStateView| r.feed_url)
}

/// The first index at or after `from` where key `k` stands in `keys`.
pub open spec fn index_from(keys: Seq<Seq<char>>, k: Seq<char>, from: int) -> Option<int>
    decreases keys.len() - from,
{
    if from < 0 || from >= keys.len() {
        None
    } else if keys[from] == k {
        Some(from)
    } else {
        index_from(keys, k, from + 1)
    }
}

/// The first index where key `k` stands in `keys`.
pub open spec fn key_index(keys: Seq<Seq<char>>, k: Seq<char>) -> Option<int> {
    index_from(keys, k, 0)
}

/// What [`index_from`] finds is the first occurrence at or after `from`.
pub proof fn lemma_index_from(keys: Seq<Seq<char>>, k: Seq<char>, from: int)
    requires
        0 <= from,
    ensures
        index_from(keys, k, from) matches Some(i) ==> from <= i < keys.len() && keys[i] == k
            && forall|j: int| from <= j < i ==> keys[j] != k,
        index_from(keys, k, from) is None ==> forall|j: int| from <= j < keys.len() ==> keys[j] != k,
    decreases keys.len() - from,
{
    if from < keys.len() && keys[from] != k {
        lemma_index_from(keys, k, from + 1);
    }
}

/// A key stands in `keys` exactly when [`key_index`] finds it, at its only place when keys are unique.
pub proof fn lemma_key_index(keys: Seq<Seq<char>>, k: Seq<char>)
    ensures
        key_index(keys, k) matches Some(i) ==> 0 <= i < keys.len() && keys[i] == k,
        key_index(keys, k) is None <==> !keys.contains(k),
        keys.no_duplicates() ==> forall|j: int|
            0 <= j < keys.len() && keys[j] == k ==> key_index(keys, k) == Some(j),
{
    lemma_index_from(keys, k, 0);
    if keys.contains(k) {
        let j = choose|j: int| 0 <= j < keys.len() && keys[j] == k;
        assert(key_index(keys, k) is Some);
    }
}

/// The contents of the article cache.
pub struct StoreView {
    pub articles: Seq<ArticleView>,
    pub archived: Seq<ArchivedView>,
    pub deleted: Seq<TombstoneView>,
    pub feeds: Seq<FeedStateView>,
}

impl StoreView {
    /// The cache's keys are unique: article identifiers and links, archive
    /// identifiers and links, tombstone identifiers, and feed URLs.
    pub open spec fn well_formed(self) -> bool {
        &&& article_ids(self.articles).no_duplicates()
        &&& article_urls(self.articles).no_duplicates()
        &&& archived_ids(self.archived).no_duplicates()
        &&& archived_urls(self.archived).no_duplicates()
        &&& tombstone_ids(self.deleted).no_duplicates()
        &&& feed_urls(self.feeds).no_duplicates()
    }

    /// Whether the article is in the archive.
    pub open spec fn is_archived(self, id: Seq<char>) -> bool {
        archived_ids(self.archived).contains(id)
    }

    /// Whether the article has been deleted and not yet forgotten.
    pub open spec fn is_tombstoned(self, id: Seq<char>) -> bool {
        tombstone_ids(self.deleted).contains(id)
    }

    /// Whether the article is cached.
    pub open spec fn is_cached(self, id: Seq<char>) -> bool {
        article_ids(self.articles).contains(id)
    }
}

/// The article cache.
pub struct ArticleStore {
    articles: Vec<Article>,
    archived: Vec<ArchivedArticle>,
    deleted: Vec<Tombstone>,
    feeds: Vec<FeedState>,
}

/// The views of a list of articles.
pub open spec fn articles_view(v: Seq<Article>) -> Seq<ArticleView> {
    v.map_values(|a: Article| a@)
}

/// The views of a list of archive rows.
pub open spec fn archived_view(v: Seq<ArchivedArticle>) -> Seq<ArchivedView> {
    v.map_values(|a: ArchivedArticle| a@)
}

/// The views of a list of tombstones.
pub open spec fn tombstones_view(v: Seq<Tombstone>) -> Seq<TombstoneView> {
    v.map_values(|a: Tombstone| a@)
}

/// The views of a list of feed states.
pub open spec fn feeds_view(v: Seq<FeedState>) -> Seq<FeedStateView> {
    v.map_values(|a: FeedState| a@)
}

impl View for ArticleStore {
    type V = StoreView;

    closed spec fn view(&self) -> StoreView {
        StoreView {
            articles: articles_view(self.articles@),
            archived: archived_view(self.archived@),
            deleted: tombstones_view(self.deleted@),
            feeds: feeds_view(self.feeds@),
        }
    }
}

/// Where the article with identifier `id` stands in `rows`.
pub fn find_article(rows: &Vec<Article>, id: &String) -> (r: Option<usize>)
    ensures
        r matches Some(i) ==> key_index(article_ids(articles_view(rows@)), id@) == Some(i as int),
        r is None ==> key_index(article_ids(articles_view(rows@)), id@) is None,
{
    let ghost keys = article_ids(articles_view(rows@));
    let mut i: usize = 0;
    while i < rows.len()
        invariant
            keys == article_ids(articles_view(rows@)),
            keys.len() == rows.len(),
            i <= rows.len(),
            key_index(keys, id@) == index_from(keys, id@, i as int),
        decreases rows.len() - i,
    {
        assert(keys[i as int] == rows@[i as int].article_id@);
        if rows[i].article_id == *id {
            return Some(i);
        }
        i = i + 1;
    }
    None
}

/// Where the article with link `url` stands in `rows`.
pub fn find_article_url(rows: &Vec<Article>, url: &String) -> (r: Option<usize>)
    ensures
        r matches Some(i) ==> key_index(article_urls(articles_view(rows@)), url@) == Some(i as int),
        r is None ==> key_index(article_urls(articles_view(rows@)), url@) is None,
{
    let ghost keys = article_urls(articles_view(rows@));
    let mut i: usize = 0;
    while i < rows.len()
        invariant
            keys == article_urls(articles_view(rows@)),
            keys.len() == rows.len(),
            i <= rows.len(),
            key_index(keys, url@) == index_from(keys, url@, i as int),
        decreases rows.len() - i,
    {
        assert(keys[i as int] == rows@[i as int].url@);
        if rows[i].url == *url {
            return Some(i);
        }
        i = i + 1;
    }
    None
}

/// Where the archive row of article `id` stands in `rows`.
pub fn find_archived(rows: &Vec<ArchivedArticle>, id: &String) -> (r: Option<usize>)
    ensures
        r matches Some(i) ==> key_index(archived_ids(archived_view(rows@)), id@) == Some(i as int),
        r is None ==> key_index(archived_ids(archived_view(rows@)), id@) is None,
{
    let ghost keys = archived_ids(archived_view(rows@));
    let mut i: usize = 0;
    while i < rows.len()
        invariant
            keys == archived_ids(archived_view(rows@)),
            keys.len() == rows.len(),
            i <= rows.len(),
            key_index(keys, id@) == index_from(keys, id@, i as int),
        decreases rows.len() - i,
    {
        assert(keys[i as int] == rows@[i as int].article_id@);
        if rows[i].article_id == *id {
            return Some(i);
        }
        i = i + 1;
    }
    None
}

/// Where the archive row with link `url` stands in `rows`.
pub fn find_archived_url(rows: &Vec<ArchivedArticle>, url: &String) -> (r: Option<usize>)
    ensures
        r matches Some(i) ==> key_index(archived_urls(archived_view(rows@)), url@) == Some(
            i as int,
        ),
        r is None ==> key_index(archived_urls(archived_view(rows@)), url@) is None,
{
    let ghost keys = archived_urls(archived_view(rows@));
    let mut i: usize = 0;
    while i < rows.len()
        invariant
            keys == archived_urls(archived_view(rows@)),
            keys.len() == rows.len(),
            i <= rows.len(),
            key_index(keys, url@) == index_from(keys, url@, i as int),
        decreases rows.len() - i,
    {
        assert(keys[i as int] == rows@[i as int].url@);
        if rows[i].url == *url {
            return Some(i);
        }
        i = i + 1;
    }
    None
}

/// Where the tombstone of article `id` stands in `rows`.
pub fn find_tombstone(rows: &Vec<Tombstone>, id: &String) -> (r: Option<usize>)
    ensures
        r matches Some(i) ==> key_index(tombstone_ids(tombstones_view(rows@)), id@) == Some(
            i as int,
        ),
        r is None ==> key_index(tombstone_ids(tombstones_view(rows@)), id@) is None,
{
    let ghost keys = tombstone_ids(tombstones_view(rows@));
    let mut i: usize = 0;
    while i < rows.len()
        invariant
            keys == tombstone_ids(tombstones_view(rows@)),
            keys.len() == rows.len(),
            i <= rows.len(),
            key_index(keys, id@) == index_from(keys, id@, i as int),
        decreases rows.len() - i,
    {
        assert(keys[i as int] == rows@[i as int].article_id@);
        if rows[i].article_id == *id {
            return Some(i);
        }
        i = i + 1;
    }
    None
}

/// Where the state of feed `url` stands in `rows`.
pub fn find_feed(rows: &Vec<FeedState>, url: &String) -> (r: Option<usize>)
    ensures
        r matches Some(i) ==> key_index(feed_urls(feeds_view(rows@)), url@) == Some(i as int),
        r is None ==> key_index(feed_urls(feeds_view(rows@)), url@) is None,
{
    let ghost keys = feed_urls(feeds_view(rows@));
    let mut i: usize = 0;
    while i < rows.len()
        invariant
            keys == feed_urls(feeds_view(rows@)),
            keys.len() == rows.len(),
            i <= rows.len(),
            key_index(keys, url@) == index_from(keys, url@, i as int),
        decreases rows.len() - i,
    {
        assert(keys[i as int] == rows@[i as int].feed_url@);
        if rows[i].feed_url == *url {
            return Some(i);
        }
        i = i + 1;
    }
    None
}

/// A time `at` lies at least `retention` seconds before `now`.
pub open spec fn expired(at: i64, now: i64, retention: i64) -> bool {
    at <= now - retention
}

/// Whether `at` lies at least `retention` seconds before `now`.
pub fn is_expired(at: i64, now: i64, retention: i64) -> (r: bool)
    requires
        retention >= 0,
    ensures
        r == expired(at, now, retention),
{
    match now.checked_sub(retention) {
        Some(cutoff) => at <= cutoff,
        None => false,
    }
}

/// The article `id` is archived and its archive time has run out.
pub open spec fn has_expired_archive(archived: Seq<ArchivedView>, id: Seq<char>, now: i64) -> bool {
    exists|i: int|
        0 <= i < archived.len() && archived[i].article_id == id && expired(
            archived[i].archived_at,
            now,
            ARCHIVE_RETENTION_SECS,
        )
}

/// The article `id` is archived and its archive time has not run out.
pub open spec fn has_live_archive(archived: Seq<ArchivedView>, id: Seq<char>, now: i64) -> bool {
    exists|i: int|
        0 <= i < archived.len() && archived[i].article_id == id && !expired(
            archived[i].archived_at,
            now,
            ARCHIVE_RETENTION_SECS,
        )
}

/// An archive row survives pruning while its archive time has not run out.
pub open spec fn archive_survives(now: i64) -> spec_fn(ArchivedView) -> bool {
    |a: ArchivedView| !expired(a.archived_at, now, ARCHIVE_RETENTION_SECS)
}

/// An article survives pruning unless its archive time has run out, or a
/// feed last listed it ninety days ago or more and it is not in the archive.
pub open spec fn article_survives(archived: Seq<ArchivedView>, now: i64) -> spec_fn(
    ArticleView,
) -> bool {
    |r: ArticleView|
        !has_expired_archive(archived, r.article_id, now) && !(expired(
            r.last_seen_at,
            now,
            CACHE_RETENTION_SECS,
        ) && !has_live_archive(archived, r.article_id, now))
}

/// A tombstone of an article whose archive time ran out is renewed to `now`.
pub open spec fn refreshed_tombstone(archived: Seq<ArchivedView>, now: i64) -> spec_fn(
    TombstoneView,
) -> TombstoneView {
    |t: TombstoneView|
        if has_expired_archive(archived, t.article_id, now) {
            TombstoneView { article_id: t.article_id, deleted_at: now }
        } else {
            t
        }
}

/// A tombstone survives pruning while it is younger than ninety days.
pub open spec fn tombstone_survives(now: i64) -> spec_fn(TombstoneView) -> bool {
    |t: TombstoneView| !expired(t.deleted_at, now, TOMBSTONE_RETENTION_SECS)
}

/// An archive row whose time ran out and that has no tombstone yet gets one.
pub open spec fn needs_tombstone(deleted: Seq<TombstoneView>, now: i64) -> spec_fn(
    ArchivedView,
) -> bool {
    |a: ArchivedView|
        expired(a.archived_at, now, ARCHIVE_RETENTION_SECS) && !tombstone_ids(deleted).contains(
            a.article_id,
        )
}

/// The tombstone made at `now` for an archive row.
pub open spec fn tombstone_for(now: i64) -> spec_fn(ArchivedView) -> TombstoneView {
    |a: ArchivedView| TombstoneView { article_id: a.article_id, deleted_at: now }
}

impl StoreView {
    /// The cache after pruning at `now`: archived articles older than seven
    /// days are deleted and tombstoned (their article rows go too), articles
    /// no feed has listed for ninety days are dropped unless archived, and
    /// tombstones older than ninety days are forgotten.
    pub open spec fn pruned(self, now: i64) -> StoreView {
        StoreView {
            articles: self.articles.filter(article_survives(self.archived, now)),
            archived: self.archived.filter(archive_survives(now)),
            deleted: self.deleted.map_values(refreshed_tombstone(self.archived, now)).filter(
                tombstone_survives(now),
            ) + self.archived.filter(needs_tombstone(self.deleted, now)).map_values(
                tombstone_for(now),
            ),
            feeds: self.feeds,
        }
    }
}

/// Whether article `id` has an archive row whose time ran out, and whether it
/// has one whose time has not.
fn archive_status(archived: &Vec<ArchivedArticle>, id: &String, now: i64) -> (r: (bool, bool))
    requires
        archived_ids(archived_view(archived@)).no_duplicates(),
    ensures
        r.0 == has_expired_archive(archived_view(archived@), id@, now),
        r.1 == has_live_archive(archived_view(archived@), id@, now),
{
    let ghost av = archived_view(archived@);
    let ghost keys = archived_ids(av);
    proof {
        lemma_key_index(keys, id@);
    }
    match find_archived(archived, id) {
        Some(j) => {
            let e = is_expired(archived[j].archived_at, now, ARCHIVE_RETENTION_SECS);
            assert forall|i: int| 0 <= i < av.len() && av[i].article_id == id@ implies i == j by {
                assert(keys[i] == av[i].article_id);
            }
            assert(av[j as int].archived_at == archived@[j as int].archived_at);
            (e, !e)
        },
        None => {
            assert forall|i: int| 0 <= i < av.len() implies av[i].article_id != id@ by {
                assert(keys[i] == av[i].article_id);
            }
            (false, false)
        },
    }
}

/// Whether article `id` has a tombstone.
fn is_tombstoned_in(deleted: &Vec<Tombstone>, id: &String) -> (r: bool)
    ensures
        r == tombstone_ids(tombstones_view(deleted@)).contains(id@),
{
    proof {
        lemma_key_index(tombstone_ids(tombstones_view(deleted@)), id@);
    }
    find_tombstone(deleted, id).is_some()
}

impl ArticleStore {
    /// An empty cache.
    pub fn new() -> (r: ArticleStore)
        ensures
            r@.articles.len() == 0,
            r@.archived.len() == 0,
            r@.deleted.len() == 0,
            r@.feeds.len() == 0,
            r@.well_formed(),
    {
        ArticleStore {
            articles: Vec::new(),
            archived: Vec::new(),
            deleted: Vec::new(),
            feeds: Vec::new(),
        }
    }

    /// Prunes the cache at `now` (see [`StoreView::pruned`]).
    pub fn prune_cache(&mut self, now: i64)
        requires
            old(self)@.well_formed(),
        ensures
            final(self)@ == old(self)@.pruned(now),
            final(self)@.well_formed(),
    {
        let ghost old_view = self@;
        let ghost av = old_view.archived;
        // Articles.
        let mut articles: Vec<Article> = Vec::new();
        let mut i: usize = 0;
        while i < self.articles.len()
            invariant
                self@ == old_view,
                old_view.well_formed(),
                av == old_view.archived,
                i <= self.articles.len(),
                articles_view(articles@) == old_view.articles.take(i as int).filter(
                    article_survives(av, now),
                ),
            decreases self.articles.len() - i,
        {
            let row = &self.articles[i];
            assert(old_view.articles[i as int] == row@);
            assert(archived_view(self.archived@) == av);
            let (gone, live) = archive_status(&self.archived, &row.article_id, now);
            let stale = is_expired(row.last_seen_at, now, CACHE_RETENTION_SECS);
            proof {
                lemma_filter_take_step(old_view.articles, article_survives(av, now), i as int);
            }
            if !gone && !(stale && !live) {
                articles.push(row.duplicate());
            }
            assert(articles_view(articles@) =~= old_view.articles.take(i + 1).filter(
                article_survives(av, now),
            ));
            i = i + 1;
        }
        // Tombstones kept from before, renewed where their archive ran out.
        let mut deleted: Vec<Tombstone> = Vec::new();
        let ghost refreshed = old_view.deleted.map_values(refreshed_tombstone(av, now));
        let mut k: usize = 0;
        while k < self.deleted.len()
            invariant
                self@ == old_view,
                old_view.well_formed(),
                av == old_view.archived,
                refreshed == old_view.deleted.map_values(refreshed_tombstone(av, now)),
                k <= self.deleted.len(),
                tombstones_view(deleted@) == refreshed.take(k as int).filter(
                    tombstone_survives(now),
                ),
            decreases self.deleted.len() - k,
        {
            let t = &self.deleted[k];
            assert(old_view.deleted[k as int] == t@);
            assert(refreshed[k as int] == refreshed_tombstone(av, now)(t@));
            assert(archived_view(self.archived@) == av);
            let (gone, _live) = archive_status(&self.archived, &t.article_id, now);
            let renewed = if gone {
                Tombstone { article_id: t.article_id.clone(), deleted_at: now }
            } else {
                t.duplicate()
            };
            assert(renewed@ == refreshed[k as int]);
            proof {
                lemma_filter_take_step(refreshed, tombstone_survives(now), k as int);
            }
            if !is_expired(renewed.deleted_at, now, TOMBSTONE_RETENTION_SECS) {
                deleted.push(renewed);
            }
            assert(tombstones_view(deleted@) =~= refreshed.take(k + 1).filter(
                tombstone_survives(now),
            ));
            k = k + 1;
        }
        assert(refreshed.take(refreshed.len() as int) =~= refreshed);
        let ghost kept_tombstones = tombstones_view(deleted@);
        // Archive rows that survive, and tombstones for those that do not.
        let mut archived: Vec<ArchivedArticle> = Vec::new();
        let mut j: usize = 0;
        while j < self.archived.len()
            invariant
                self@ == old_view,
                old_view.well_formed(),
                av == old_view.archived,
                j <= self.archived.len(),
                archived_view(archived@) == av.take(j as int).filter(archive_survives(now)),
                tombstones_view(deleted@) == kept_tombstones + av.take(j as int).filter(
                    needs_tombstone(old_view.deleted, now),
                ).map_values(tombstone_for(now)),
            decreases self.archived.len() - j,
        {
            let a = &self.archived[j];
            assert(av[j as int] == a@);
            assert(tombstones_view(self.deleted@) == old_view.deleted);
            let gone = is_expired(a.archived_at, now, ARCHIVE_RETENTION_SECS);
            proof {
                lemma_filter_take_step(av, archive_survives(now), j as int);
                lemma_filter_take_step(av, needs_tombstone(old_view.deleted, now), j as int);
            }
            let ghost before = av.take(j as int).filter(needs_tombstone(old_view.deleted, now));
            let ghost tv_before = tombstones_view(deleted@);
            if gone {
                if !is_tombstoned_in(&self.deleted, &a.article_id) {
                    let fresh = Tombstone { article_id: a.article_id.clone(), deleted_at: now };
                    assert(fresh@ == tombstone_for(now)(av[j as int]));
                    assert(needs_tombstone(old_view.deleted, now)(av[j as int]));
                    deleted.push(fresh);
                    assert(tombstones_view(deleted@) =~= tv_before.push(fresh@));
                    assert(before.push(av[j as int]).map_values(tombstone_for(now)) =~= before.map_values(
                        tombstone_for(now),
                    ).push(tombstone_for(now)(av[j as int])));
                }
                else {
                    assert(!needs_tombstone(old_view.deleted, now)(av[j as int]));
                }
            } else {
                assert(!needs_tombstone(old_view.deleted, now)(av[j as int]));
                archived.push(a.duplicate());
            }
            assert(archived_view(archived@) =~= av.take(j + 1).filter(archive_survives(now)));
            assert(tombstones_view(deleted@) =~= kept_tombstones + av.take(j + 1).filter(
                needs_tombstone(old_view.deleted, now),
            ).map_values(tombstone_for(now)));
            j = j + 1;
        }
        assert(old_view.articles.take(old_view.articles.len() as int) =~= old_view.articles);
        assert(av.take(av.len() as int) =~= av);
        *self = ArticleStore { articles, archived, deleted, feeds: self.take_feeds() };
        assert(self@ =~= old_view.pruned(now));
        proof {
            lemma_pruned_well_formed(old_view, now);
        }
    }

    /// Moves the feed states out of the cache.
    fn take_feeds(&mut self) -> (r: Vec<FeedState>)
        ensures
            r@ == old(self).feeds@,
            final(self).articles@ == old(self).articles@,
            final(self).archived@ == old(self).archived@,
            final(self).deleted@ == old(self).deleted@,
    {
        let mut feeds: Vec<FeedState> = Vec::new();
        std::mem::swap(&mut feeds, &mut self.feeds);
        feeds
    }
}

/// Pruning keeps the cache's keys unique.
pub proof fn lemma_pruned_well_formed(v: StoreView, now: i64)
    requires
        v.well_formed(),
    ensures
        v.pruned(now).well_formed(),
{
    let p = v.pruned(now);
    assert forall|i: int, j: int|
        0 <= i < v.articles.len() && 0 <= j < v.articles.len() && i != j implies v.articles[i].article_id
        != v.articles[j].article_id && v.articles[i].url != v.articles[j].url by {
        assert(article_ids(v.articles)[i] == v.articles[i].article_id);
        assert(article_ids(v.articles)[j] == v.articles[j].article_id);
        assert(article_urls(v.articles)[i] == v.articles[i].url);
        assert(article_urls(v.articles)[j] == v.articles[j].url);
    }
    assert forall|i: int, j: int|
        0 <= i < v.archived.len() && 0 <= j < v.archived.len() && i != j implies v.archived[i].article_id
        != v.archived[j].article_id && v.archived[i].url != v.archived[j].url by {
        assert(archived_ids(v.archived)[i] == v.archived[i].article_id);
        assert(archived_ids(v.archived)[j] == v.archived[j].article_id);
        assert(archived_urls(v.archived)[i] == v.archived[i].url);
        assert(archived_urls(v.archived)[j] == v.archived[j].url);
    }
    assert forall|i: int, j: int|
        0 <= i < v.deleted.len() && 0 <= j < v.deleted.len() && i != j implies v.deleted[i].article_id
        != v.deleted[j].article_id by {
        assert(tombstone_ids(v.deleted)[i] == v.deleted[i].article_id);
        assert(tombstone_ids(v.deleted)[j] == v.deleted[j].article_id);
    }
    let fa = |r: ArticleView| r.article_id;
    let fu = |r: ArticleView| r.url;
    lemma_filter_unique_keys(v.articles, article_survives(v.archived, now), fa);
    lemma_filter_unique_keys(v.articles, article_survives(v.archived, now), fu);
    assert(article_ids(p.articles).no_duplicates());
    assert(article_urls(p.articles).no_duplicates());
    let ga = |r: ArchivedView| r.article_id;
    let gu = |r: ArchivedView| r.url;
    lemma_filter_unique_keys(v.archived, archive_survives(now), ga);
    lemma_filter_unique_keys(v.archived, archive_survives(now), gu);
    assert(archived_ids(p.archived).no_duplicates());
    assert(archived_urls(p.archived).no_duplicates());
    let refreshed = v.deleted.map_values(refreshed_tombstone(v.archived, now));
    let ft = |t: TombstoneView| t.article_id;
    let kept = refreshed.filter(tombstone_survives(now));
    lemma_filter_unique_keys(refreshed, tombstone_survives(now), ft);
    lemma_filter_subset(refreshed, tombstone_survives(now));
    let fresh_src = v.archived.filter(needs_tombstone(v.deleted, now));
    lemma_filter_unique_keys(v.archived, needs_tombstone(v.deleted, now), ga);
    lemma_filter_subset(v.archived, needs_tombstone(v.deleted, now));
    let fresh = fresh_src.map_values(tombstone_for(now));
    assert(p.deleted == kept + fresh);
    assert forall|x: int, y: int|
        0 <= x < p.deleted.len() && 0 <= y < p.deleted.len() && x != y implies p.deleted[x].article_id
        != p.deleted[y].article_id by {
        if x < kept.len() && y < kept.len() {
        } else if x >= kept.len() && y >= kept.len() {
            assert(p.deleted[x] == fresh[x - kept.len()]);
            assert(p.deleted[y] == fresh[y - kept.len()]);
        } else {
            let (a, b) = if x < kept.len() {
                (x, y)
            } else {
                (y, x)
            };
            assert(refreshed.contains(kept[a]));
            let m = choose|m: int| 0 <= m < refreshed.len() && refreshed[m] == kept[a];
            assert(tombstone_ids(v.deleted)[m] == v.deleted[m].article_id);
            assert(tombstone_ids(v.deleted).contains(kept[a].article_id));
            let c = b - kept.len();
            assert(fresh_src.contains(fresh_src[c]));
            assert(!tombstone_ids(v.deleted).contains(fresh_src[c].article_id));
            assert(p.deleted[b] == fresh[c]);
        }
    }
    assert(tombstone_ids(p.deleted).no_duplicates());
}

/// A key that a sequence does not hold keeps its keys unique when pushed.
pub proof fn lemma_push_unique(keys: Seq<Seq<char>>, k: Seq<char>)
    requires
        keys.no_duplicates(),
        !keys.contains(k),
    ensures
        keys.push(k).no_duplicates(),
{
    assert forall|i: int, j: int|
        0 <= i < keys.push(k).len() && 0 <= j < keys.push(k).len() && i != j implies keys.push(k)[i]
        != keys.push(k)[j] by {
        if i == keys.len() {
            assert(keys.contains(keys[j]));
        } else if j == keys.len() {
            assert(keys.contains(keys[i]));
        }
    }
}

/// Removing an element keeps a sequence's keys unique.
pub proof fn lemma_remove_unique(keys: Seq<Seq<char>>, i: int)
    requires
        keys.no_duplicates(),
        0 <= i < keys.len(),
    ensures
        keys.remove(i).no_duplicates(),
        forall|k: Seq<char>| keys.remove(i).contains(k) <==> (keys.contains(k) && k != keys[i]),
{
    let r = keys.remove(i);
    assert forall|x: int, y: int| 0 <= x < r.len() && 0 <= y < r.len() && x != y implies r[x] != r[y] by {
        let x0 = if x < i {
            x
        } else {
            x + 1
        };
        let y0 = if y < i {
            y
        } else {
            y + 1
        };
        assert(r[x] == keys[x0] && r[y] == keys[y0]);
    }
    assert forall|k: Seq<char>| r.contains(k) <==> (keys.contains(k) && k != keys[i]) by {
        if r.contains(k) {
            let x = choose|x: int| 0 <= x < r.len() && r[x] == k;
            let x0 = if x < i {
                x
            } else {
                x + 1
            };
            assert(keys[x0] == k);
        }
        if keys.contains(k) && k != keys[i] {
            let x0 = choose|x: int| 0 <= x < keys.len() && keys[x] == k;
            let x = if x0 < i {
                x0
            } else {
                x0 - 1
            };
            assert(r[x] == k);
        }
    }
}

/// Replacing one key by a key held nowhere else keeps keys unique.
pub proof fn lemma_update_unique(keys: Seq<Seq<char>>, i: int, k: Seq<char>)
    requires
        keys.no_duplicates(),
        0 <= i < keys.len(),
        forall|j: int| 0 <= j < keys.len() && j != i ==> keys[j] != k,
    ensures
        keys.update(i, k).no_duplicates(),
{
}

/// Some element other than the one at `except` holds key `k`.
pub open spec fn key_taken_except(keys: Seq<Seq<char>>, k: Seq<char>, except: int) -> bool {
    exists|j: int| 0 <= j < keys.len() && j != except && keys[j] == k
}

/// Whether some element other than the one at `except` holds `k`, given where `k` first stands.
proof fn lemma_key_taken(keys: Seq<Seq<char>>, k: Seq<char>, except: int)
    requires
        keys.no_duplicates(),
    ensures
        key_taken_except(keys, k, except) <==> (key_index(keys, k) matches Some(j) && j != except),
{
    lemma_key_index(keys, k);
}

/// Why the cache refused a write: a key or a link that must be unique is taken.
pub enum StoreError {
    DuplicateId,
    DuplicateUrl,
}

/// Why an article could not be archived.
pub enum ArchiveError {
    /// The trimmed link is empty.
    MissingLink,
    /// Another archived article has the same link.
    DuplicateUrl,
}

/// The archive row that archiving `entry` at `now` writes.
pub open spec fn archive_row(entry: ArchiveEntryView, now: i64) -> ArchivedView {
    let link = trim(entry.link);
    ArchivedView {
        article_id: article_id_of(link),
        url: link,
        title: entry.title,
        author: entry.author,
        published_at: entry.pub_date,
        archived_at: now,
        source_type: match entry.source_type {
            Some(t) => Some(t),
            None => Some("blog"@),
        },
    }
}

/// Writes `row` into `rows` keyed by identifier: replaces the row with the
/// same identifier, else appends it. `None` when another row holds its link.
pub open spec fn upsert_archived(rows: Seq<ArchivedView>, row: ArchivedView) -> Option<
    Seq<ArchivedView>,
> {
    match key_index(archived_ids(rows), row.article_id) {
        Some(i) => if key_taken_except(archived_urls(rows), row.url, i) {
            None
        } else {
            Some(rows.update(i, row))
        },
        None => if archived_urls(rows).contains(row.url) {
            None
        } else {
            Some(rows.push(row))
        },
    }
}

/// `rows` without the element whose key is `k`, if there is one.
pub open spec fn remove_key<A>(rows: Seq<A>, keys: Seq<Seq<char>>, k: Seq<char>) -> Seq<A> {
    match key_index(keys, k) {
        Some(i) => rows.remove(i),
        None => rows,
    }
}

/// Writes the tombstone `(id, now)`, renewing one that exists.
pub open spec fn upsert_tombstone(rows: Seq<TombstoneView>, id: Seq<char>, now: i64) -> Seq<
    TombstoneView,
> {
    let t = TombstoneView { article_id: id, deleted_at: now };
    match key_index(tombstone_ids(rows), id) {
        Some(i) => rows.update(i, t),
        None => rows.push(t),
    }
}

impl ArticleStore {
    /// Archives an article: its trimmed link must be non-empty; the archive
    /// row keyed by the link's article identifier is written (replacing an
    /// earlier one) with archive time `now` and type `blog` when none is
    /// given. Returns the article identifier.
    pub fn write_archived_article(&mut self, entry: &ArchiveEntry, now: i64) -> (r: Result<
        String,
        ArchiveError,
    >)
        requires
            old(self)@.well_formed(),
        ensures
            final(self)@.well_formed(),
            trim(entry@.link).len() == 0 ==> r matches Err(ArchiveError::MissingLink),
            r matches Err(ArchiveError::MissingLink) ==> trim(entry@.link).len() == 0,
            trim(entry@.link).len() > 0 ==> match upsert_archived(
                old(self)@.archived,
                archive_row(entry@, now),
            ) {
                Some(rows) => r matches Ok(id) && id@ == article_id_of(entry@.link)
                    && final(self)@ == (StoreView { archived: rows, ..old(self)@ }),
                None => r matches Err(ArchiveError::DuplicateUrl),
            },
            r is Err ==> final(self)@ == old(self)@,
    {
        let link = trimmed(entry.link.as_str());
        if link.as_str().is_empty() {
            return Err(ArchiveError::MissingLink);
        }
        let id = article_id(link.as_str());
        proof {
            crate::laws::lemma_trim_idempotent(entry@.link);
        }
        let source_type = match &entry.source_type {
            Some(t) => t.clone(),
            None => "blog".to_owned(),
        };
        let row = ArchivedArticle {
            article_id: id.clone(),
            url: link.clone(),
            title: clone_opt(&entry.title),
            author: clone_opt(&entry.author),
            published_at: clone_opt(&entry.pub_date),
            archived_at: now,
            source_type: Some(source_type),
        };
        assert(row@ == archive_row(entry@, now));
        let ghost old_view = self@;
        let ghost ids = archived_ids(old_view.archived);
        let ghost urls = archived_urls(old_view.archived);
        proof {
            lemma_key_index(ids, row@.article_id);
            lemma_key_index(urls, row@.url);
        }
        match find_archived(&self.archived, &row.article_id) {
            Some(i) => {
                proof {
                    lemma_key_taken(urls, row@.url, i as int);
                }
                match find_archived_url(&self.archived, &row.url) {
                    Some(j) => {
                        if j != i {
                            return Err(ArchiveError::DuplicateUrl);
                        }
                    },
                    None => {},
                }
                self.archived.set(i, row);
                proof {
                    assert(archived_ids(self@.archived) =~= ids);
                    assert(archived_urls(self@.archived) =~= urls.update(i as int, link@));
                    lemma_update_unique(urls, i as int, link@);
                }
            },
            None => {
                if find_archived_url(&self.archived, &row.url).is_some() {
                    return Err(ArchiveError::DuplicateUrl);
                }
                self.archived.push(row);
                proof {
                    assert(archived_ids(self@.archived) =~= ids.push(id@));
                    assert(archived_urls(self@.archived) =~= urls.push(link@));
                    lemma_push_unique(ids, id@);
                    lemma_push_unique(urls, link@);
                }
            },
        }
        assert(self@.archived =~= upsert_archived(old_view.archived, archive_row(entry@, now))->0);
        Ok(id)
    }

    /// Reinstates an article: removes its archive row, if any. Returns the identifier.
    pub fn delete_archived_article(&mut self, article_id: &str) -> (r: String)
        requires
            old(self)@.well_formed(),
        ensures
            final(self)@.well_formed(),
            r@ == article_id@,
            final(self)@ == (StoreView {
                archived: remove_key(
                    old(self)@.archived,
                    archived_ids(old(self)@.archived),
                    article_id@,
                ),
                ..old(self)@
            }),
    {
        let id: String = article_id.to_owned();
        let ghost old_view = self@;
        match find_archived(&self.archived, &id) {
            Some(i) => {
                proof {
                    lemma_key_index(archived_ids(old_view.archived), id@);
                }
                self.archived.remove(i);
                proof {
                    assert(archived_ids(self@.archived) =~= archived_ids(old_view.archived).remove(
                        i as int,
                    ));
                    assert(archived_urls(self@.archived) =~= archived_urls(
                        old_view.archived,
                    ).remove(i as int));
                    lemma_remove_unique(archived_ids(old_view.archived), i as int);
                    lemma_remove_unique(archived_urls(old_view.archived), i as int);
                }
                assert(self@.archived =~= old_view.archived.remove(i as int));
            },
            None => {},
        }
        id
    }

    /// Deletes an article for good: writes its tombstone at `now` (renewing
    /// one that exists) and removes its archive row and cached article.
    /// Returns the identifier.
    pub fn permanently_delete_article(&mut self, article_id: &str, now: i64) -> (r: String)
        requires
            old(self)@.well_formed(),
        ensures
            final(self)@.well_formed(),
            r@ == article_id@,
            final(self)@ == (StoreView {
                articles: remove_key(
                    old(self)@.articles,
                    article_ids(old(self)@.articles),
                    article_id@,
                ),
                archived: remove_key(
                    old(self)@.archived,
                    archived_ids(old(self)@.archived),
                    article_id@,
                ),
                deleted: upsert_tombstone(old(self)@.deleted, article_id@, now),
                feeds: old(self)@.feeds,
            }),
    {
        let id: String = article_id.to_owned();
        let ghost old_view = self@;
        let ghost tids = tombstone_ids(old_view.deleted);
        proof {
            lemma_key_index(tids, id@);
        }
        match find_tombstone(&self.deleted, &id) {
            Some(i) => {
                self.deleted.set(i, Tombstone { article_id: id.clone(), deleted_at: now });
                assert(tombstone_ids(self@.deleted) =~= tids);
            },
            None => {
                self.deleted.push(Tombstone { article_id: id.clone(), deleted_at: now });
                proof {
                    assert(tombstone_ids(self@.deleted) =~= tids.push(id@));
                    lemma_push_unique(tids, id@);
                }
            },
        }
        assert(self@.deleted =~= upsert_tombstone(old_view.deleted, id@, now));
        match find_archived(&self.archived, &id) {
            Some(i) => {
                proof {
                    lemma_key_index(archived_ids(old_view.archived), id@);
                }
                self.archived.remove(i);
                proof {
                    assert(archived_ids(self@.archived) =~= archived_ids(old_view.archived).remove(
                        i as int,
                    ));
                    assert(archived_urls(self@.archived) =~= archived_urls(
                        old_view.archived,
                    ).remove(i as int));
                    lemma_remove_unique(archived_ids(old_view.archived), i as int);
                    lemma_remove_unique(archived_urls(old_view.archived), i as int);
                }
                assert(self@.archived =~= old_view.archived.remove(i as int));
            },
            None => {},
        }
        match find_article(&self.articles, &id) {
            Some(i) => {
                proof {
                    lemma_key_index(article_ids(old_view.articles), id@);
                }
                self.articles.remove(i);
                proof {
                    assert(article_ids(self@.articles) =~= article_ids(old_view.articles).remove(
                        i as int,
                    ));
                    assert(article_urls(self@.articles) =~= article_urls(old_view.articles).remove(
                        i as int,
                    ));
                    lemma_remove_unique(article_ids(old_view.articles), i as int);
                    lemma_remove_unique(article_urls(old_view.articles), i as int);
                }
                assert(self@.articles =~= old_view.articles.remove(i as int));
            },
            None => {},
        }
        id
    }

    /// Records that feed `feed_url` answered "not modified": its last-checked
    /// time becomes `now`. A feed with no state is left without one.
    pub fn mark_feed_checked(&mut self, feed_url: &str, now: i64)
        requires
            old(self)@.well_formed(),
        ensures
            final(self)@.well_formed(),
            final(self)@ == (StoreView {
                feeds: match key_index(feed_urls(old(self)@.feeds), feed_url@) {
                    Some(i) => old(self)@.feeds.update(
                        i,
                        FeedStateView { last_checked_at: now, ..old(self)@.feeds[i] },
                    ),
                    None => old(self)@.feeds,
                },
                ..old(self)@
            }),
    {
        let url: String = feed_url.to_owned();
        let ghost old_view = self@;
        match find_feed(&self.feeds, &url) {
            Some(i) => {
                proof {
                    lemma_key_index(feed_urls(old_view.feeds), url@);
                }
                let mut state = self.feeds[i].duplicate();
                state.last_checked_at = now;
                self.feeds.set(i, state);
                proof {
                    assert(feed_urls(self@.feeds) =~= feed_urls(old_view.feeds));
                }
                assert(self@.feeds =~= old_view.feeds.update(
                    i as int,
                    FeedStateView { last_checked_at: now, ..old_view.feeds[i as int] },
                ));
            },
            None => {},
        }
    }

    /// The HTTP validators remembered for feed `feed_url`; none if the feed has no state.
    pub fn feed_validator(&self, feed_url: &str) -> (r: FeedValidator)
        ensures
            match key_index(feed_urls(self@.feeds), feed_url@) {
                Some(i) => opt_view(r.etag) == self@.feeds[i].etag && opt_view(r.last_modified)
                    == self@.feeds[i].last_modified,
                None => r.etag is None && r.last_modified is None,
            },
    {
        let url: String = feed_url.to_owned();
        match find_feed(&self.feeds, &url) {
            Some(i) => {
                proof {
                    lemma_key_index(feed_urls(self@.feeds), url@);
                }
                FeedValidator {
                    etag: clone_opt(&self.feeds[i].etag),
                    last_modified: clone_opt(&self.feeds[i].last_modified),
                }
            },
            None => FeedValidator { etag: None, last_modified: None },
        }
    }
}

/// The cached article that a feed entry becomes when written at `now`.
pub open spec fn entry_article(e: CachedFeedEntryView, feed_url: Seq<char>, now: i64) -> ArticleView {
    ArticleView {
        article_id: e.entry.id,
        url: e.entry.link,
        title: e.entry.title,
        author: e.entry.author,
        description: e.entry.description,
        published_at: e.entry.pub_date,
        published_ts: e.published_ts,
        is_summary: e.entry.is_summary,
        source_type: e.entry.source_type,
        video_id: e.entry.video_id,
        feed_url,
        last_seen_at: now,
    }
}

/// Writes `row` into `rows` keyed by identifier: replaces the row with the
/// same identifier, else appends it. `None` when another row holds its link.
pub open spec fn upsert_article(rows: Seq<ArticleView>, row: ArticleView) -> Option<Seq<ArticleView>> {
    match key_index(article_ids(rows), row.article_id) {
        Some(i) => if key_taken_except(article_urls(rows), row.url, i) {
            None
        } else {
            Some(rows.update(i, row))
        },
        None => if article_urls(rows).contains(row.url) {
            None
        } else {
            Some(rows.push(row))
        },
    }
}

/// Writes the entries of a feed, in order, into the articles `rows`: an
/// entry whose article has a tombstone is skipped, any other is written.
/// Gives the resulting articles and how many entries were written, or `None`
/// when a write finds its link held by another article.
pub open spec fn written_entries(
    rows: Seq<ArticleView>,
    deleted: Seq<TombstoneView>,
    entries: Seq<CachedFeedEntryView>,
    feed_url: Seq<char>,
    now: i64,
) -> Option<(Seq<ArticleView>, nat)>
    decreases entries.len(),
{
    if entries.len() == 0 {
        Some((rows, 0))
    } else {
        match written_entries(rows, deleted, entries.drop_last(), feed_url, now) {
            None => None,
            Some((r, n)) => {
                let e = entries.last();
                if tombstone_ids(deleted).contains(e.entry.id) {
                    Some((r, n))
                } else {
                    match upsert_article(r, entry_article(e, feed_url, now)) {
                        None => None,
                        Some(r2) => Some((r2, n + 1)),
                    }
                }
            },
        }
    }
}

/// The feed states after feed `url` answered with validators `etag` and
/// `last_modified` at `now`.
pub open spec fn upsert_feed_state(
    feeds: Seq<FeedStateView>,
    url: Seq<char>,
    etag: Option<Seq<char>>,
    last_modified: Option<Seq<char>>,
    now: i64,
) -> Seq<FeedStateView> {
    let st = FeedStateView { feed_url: url, etag, last_modified, last_checked_at: now };
    match key_index(feed_urls(feeds), url) {
        Some(i) => feeds.update(i, st),
        None => feeds.push(st),
    }
}

impl StoreView {
    /// The cache after writing a fetched feed at `now`, and how many entries
    /// were written; `None` when a write finds its link held by another article.
    pub open spec fn with_fetched_feed(self, feed: FetchedFeedView, now: i64) -> Option<
        (StoreView, nat),
    > {
        match written_entries(self.articles, self.deleted, feed.entries, feed.source.rss, now) {
            None => None,
            Some((rows, n)) => Some(
                (
                    StoreView {
                        articles: rows,
                        feeds: upsert_feed_state(
                            self.feeds,
                            feed.source.rss,
                            feed.etag,
                            feed.last_modified,
                            now,
                        ),
                        ..self
                    },
                    n,
                ),
            ),
        }
    }

    /// The cache after feed `url` answered "not modified" at `now`.
    pub open spec fn with_feed_checked(self, url: Seq<char>, now: i64) -> StoreView {
        StoreView {
            feeds: match key_index(feed_urls(self.feeds), url) {
                Some(i) => self.feeds.update(
                    i,
                    FeedStateView { last_checked_at: now, ..self.feeds[i] },
                ),
                None => self.feeds,
            },
            ..self
        }
    }
}

/// At most one article is written per entry.
pub proof fn lemma_written_count(
    rows: Seq<ArticleView>,
    deleted: Seq<TombstoneView>,
    entries: Seq<CachedFeedEntryView>,
    feed_url: Seq<char>,
    now: i64,
)
    ensures
        written_entries(rows, deleted, entries, feed_url, now) matches Some((r, n)) ==> n
            <= entries.len(),
    decreases entries.len(),
{
    if entries.len() > 0 {
        lemma_written_count(rows, deleted, entries.drop_last(), feed_url, now);
    }
}

/// The keys of the articles are unique.
pub open spec fn articles_keys_unique(rows: Seq<ArticleView>) -> bool {
    article_ids(rows).no_duplicates() && article_urls(rows).no_duplicates()
}

/// Writes `row` into `rows` keyed by identifier (see [`upsert_article`]).
/// Returns `false`, leaving `rows` as it was, when another row holds the link.
fn upsert_article_row(rows: &mut Vec<Article>, row: Article) -> (ok: bool)
    requires
        articles_keys_unique(articles_view(old(rows)@)),
    ensures
        ok <==> upsert_article(articles_view(old(rows)@), row@) is Some,
        ok ==> Some(articles_view(final(rows)@)) == upsert_article(articles_view(old(rows)@), row@),
        !ok ==> final(rows)@ == old(rows)@,
        articles_keys_unique(articles_view(final(rows)@)),
{
    let ghost old_view = articles_view(rows@);
    let ghost ids = article_ids(old_view);
    let ghost urls = article_urls(old_view);
    proof {
        lemma_key_index(ids, row@.article_id);
        lemma_key_index(urls, row@.url);
    }
    match find_article(rows, &row.article_id) {
        Some(i) => {
            proof {
                lemma_key_taken(urls, row@.url, i as int);
            }
            match find_article_url(rows, &row.url) {
                Some(j) => {
                    if j != i {
                        return false;
                    }
                },
                None => {},
            }
            let ghost rv = row@;
            rows.set(i, row);
            proof {
                assert(article_ids(articles_view(rows@)) =~= ids);
                assert(article_urls(articles_view(rows@)) =~= urls.update(i as int, rv.url));
                lemma_update_unique(urls, i as int, rv.url);
                assert(articles_view(rows@) =~= old_view.update(i as int, rv));
            }
            true
        },
        None => {
            if find_article_url(rows, &row.url).is_some() {
                return false;
            }
            let ghost rv = row@;
            rows.push(row);
            proof {
                assert(article_ids(articles_view(rows@)) =~= ids.push(rv.article_id));
                assert(article_urls(articles_view(rows@)) =~= urls.push(rv.url));
                lemma_push_unique(ids, rv.article_id);
                lemma_push_unique(urls, rv.url);
                assert(articles_view(rows@) =~= old_view.push(rv));
            }
            true
        },
    }
}

/// The article a cached feed entry becomes.
fn article_from_entry(e: &crate::model::CachedFeedEntry, feed_url: &String, now: i64) -> (r: Article)
    ensures
        r@ == entry_article(e@, feed_url@, now),
{
    Article {
        article_id: e.entry.id.clone(),
        url: e.entry.link.clone(),
        title: e.entry.title.clone(),
        author: e.entry.author.clone(),
        description: e.entry.description.clone(),
        published_at: e.entry.pub_date.clone(),
        published_ts: e.published_ts,
        is_summary: e.entry.is_summary,
        source_type: e.entry.source_type.clone(),
        video_id: clone_opt(&e.entry.video_id),
        feed_url: feed_url.clone(),
        last_seen_at: now,
    }
}

impl ArticleStore {
    /// A copy of the cached articles.
    fn copy_articles(&self) -> (r: Vec<Article>)
        ensures
            articles_view(r@) == self@.articles,
    {
        let ghost src = articles_view(self.articles@);
        let mut r: Vec<Article> = Vec::new();
        let mut i: usize = 0;
        while i < self.articles.len()
            invariant
                src == articles_view(self.articles@),
                i <= self.articles.len(),
                articles_view(r@) == src.take(i as int),
            decreases self.articles.len() - i,
        {
            let d = self.articles[i].duplicate();
            assert(src[i as int] == d@);
            let ghost before = r@;
            let ghost dv = d@;
            r.push(d);
            assert(r@ == before.push(d));
            assert(articles_view(r@) =~= articles_view(before).push(dv));
            i = i + 1;
            assert(articles_view(r@) =~= src.take(i as int));
        }
        assert(src.take(src.len() as int) =~= src);
        r
    }

    /// Writes a fetched feed at `now`: each entry without a tombstone becomes
    /// (or replaces) the cached article with its identifier, last seen at
    /// `now`; the feed's validators are remembered. Nothing is written when a
    /// link is held by another article. Returns how many entries were written.
    pub fn write_fetched_feed(&mut self, feed: &FetchedFeed, now: i64) -> (r: Result<
        usize,
        StoreError,
    >)
        requires
            old(self)@.well_formed(),
        ensures
            final(self)@.well_formed(),
            match old(self)@.with_fetched_feed(feed@, now) {
                Some((v, n)) => r matches Ok(c) && c == n && final(self)@ == v,
                None => r matches Err(StoreError::DuplicateUrl) && final(self)@ == old(self)@,
            },
    {
        let ghost old_view = self@;
        let ghost entries = feed@.entries;
        let mut rows = self.copy_articles();
        let mut count: usize = 0;
        let mut i: usize = 0;
        assert(entries.take(0) =~= Seq::<CachedFeedEntryView>::empty());
        while i < feed.entries.len()
            invariant
                self@ == old_view,
                old_view.well_formed(),
                entries == feed@.entries,
                entries.len() == feed.entries.len(),
                i <= feed.entries.len(),
                count <= i,
                articles_keys_unique(articles_view(rows@)),
                written_entries(
                    old_view.articles,
                    old_view.deleted,
                    entries.take(i as int),
                    feed@.source.rss,
                    now,
                ) == Some((articles_view(rows@), count as nat)),
            decreases feed.entries.len() - i,
        {
            let e = &feed.entries[i];
            assert(entries[i as int] == e@);
            assert(entries.take(i + 1).drop_last() =~= entries.take(i as int));
            assert(entries.take(i + 1).last() == e@);
            if is_tombstoned_in(&self.deleted, &e.entry.id) {
            } else {
                let row = article_from_entry(e, &feed.source.rss, now);
                if !upsert_article_row(&mut rows, row) {
                    proof {
                        lemma_written_none_stays(old_view, entries, feed@.source.rss, now, i as int);
                    }
                    return Err(StoreError::DuplicateUrl);
                }
                count = count + 1;
            }
            i = i + 1;
        }
        assert(entries.take(entries.len() as int) =~= entries);
        let st = FeedState {
            feed_url: feed.source.rss.clone(),
            etag: clone_opt(&feed.etag),
            last_modified: clone_opt(&feed.last_modified),
            last_checked_at: now,
        };
        let mut feeds = self.take_feeds();
        let ghost fkeys = feed_urls(old_view.feeds);
        proof {
            lemma_key_index(fkeys, st@.feed_url);
        }
        match find_feed(&feeds, &st.feed_url) {
            Some(k) => {
                feeds.set(k, st);
                assert(feed_urls(feeds_view(feeds@)) =~= fkeys);
            },
            None => {
                let ghost sv = st@;
                feeds.push(st);
                proof {
                    assert(feed_urls(feeds_view(feeds@)) =~= fkeys.push(sv.feed_url));
                    lemma_push_unique(fkeys, sv.feed_url);
                }
            },
        }
        self.articles = rows;
        self.feeds = feeds;
        assert(self@.articles == articles_view(rows@));
        assert(self@.archived == old_view.archived);
        assert(self@.deleted == old_view.deleted);
        assert(old_view.with_fetched_feed(feed@, now) == Some(
            (StoreView { articles: articles_view(rows@), feeds: upsert_feed_state(
                old_view.feeds,
                feed@.source.rss,
                feed@.etag,
                feed@.last_modified,
                now,
            ), ..old_view }, count as nat),
        ));
        assert(self@.feeds =~= upsert_feed_state(
            old_view.feeds,
            feed@.source.rss,
            feed@.etag,
            feed@.last_modified,
            now,
        ));
        Ok(count)
    }
}

/// Once a write fails, writing more entries fails too.
proof fn lemma_written_none_stays(
    v: StoreView,
    entries: Seq<CachedFeedEntryView>,
    feed_url: Seq<char>,
    now: i64,
    i: int,
)
    requires
        0 <= i < entries.len(),
        written_entries(v.articles, v.deleted, entries.take(i + 1), feed_url, now) is None,
    ensures
        written_entries(v.articles, v.deleted, entries, feed_url, now) is None,
    decreases entries.len() - i,
{
    if i + 1 < entries.len() {
        assert(entries.take(i + 2).drop_last() =~= entries.take(i + 1));
        lemma_written_none_stays(v, entries, feed_url, now, i + 1);
    } else {
        assert(entries.take(i + 1) =~= entries);
    }
}

/// What refreshing one feed came to, as values.
pub enum OutcomeView {
    Updated(FetchedFeedView),
    NotModified(FeedSourceView),
    Failed(FeedSourceView, Seq<char>),
}

/// The value of a refresh outcome.
pub open spec fn outcome_view(o: FeedSyncOutcome) -> OutcomeView {
    match o {
        FeedSyncOutcome::Updated(f) => OutcomeView::Updated(f@),
        FeedSyncOutcome::NotModified(s) => OutcomeView::NotModified(s@),
        FeedSyncOutcome::Failed(s, e) => OutcomeView::Failed(s@, e@),
    }
}

/// The values of a list of refresh outcomes.
pub open spec fn outcomes_view(v: Seq<FeedSyncOutcome>) -> Seq<OutcomeView> {
    v.map_values(|o: FeedSyncOutcome| outcome_view(o))
}

/// The characters of each string of a list.
pub open spec fn strings_view(v: Seq<String>) -> Seq<Seq<char>> {
    v.map_values(|s: String| s@)
}

/// The state of the cache and the counts while refresh outcomes are recorded.
pub struct SyncTally {
    pub store: StoreView,
    pub updated: nat,
    pub unchanged: nat,
    pub failed: Seq<Seq<char>>,
}

/// Records refresh outcomes in order: an updated feed is written, a feed that
/// was not modified is marked checked, a failed feed's name is listed.
/// `None` when writing a feed fails.
pub open spec fn recorded_outcomes(v: StoreView, outcomes: Seq<OutcomeView>, now: i64) -> Option<
    SyncTally,
>
    decreases outcomes.len(),
{
    if outcomes.len() == 0 {
        Some(SyncTally { store: v, updated: 0, unchanged: 0, failed: Seq::empty() })
    } else {
        match recorded_outcomes(v, outcomes.drop_last(), now) {
            None => None,
            Some(t) => match outcomes.last() {
                OutcomeView::Updated(f) => match t.store.with_fetched_feed(f, now) {
                    None => None,
                    Some((s, n)) => Some(SyncTally { store: s, updated: t.updated + n, ..t }),
                },
                OutcomeView::NotModified(src) => Some(
                    SyncTally {
                        store: t.store.with_feed_checked(src.rss, now),
                        unchanged: t.unchanged + 1,
                        ..t
                    },
                ),
                OutcomeView::Failed(src, _) => Some(SyncTally { failed: t.failed.push(src.name), ..t }),
            },
        }
    }
}

/// How many entries the updated feeds among `outcomes` bring.
pub open spec fn entry_total(outcomes: Seq<OutcomeView>) -> nat
    decreases outcomes.len(),
{
    if outcomes.len() == 0 {
        0
    } else {
        entry_total(outcomes.drop_last()) + match outcomes.last() {
            OutcomeView::Updated(f) => f.entries.len(),
            _ => 0,
        }
    }
}

/// Once recording fails, recording more outcomes fails too.
proof fn lemma_recorded_none_stays(v: StoreView, outcomes: Seq<OutcomeView>, now: i64, i: int)
    requires
        0 <= i < outcomes.len(),
        recorded_outcomes(v, outcomes.take(i + 1), now) is None,
    ensures
        recorded_outcomes(v, outcomes, now) is None,
    decreases outcomes.len() - i,
{
    if i + 1 < outcomes.len() {
        assert(outcomes.take(i + 2).drop_last() =~= outcomes.take(i + 1));
        lemma_recorded_none_stays(v, outcomes, now, i + 1);
    } else {
        assert(outcomes.take(i + 1) =~= outcomes);
    }
}

/// The entry totals of growing prefixes grow.
proof fn lemma_entry_total_prefix(outcomes: Seq<OutcomeView>, i: int)
    requires
        0 <= i <= outcomes.len(),
    ensures
        entry_total(outcomes.take(i)) <= entry_total(outcomes),
    decreases outcomes.len() - i,
{
    if i < outcomes.len() {
        lemma_entry_total_prefix(outcomes, i + 1);
        assert(outcomes.take(i + 1).drop_last() =~= outcomes.take(i));
    } else {
        assert(outcomes.take(i) =~= outcomes);
    }
}

impl ArticleStore {
    /// A copy of the whole cache.
    fn duplicate_store(&self) -> (r: ArticleStore)
        ensures
            r@ == self@,
    {
        let articles = self.copy_articles();
        let ghost av = archived_view(self.archived@);
        let mut archived: Vec<ArchivedArticle> = Vec::new();
        let mut i: usize = 0;
        while i < self.archived.len()
            invariant
                av == archived_view(self.archived@),
                i <= self.archived.len(),
                archived_view(archived@) == av.take(i as int),
            decreases self.archived.len() - i,
        {
            let d = self.archived[i].duplicate();
            let ghost before = archived@;
            let ghost dv = d@;
            assert(av[i as int] == dv);
            archived.push(d);
            assert(archived_view(archived@) =~= archived_view(before).push(dv));
            i = i + 1;
            assert(archived_view(archived@) =~= av.take(i as int));
        }
        assert(av.take(av.len() as int) =~= av);
        let ghost tv = tombstones_view(self.deleted@);
        let mut deleted: Vec<Tombstone> = Vec::new();
        let mut j: usize = 0;
        while j < self.deleted.len()
            invariant
                tv == tombstones_view(self.deleted@),
                j <= self.deleted.len(),
                tombstones_view(deleted@) == tv.take(j as int),
            decreases self.deleted.len() - j,
        {
            let d = self.deleted[j].duplicate();
            let ghost before = deleted@;
            let ghost dv = d@;
            assert(tv[j as int] == dv);
            deleted.push(d);
            assert(tombstones_view(deleted@) =~= tombstones_view(before).push(dv));
            j = j + 1;
            assert(tombstones_view(deleted@) =~= tv.take(j as int));
        }
        assert(tv.take(tv.len() as int) =~= tv);
        let ghost fv = feeds_view(self.feeds@);
        let mut feeds: Vec<FeedState> = Vec::new();
        let mut k: usize = 0;
        while k < self.feeds.len()
            invariant
                fv == feeds_view(self.feeds@),
                k <= self.feeds.len(),
                feeds_view(feeds@) == fv.take(k as int),
            decreases self.feeds.len() - k,
        {
            let d = self.feeds[k].duplicate();
            let ghost before = feeds@;
            let ghost dv = d@;
            assert(fv[k as int] == dv);
            feeds.push(d);
            assert(feeds_view(feeds@) =~= feeds_view(before).push(dv));
            k = k + 1;
            assert(feeds_view(feeds@) =~= fv.take(k as int));
        }
        assert(fv.take(fv.len() as int) =~= fv);
        ArticleStore { articles, archived, deleted, feeds }
    }

    /// Records the outcomes of refreshing every feed at `now`, then prunes
    /// the cache. Nothing is recorded, and nothing pruned, when writing a
    /// feed fails. Returns how many entries were written, how many feeds
    /// were unchanged, and the names of the feeds that failed.
    pub fn record_sync_outcomes(&mut self, outcomes: &Vec<FeedSyncOutcome>, now: i64) -> (r: Result<
        SyncResult,
        StoreError,
    >)
        requires
            old(self)@.well_formed(),
            entry_total(outcomes_view(outcomes@)) <= usize::MAX,
        ensures
            final(self)@.well_formed(),
            match recorded_outcomes(old(self)@, outcomes_view(outcomes@), now) {
                Some(t) => r matches Ok(res) && res.updated_articles == t.updated
                    && res.unchanged_feeds == t.unchanged && strings_view(res.failed_feeds@)
                    == t.failed && final(self)@ == t.store.pruned(now),
                None => r matches Err(StoreError::DuplicateUrl) && final(self)@ == old(self)@,
            },
    {
        let ghost old_view = self@;
        let ghost ov = outcomes_view(outcomes@);
        let mut work = self.duplicate_store();
        let mut updated: usize = 0;
        let mut unchanged: usize = 0;
        let mut failed: Vec<String> = Vec::new();
        let mut i: usize = 0;
        assert(ov.take(0) =~= Seq::<OutcomeView>::empty());
        assert(strings_view(failed@) =~= Seq::<Seq<char>>::empty());
        while i < outcomes.len()
            invariant
                self@ == old_view,
                old_view.well_formed(),
                ov == outcomes_view(outcomes@),
                ov.len() == outcomes.len(),
                entry_total(ov) <= usize::MAX,
                i <= outcomes.len(),
                unchanged <= i,
                updated <= entry_total(ov.take(i as int)),
                work@.well_formed(),
                recorded_outcomes(old_view, ov.take(i as int), now) == Some(
                    SyncTally {
                        store: work@,
                        updated: updated as nat,
                        unchanged: unchanged as nat,
                        failed: strings_view(failed@),
                    },
                ),
            decreases outcomes.len() - i,
        {
            assert(ov.take(i + 1).drop_last() =~= ov.take(i as int));
            assert(ov.take(i + 1).last() == outcome_view(outcomes@[i as int]));
            proof {
                lemma_entry_total_prefix(ov, i + 1);
            }
            let ghost wv = work@;
            match &outcomes[i] {
                FeedSyncOutcome::Updated(feed) => {
                    match work.write_fetched_feed(feed, now) {
                        Ok(n) => {
                            proof {
                                lemma_written_count(
                                    wv.articles,
                                    wv.deleted,
                                    feed@.entries,
                                    feed@.source.rss,
                                    now,
                                );
                            }
                            assert(updated + n <= entry_total(ov.take(i + 1)));
                            updated = updated + n;
                        },
                        Err(e) => {
                            proof {
                                lemma_recorded_none_stays(old_view, ov, now, i as int);
                            }
                            return Err(e);
                        },
                    }
                },
                FeedSyncOutcome::NotModified(source) => {
                    unchanged = unchanged + 1;
                    work.mark_feed_checked(source.rss.as_str(), now);
                },
                FeedSyncOutcome::Failed(source, _) => {
                    let ghost before = failed@;
                    failed.push(source.name.clone());
                    assert(strings_view(failed@) =~= strings_view(before).push(source.name@));
                },
            }
            i = i + 1;
        }
        assert(ov.take(ov.len() as int) =~= ov);
        work.prune_cache(now);
        *self = work;
        Ok(SyncResult { updated_articles: updated, unchanged_feeds: unchanged, failed_feeds: failed })
    }
}

impl ArticleStore {
    /// Adds a cached article as a plain insert: refused when its identifier
    /// or its link is already cached.
    pub fn insert_article(&mut self, row: Article) -> (r: Result<(), StoreError>)
        requires
            old(self)@.well_formed(),
        ensures
            final(self)@.well_formed(),
            old(self)@.is_cached(row@.article_id) ==> r matches Err(StoreError::DuplicateId),
            !old(self)@.is_cached(row@.article_id) && article_urls(old(self)@.articles).contains(
                row@.url,
            ) ==> r matches Err(StoreError::DuplicateUrl),
            r is Err ==> final(self)@ == old(self)@,
            r is Ok <==> !old(self)@.is_cached(row@.article_id) && !article_urls(
                old(self)@.articles,
            ).contains(row@.url),
            r is Ok ==> final(self)@ == (StoreView {
                articles: old(self)@.articles.push(row@),
                ..old(self)@
            }),
    {
        let ghost v = self@;
        proof {
            lemma_key_index(article_ids(v.articles), row@.article_id);
            lemma_key_index(article_urls(v.articles), row@.url);
        }
        if find_article(&self.articles, &row.article_id).is_some() {
            return Err(StoreError::DuplicateId);
        }
        if find_article_url(&self.articles, &row.url).is_some() {
            return Err(StoreError::DuplicateUrl);
        }
        let ghost rv = row@;
        self.articles.push(row);
        proof {
            assert(article_ids(self@.articles) =~= article_ids(v.articles).push(rv.article_id));
            assert(article_urls(self@.articles) =~= article_urls(v.articles).push(rv.url));
            lemma_push_unique(article_ids(v.articles), rv.article_id);
            lemma_push_unique(article_urls(v.articles), rv.url);
        }
        assert(self@.articles =~= v.articles.push(rv));
        Ok(())
    }

    /// Adds an archive row as a plain insert: refused when its identifier or
    /// its link is already archived.
    pub fn insert_archived(&mut self, row: ArchivedArticle) -> (r: Result<(), StoreError>)
        requires
            old(self)@.well_formed(),
        ensures
            final(self)@.well_formed(),
            old(self)@.is_archived(row@.article_id) ==> r matches Err(StoreError::DuplicateId),
            !old(self)@.is_archived(row@.article_id) && archived_urls(
                old(self)@.archived,
            ).contains(row@.url) ==> r matches Err(StoreError::DuplicateUrl),
            r is Err ==> final(self)@ == old(self)@,
            r is Ok <==> !old(self)@.is_archived(row@.article_id) && !archived_urls(
                old(self)@.archived,
            ).contains(row@.url),
            r is Ok ==> final(self)@ == (StoreView {
                archived: old(self)@.archived.push(row@),
                ..old(self)@
            }),
    {
        let ghost v = self@;
        proof {
            lemma_key_index(archived_ids(v.archived), row@.article_id);
            lemma_key_index(archived_urls(v.archived), row@.url);
        }
        if find_archived(&self.archived, &row.article_id).is_some() {
            return Err(StoreError::DuplicateId);
        }
        if find_archived_url(&self.archived, &row.url).is_some() {
            return Err(StoreError::DuplicateUrl);
        }
        let ghost rv = row@;
        self.archived.push(row);
        proof {
            assert(archived_ids(self@.archived) =~= archived_ids(v.archived).push(rv.article_id));
            assert(archived_urls(self@.archived) =~= archived_urls(v.archived).push(rv.url));
            lemma_push_unique(archived_ids(v.archived), rv.article_id);
            lemma_push_unique(archived_urls(v.archived), rv.url);
        }
        assert(self@.archived =~= v.archived.push(rv));
        Ok(())
    }

    /// Adds a tombstone as a plain insert: refused when the article already has one.
    pub fn insert_tombstone(&mut self, row: Tombstone) -> (r: Result<(), StoreError>)
        requires
            old(self)@.well_formed(),
        ensures
            final(self)@.well_formed(),
            old(self)@.is_tombstoned(row@.article_id) ==> r matches Err(StoreError::DuplicateId),
            r is Err ==> final(self)@ == old(self)@,
            r is Ok <==> !old(self)@.is_tombstoned(row@.article_id),
            r is Ok ==> final(self)@ == (StoreView {
                deleted: old(self)@.deleted.push(row@),
                ..old(self)@
            }),
    {
        let ghost v = self@;
        proof {
            lemma_key_index(tombstone_ids(v.deleted), row@.article_id);
        }
        if find_tombstone(&self.deleted, &row.article_id).is_some() {
            return Err(StoreError::DuplicateId);
        }
        let ghost rv = row@;
        self.deleted.push(row);
        proof {
            assert(tombstone_ids(self@.deleted) =~= tombstone_ids(v.deleted).push(rv.article_id));
            lemma_push_unique(tombstone_ids(v.deleted), rv.article_id);
        }
        assert(self@.deleted =~= v.deleted.push(rv));
        Ok(())
    }

    /// Adds a feed state as a plain insert: refused when the feed already has one.
    pub fn insert_feed_state(&mut self, row: FeedState) -> (r: Result<(), StoreError>)
        requires
            old(self)@.well_formed(),
        ensures
            final(self)@.well_formed(),
            feed_urls(old(self)@.feeds).contains(row@.feed_url) ==> r matches Err(
                StoreError::DuplicateId,
            ),
            r is Err ==> final(self)@ == old(self)@,
            r is Ok <==> !feed_urls(old(self)@.feeds).contains(row@.feed_url),
            r is Ok ==> final(self)@ == (StoreView {
                feeds: old(self)@.feeds.push(row@),
                ..old(self)@
            }),
    {
        let ghost v = self@;
        proof {
            lemma_key_index(feed_urls(v.feeds), row@.feed_url);
        }
        if find_feed(&self.feeds, &row.feed_url).is_some() {
            return Err(StoreError::DuplicateId);
        }
        let ghost rv = row@;
        self.feeds.push(row);
        proof {
            assert(feed_urls(self@.feeds) =~= feed_urls(v.feeds).push(rv.feed_url));
            lemma_push_unique(feed_urls(v.feeds), rv.feed_url);
        }
        assert(self@.feeds =~= v.feeds.push(rv));
        Ok(())
    }

    /// The cached articles.
    pub fn articles(&self) -> (r: &Vec<Article>)
        ensures
            articles_view(r@) == self@.articles,
    {
        &self.articles
    }

    /// The archive rows.
    pub fn archived(&self) -> (r: &Vec<ArchivedArticle>)
        ensures
            archived_view(r@) == self@.archived,
    {
        &self.archived
    }

    /// The tombstones.
    pub fn tombstones(&self) -> (r: &Vec<Tombstone>)
        ensures
            tombstones_view(r@) == self@.deleted,
    {
        &self.deleted
    }

    /// The feed states.
    pub fn feed_states(&self) -> (r: &Vec<FeedState>)
        ensures
            feeds_view(r@) == self@.feeds,
    {
        &self.feeds
    }
}

} // verus!
