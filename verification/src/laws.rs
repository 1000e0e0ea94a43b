//! Laws of the library, stated over the specifications of its functions.

use vstd::prelude::*;
use crate::text::{trim, trim_start, trim_end, is_white_space, starts_with, ends_with, contains_seq, occurs_at,
    index_of_from};
use crate::trusted::url_parse_result;
use crate::ids::article_id_of;
use crate::urls::youtube_video_id;
use crate::fetch::{summary_like, cached_entry_of, response_entries, kept_entries, entry_link, ParsedEntryView, ENTRIES_PER_FEED};
use crate::model::{ArchiveEntryView, ArticleCursorView, FetchedFeedView, CachedFeedEntryView};
use crate::store::{
    StoreView, ArticleView, TombstoneView, archive_row, upsert_archived, remove_key,
    upsert_tombstone, archived_ids, article_ids, tombstone_ids, key_index, lemma_key_index,
    lemma_remove_unique, upsert_article, written_entries, entry_article,
    articles_keys_unique, article_urls, key_taken_except, upsert_feed_state, feed_urls,
    FeedStateView, lemma_index_from, lemma_update_unique, lemma_push_unique,
    OutcomeView, recorded_outcomes,
};
use crate::pages::{row_listed, matches_query, key_before, is_page, next_cursor_of, row_before, page_entries,
    normalized_query, has_more, lemma_row_before_transitive, lemma_row_before_asymmetric, lemma_row_before_total};
use crate::store::{
    expired, has_expired_archive, has_live_archive, article_survives, archive_survives,
    refreshed_tombstone, tombstone_survives, needs_tombstone, tombstone_for,
    ARCHIVE_RETENTION_SECS, CACHE_RETENTION_SECS, TOMBSTONE_RETENTION_SECS,
};
use crate::sources::{expected_plan, PlanSpec, FeedSourceView, feed_url_problem, source_type_of,
    expected_youtube_source, youtube_channel_feed_url, youtube_outcome, YoutubeOutcome, channel_in_path,
    lemma_index_of_from_bounds};
use crate::like::{like_match, like_contains, same_ignoring_ascii_case};
use crate::seqs::{lemma_filter_subset, lemma_filter_all_pass, lemma_filter_none_pass, lemma_filter_unique_keys};

verus! {

/// Trimming twice is trimming once.
pub proof fn lemma_trim_idempotent(s: Seq<char>)
    ensures
        trim(trim(s)) == trim(s),
{
    lemma_trim_start_result(s);
    lemma_trim_end_result(trim_start(s));
    let t = trim(s);
    lemma_trim_start_fixed(t);
    lemma_trim_end_fixed(t);
}

/// `trim_start` removes a prefix, and what remains starts with no whitespace.
proof fn lemma_trim_start_result(s: Seq<char>)
    ensures
        trim_start(s).len() > 0 ==> !is_white_space(trim_start(s)[0]),
        exists|k: int| 0 <= k <= s.len() && trim_start(s) == s.skip(k),
    decreases s.len(),
{
    if s.len() > 0 && is_white_space(s[0]) {
        lemma_trim_start_result(s.drop_first());
        let k = choose|k: int| 0 <= k <= s.drop_first().len() && trim_start(s.drop_first()) == s.drop_first().skip(k);
        assert(s.drop_first().skip(k) =~= s.skip(k + 1));
    } else {
        assert(s.skip(0) =~= s);
    }
}

/// `trim_end` removes a suffix, and what remains ends with no whitespace.
proof fn lemma_trim_end_result(s: Seq<char>)
    ensures
        trim_end(s).len() > 0 ==> !is_white_space(trim_end(s).last()),
        trim_end(s).len() > 0 ==> trim_end(s)[0] == s[0],
        trim_end(s).len() <= s.len(),
    decreases s.len(),
{
    if s.len() > 0 && is_white_space(s.last()) {
        lemma_trim_end_result(s.drop_last());
    }
}

/// A sequence that starts with no whitespace is its own `trim_start`.
proof fn lemma_trim_start_fixed(s: Seq<char>)
    requires
        s.len() > 0 ==> !is_white_space(s[0]),
    ensures
        trim_start(s) == s,
{
}

/// A sequence that ends with no whitespace is its own `trim_end`.
proof fn lemma_trim_end_fixed(s: Seq<char>)
    requires
        s.len() > 0 ==> !is_white_space(s.last()),
    ensures
        trim_end(s) == s,
{
}

/// An article's identifier ignores whitespace around its link.
pub proof fn law_article_id_ignores_surrounding_whitespace(link: Seq<char>)
    ensures
        article_id_of(trim(link)) == article_id_of(link),
{
    lemma_trim_idempotent(link);
}

/// After archiving succeeds, the archived article is no longer listed in the
/// feed, and it is listed in the archive unless it has been deleted.
pub proof fn law_archiving_moves_article_to_archive(
    v: StoreView,
    entry: ArchiveEntryView,
    now: i64,
    r: ArticleView,
    q: Option<Seq<char>>,
    cursor: Option<ArticleCursorView>,
)
    requires
        v.well_formed(),
        trim(entry.link).len() > 0,
        upsert_archived(v.archived, archive_row(entry, now)) is Some,
        r.article_id == article_id_of(entry.link),
    ensures
        ({
            let after = StoreView {
                archived: upsert_archived(v.archived, archive_row(entry, now))->0,
                ..v
            };
            &&& !row_listed(after, r, false, q, cursor)
            &&& row_listed(after, r, true, None, None) <==> !v.is_tombstoned(r.article_id)
        }),
{
    let row = archive_row(entry, now);
    lemma_trim_idempotent(entry.link);
    assert(row.article_id == r.article_id);
    let rows = upsert_archived(v.archived, row)->0;
    let ids = archived_ids(v.archived);
    lemma_key_index(ids, row.article_id);
    match key_index(ids, row.article_id) {
        Some(i) => {
            assert(rows == v.archived.update(i, row));
            assert(archived_ids(rows)[i] == row.article_id);
        },
        None => {
            assert(rows == v.archived.push(row));
            assert(archived_ids(rows)[v.archived.len() as int] == row.article_id);
        },
    }
    let after = StoreView { archived: rows, ..v };
    assert(after.is_archived(r.article_id));
}

/// After reinstating an article, it is out of the archive and listed in the
/// feed again, as long as it has not been deleted and matches the search and cursor.
pub proof fn law_reinstating_returns_article_to_feed(
    v: StoreView,
    id: Seq<char>,
    r: ArticleView,
    q: Option<Seq<char>>,
    cursor: Option<ArticleCursorView>,
)
    requires
        v.well_formed(),
        r.article_id == id,
    ensures
        ({
            let after = StoreView { archived: remove_key(v.archived, archived_ids(v.archived), id), ..v };
            &&& !after.is_archived(id)
            &&& row_listed(after, r, false, q, cursor) <==> (!v.is_tombstoned(id) && matches_query(r, q)
                && match cursor {
                None => true,
                Some(c) => key_before(r.published_ts, r.article_id, c.published_ts, c.article_id),
            })
        }),
{
    let ids = archived_ids(v.archived);
    lemma_key_index(ids, id);
    let rows = remove_key(v.archived, ids, id);
    match key_index(ids, id) {
        Some(i) => {
            lemma_remove_unique(ids, i);
            assert(archived_ids(rows) =~= ids.remove(i));
        },
        None => {},
    }
}

/// Archiving an article that was not archived, then reinstating it, leaves
/// the archive as it was.
pub proof fn law_archive_then_reinstate_restores_archive(v: StoreView, entry: ArchiveEntryView, now: i64)
    requires
        v.well_formed(),
        !v.is_archived(archive_row(entry, now).article_id),
        upsert_archived(v.archived, archive_row(entry, now)) is Some,
    ensures
        ({
            let rows = upsert_archived(v.archived, archive_row(entry, now))->0;
            remove_key(rows, archived_ids(rows), archive_row(entry, now).article_id) == v.archived
        }),
{
    let row = archive_row(entry, now);
    let ids = archived_ids(v.archived);
    lemma_key_index(ids, row.article_id);
    let rows = upsert_archived(v.archived, row)->0;
    assert(rows == v.archived.push(row));
    let ids2 = archived_ids(rows);
    assert(ids2 =~= ids.push(row.article_id));
    assert(ids2.no_duplicates()) by {
        crate::store::lemma_push_unique(ids, row.article_id);
    }
    lemma_key_index(ids2, row.article_id);
    assert(ids2[v.archived.len() as int] == row.article_id);
    assert(key_index(ids2, row.article_id) == Some(v.archived.len() as int));
    assert(rows.remove(v.archived.len() as int) =~= v.archived);
}

/// After deleting an article for good, it is neither cached nor archived,
/// and it has a tombstone dated `now`.
pub proof fn law_deleted_article_is_gone_and_tombstoned(v: StoreView, id: Seq<char>, now: i64)
    requires
        v.well_formed(),
    ensures
        ({
            let after = StoreView {
                articles: remove_key(v.articles, article_ids(v.articles), id),
                archived: remove_key(v.archived, archived_ids(v.archived), id),
                deleted: upsert_tombstone(v.deleted, id, now),
                feeds: v.feeds,
            };
            &&& !after.is_cached(id)
            &&& !after.is_archived(id)
            &&& after.deleted.contains(TombstoneView { article_id: id, deleted_at: now })
        }),
{
    let aids = article_ids(v.articles);
    let rids = archived_ids(v.archived);
    let tids = tombstone_ids(v.deleted);
    lemma_key_index(aids, id);
    lemma_key_index(rids, id);
    lemma_key_index(tids, id);
    match key_index(aids, id) {
        Some(i) => {
            lemma_remove_unique(aids, i);
            assert(article_ids(v.articles.remove(i)) =~= aids.remove(i));
        },
        None => {},
    }
    match key_index(rids, id) {
        Some(i) => {
            lemma_remove_unique(rids, i);
            assert(archived_ids(v.archived.remove(i)) =~= rids.remove(i));
        },
        None => {},
    }
    let t = TombstoneView { article_id: id, deleted_at: now };
    match key_index(tids, id) {
        Some(i) => {
            assert(upsert_tombstone(v.deleted, id, now)[i] == t);
        },
        None => {
            assert(upsert_tombstone(v.deleted, id, now)[v.deleted.len() as int] == t);
        },
    }
}

/// Writing an article whose identifier differs from `id` leaves `id` uncached.
proof fn lemma_upsert_keeps_absent(rows: Seq<ArticleView>, row: ArticleView, id: Seq<char>)
    requires
        upsert_article(rows, row) is Some,
        row.article_id != id,
        !article_ids(rows).contains(id),
    ensures
        !article_ids(upsert_article(rows, row)->0).contains(id),
{
    let ids = article_ids(rows);
    lemma_key_index(ids, row.article_id);
    match key_index(ids, row.article_id) {
        Some(i) => {
            assert(article_ids(rows.update(i, row)) =~= ids.update(i, row.article_id));
        },
        None => {
            assert(article_ids(rows.push(row)) =~= ids.push(row.article_id));
        },
    }
}

/// Writing feed entries never caches an article that has a tombstone and is not cached.
proof fn lemma_written_entries_skip(
    rows: Seq<ArticleView>,
    deleted: Seq<TombstoneView>,
    entries: Seq<CachedFeedEntryView>,
    feed_url: Seq<char>,
    now: i64,
    id: Seq<char>,
)
    requires
        tombstone_ids(deleted).contains(id),
        !article_ids(rows).contains(id),
        written_entries(rows, deleted, entries, feed_url, now) is Some,
    ensures
        !article_ids((written_entries(rows, deleted, entries, feed_url, now)->0).0).contains(id),
    decreases entries.len(),
{
    if entries.len() > 0 {
        lemma_written_entries_skip(rows, deleted, entries.drop_last(), feed_url, now, id);
        let prev = (written_entries(rows, deleted, entries.drop_last(), feed_url, now)->0).0;
        let e = entries.last();
        if !tombstone_ids(deleted).contains(e.entry.id) {
            lemma_upsert_keeps_absent(prev, entry_article(e, feed_url, now), id);
        }
    }
}

/// A deleted article that a feed still lists is not cached again while its
/// tombstone lasts: writing a fetched feed leaves it uncached.
pub proof fn law_tombstoned_article_is_not_reinserted(v: StoreView, feed: FetchedFeedView, now: i64, id: Seq<char>)
    requires
        v.is_tombstoned(id),
        !v.is_cached(id),
        v.with_fetched_feed(feed, now) is Some,
    ensures
        !(v.with_fetched_feed(feed, now)->0).0.is_cached(id),
{
    lemma_written_entries_skip(v.articles, v.deleted, feed.entries, feed.source.rss, now, id);
}

/// Pruning enforces the retention rules: no archived article older than
/// seven days remains; an article whose archive time ran out is no longer
/// cached and has a tombstone; an article no feed has listed for ninety
/// days stays cached only while archived; and no tombstone older than
/// ninety days remains.
pub proof fn law_prune_enforces_retention(v: StoreView, now: i64)
    ensures
        ({
            let p = v.pruned(now);
            &&& forall|i: int|
                0 <= i < p.archived.len() ==> !expired(
                    #[trigger] p.archived[i].archived_at,
                    now,
                    ARCHIVE_RETENTION_SECS,
                )
            &&& forall|i: int|
                0 <= i < p.articles.len() ==> !has_expired_archive(
                    v.archived,
                    #[trigger] p.articles[i].article_id,
                    now,
                )
            &&& forall|i: int|
                0 <= i < p.articles.len() && expired(
                    #[trigger] p.articles[i].last_seen_at,
                    now,
                    CACHE_RETENTION_SECS,
                ) ==> p.is_archived(p.articles[i].article_id)
            &&& forall|i: int|
                0 <= i < v.archived.len() && expired(
                    #[trigger] v.archived[i].archived_at,
                    now,
                    ARCHIVE_RETENTION_SECS,
                ) ==> p.is_tombstoned(v.archived[i].article_id)
            &&& forall|i: int|
                0 <= i < p.deleted.len() ==> !expired(
                    #[trigger] p.deleted[i].deleted_at,
                    now,
                    TOMBSTONE_RETENTION_SECS,
                )
        }),
{
    let p = v.pruned(now);
    lemma_filter_subset(v.archived, archive_survives(now));
    lemma_filter_subset(v.articles, article_survives(v.archived, now));
    assert forall|i: int|
        0 <= i < p.articles.len() && expired(
            #[trigger] p.articles[i].last_seen_at,
            now,
            CACHE_RETENTION_SECS,
        ) implies p.is_archived(p.articles[i].article_id) by {
        let id = p.articles[i].article_id;
        assert(article_survives(v.archived, now)(p.articles[i]));
        assert(has_live_archive(v.archived, id, now));
        let j = choose|j: int|
            0 <= j < v.archived.len() && v.archived[j].article_id == id && !expired(
                v.archived[j].archived_at,
                now,
                ARCHIVE_RETENTION_SECS,
            );
        v.archived.lemma_filter_contains(archive_survives(now), j);
        let x = choose|x: int| 0 <= x < p.archived.len() && p.archived[x] == v.archived[j];
        assert(archived_ids(p.archived)[x] == id);
    }
    let refreshed = v.deleted.map_values(refreshed_tombstone(v.archived, now));
    let kept = refreshed.filter(tombstone_survives(now));
    let fresh_src = v.archived.filter(needs_tombstone(v.deleted, now));
    let fresh = fresh_src.map_values(tombstone_for(now));
    lemma_filter_subset(refreshed, tombstone_survives(now));
    assert(p.deleted == kept + fresh);
    assert forall|i: int| 0 <= i < p.deleted.len() implies !expired(
        #[trigger] p.deleted[i].deleted_at,
        now,
        TOMBSTONE_RETENTION_SECS,
    ) by {
        if i < kept.len() {
            assert(tombstone_survives(now)(kept[i]));
        } else {
            assert(p.deleted[i] == fresh[i - kept.len()]);
        }
    }
    assert forall|i: int|
        0 <= i < v.archived.len() && expired(
            #[trigger] v.archived[i].archived_at,
            now,
            ARCHIVE_RETENTION_SECS,
        ) implies p.is_tombstoned(v.archived[i].article_id) by {
        let id = v.archived[i].article_id;
        if tombstone_ids(v.deleted).contains(id) {
            let m = choose|m: int| 0 <= m < v.deleted.len() && tombstone_ids(v.deleted)[m] == id;
            assert(v.deleted[m].article_id == id);
            assert(has_expired_archive(v.archived, id, now));
            assert(refreshed[m] == TombstoneView { article_id: id, deleted_at: now });
            refreshed.lemma_filter_contains(tombstone_survives(now), m);
            let x = choose|x: int| 0 <= x < kept.len() && kept[x] == refreshed[m];
            assert(p.deleted[x] == kept[x]);
            assert(tombstone_ids(p.deleted)[x] == id);
        } else {
            v.archived.lemma_filter_contains(needs_tombstone(v.deleted, now), i);
            let x = choose|x: int| 0 <= x < fresh_src.len() && fresh_src[x] == v.archived[i];
            assert(p.deleted[kept.len() + x] == fresh[x]);
            assert(tombstone_ids(p.deleted)[kept.len() + x] == id);
        }
    }
}

/// Pruning twice at the same time prunes nothing more.
pub proof fn law_prune_is_idempotent(v: StoreView, now: i64)
    ensures
        v.pruned(now).pruned(now) == v.pruned(now),
{
    let p = v.pruned(now);
    lemma_filter_subset(v.archived, archive_survives(now));
    lemma_filter_subset(v.articles, article_survives(v.archived, now));
    law_prune_enforces_retention(v, now);
    // Archive.
    lemma_filter_all_pass(p.archived, archive_survives(now));
    // Articles.
    assert forall|i: int| 0 <= i < p.articles.len() implies article_survives(p.archived, now)(
        p.articles[i],
    ) by {
        let r = p.articles[i];
        assert(article_survives(v.archived, now)(r));
        assert(!has_expired_archive(p.archived, r.article_id, now));
        if expired(r.last_seen_at, now, CACHE_RETENTION_SECS) {
            assert(has_live_archive(v.archived, r.article_id, now));
            let j = choose|j: int|
                0 <= j < v.archived.len() && v.archived[j].article_id == r.article_id && !expired(
                    v.archived[j].archived_at,
                    now,
                    ARCHIVE_RETENTION_SECS,
                );
            v.archived.lemma_filter_contains(archive_survives(now), j);
            let x = choose|x: int| 0 <= x < p.archived.len() && p.archived[x] == v.archived[j];
            assert(has_live_archive(p.archived, r.article_id, now));
        }
    }
    lemma_filter_all_pass(p.articles, article_survives(p.archived, now));
    // Tombstones.
    assert(p.deleted.map_values(refreshed_tombstone(p.archived, now)) =~= p.deleted);
    lemma_filter_all_pass(p.deleted, tombstone_survives(now));
    lemma_filter_none_pass(p.archived, needs_tombstone(p.deleted, now));
    assert(p.archived.filter(needs_tombstone(p.deleted, now)).map_values(tombstone_for(now)) =~= Seq::<
        TombstoneView,
    >::empty());
    assert(p.pruned(now).deleted =~= p.deleted);
}

/// An article that a feed listed at `now` survives pruning at `now`, unless
/// its archive time has run out.
pub proof fn law_recently_seen_article_survives_prune(v: StoreView, now: i64, k: int)
    requires
        0 <= k < v.articles.len(),
        v.articles[k].last_seen_at == now,
        !has_expired_archive(v.archived, v.articles[k].article_id, now),
    ensures
        v.pruned(now).articles.contains(v.articles[k]),
{
    v.articles.lemma_filter_contains(article_survives(v.archived, now), k);
}

/// Writing `row` keeps every cached identifier that was last seen at `now`
/// last seen at `now`, provided `row` is itself last seen at `now`.
proof fn lemma_upsert_keeps_seen(rows: Seq<ArticleView>, row: ArticleView, id: Seq<char>, now: i64)
    requires
        upsert_article(rows, row) is Some,
        row.last_seen_at == now,
        (exists|k: int| 0 <= k < rows.len() && rows[k].article_id == id && rows[k].last_seen_at == now)
            || row.article_id == id,
    ensures
        exists|k: int|
            0 <= k < upsert_article(rows, row)->0.len() && (upsert_article(rows, row)->0)[k].article_id
                == id && (upsert_article(rows, row)->0)[k].last_seen_at == now,
{
    let ids = article_ids(rows);
    lemma_key_index(ids, row.article_id);
    let out = upsert_article(rows, row)->0;
    match key_index(ids, row.article_id) {
        Some(i) => {
            if row.article_id == id {
                assert(out[i] == row);
            } else {
                let k = choose|k: int|
                    0 <= k < rows.len() && rows[k].article_id == id && rows[k].last_seen_at == now;
                assert(k != i);
                assert(out[k] == rows[k]);
            }
        },
        None => {
            if row.article_id == id {
                assert(out[rows.len() as int] == row);
            } else {
                let k = choose|k: int|
                    0 <= k < rows.len() && rows[k].article_id == id && rows[k].last_seen_at == now;
                assert(out[k] == rows[k]);
            }
        },
    }
}

/// Every written entry leaves a cached article with its identifier, last seen at `now`.
proof fn lemma_written_entries_seen(
    rows: Seq<ArticleView>,
    deleted: Seq<TombstoneView>,
    entries: Seq<CachedFeedEntryView>,
    feed_url: Seq<char>,
    now: i64,
    j: int,
)
    requires
        written_entries(rows, deleted, entries, feed_url, now) is Some,
        0 <= j < entries.len(),
        !tombstone_ids(deleted).contains(entries[j].entry.id),
    ensures
        ({
            let out = (written_entries(rows, deleted, entries, feed_url, now)->0).0;
            exists|k: int|
                0 <= k < out.len() && out[k].article_id == entries[j].entry.id && out[k].last_seen_at
                    == now
        }),
    decreases entries.len(),
{
    let before = written_entries(rows, deleted, entries.drop_last(), feed_url, now);
    assert(before is Some);
    let prev = (before->0).0;
    let e = entries.last();
    let id = entries[j].entry.id;
    let out = (written_entries(rows, deleted, entries, feed_url, now)->0).0;
    if j < entries.len() - 1 {
        assert(entries.drop_last()[j] == entries[j]);
        lemma_written_entries_seen(rows, deleted, entries.drop_last(), feed_url, now, j);
    }
    if !tombstone_ids(deleted).contains(e.entry.id) {
        let row = entry_article(e, feed_url, now);
        assert(upsert_article(prev, row) is Some);
        assert(out == upsert_article(prev, row)->0);
        lemma_upsert_keeps_seen(prev, row, id, now);
    } else {
        assert(j < entries.len() - 1);
        assert(out == prev);
    }
}

/// Articles still present in a feed response have their last-seen time
/// refreshed: after writing a fetched feed at `now`, every entry without a
/// tombstone is cached with last-seen time `now`.
pub proof fn law_written_entries_are_seen_now(v: StoreView, feed: FetchedFeedView, now: i64, j: int)
    requires
        v.with_fetched_feed(feed, now) is Some,
        0 <= j < feed.entries.len(),
        !v.is_tombstoned(feed.entries[j].entry.id),
    ensures
        ({
            let after = (v.with_fetched_feed(feed, now)->0).0;
            exists|k: int|
                0 <= k < after.articles.len() && after.articles[k].article_id == feed.entries[j].entry.id
                    && after.articles[k].last_seen_at == now
        }),
{
    lemma_written_entries_seen(v.articles, v.deleted, feed.entries, feed.source.rss, now, j);
    let w = written_entries(v.articles, v.deleted, feed.entries, feed.source.rss, now);
    assert(w is Some);
    assert((v.with_fetched_feed(feed, now)->0).0.articles == (w->0).0);
}

/// The cursor position of an article, as an article for comparisons.
pub open spec fn at_cursor(c: ArticleCursorView, r: ArticleView) -> ArticleView {
    ArticleView { published_ts: c.published_ts, article_id: c.article_id, ..r }
}

/// No two entries of a feed name the same article.
pub open spec fn entry_ids_unique(entries: Seq<CachedFeedEntryView>) -> bool {
    forall|i: int, j: int|
        0 <= i < j < entries.len() ==> #[trigger] entries[i].entry.id != #[trigger] entries[j].entry.id
}

/// How many entries of a feed have no tombstone.
pub open spec fn untombstoned_count(deleted: Seq<TombstoneView>, entries: Seq<CachedFeedEntryView>) -> nat
    decreases entries.len(),
{
    if entries.len() == 0 {
        0
    } else {
        untombstoned_count(deleted, entries.drop_last()) + if tombstone_ids(deleted).contains(
            entries.last().entry.id,
        ) {
            0nat
        } else {
            1nat
        }
    }
}

/// An article write keeps the keys unique, holds the written row, and keeps
/// every row of another identifier.
proof fn lemma_upsert_effect(rows: Seq<ArticleView>, row: ArticleView)
    requires
        articles_keys_unique(rows),
        upsert_article(rows, row) is Some,
    ensures
        articles_keys_unique(upsert_article(rows, row)->0),
        (upsert_article(rows, row)->0).contains(row),
        forall|r: ArticleView|
            rows.contains(r) && r.article_id != row.article_id ==> (upsert_article(
                rows,
                row,
            )->0).contains(r),
{
    let ids = article_ids(rows);
    let urls = article_urls(rows);
    lemma_key_index(ids, row.article_id);
    lemma_key_index(urls, row.url);
    let out = upsert_article(rows, row)->0;
    match key_index(ids, row.article_id) {
        Some(i) => {
            assert(out == rows.update(i, row));
            assert(article_ids(out) =~= ids.update(i, row.article_id));
            assert(ids.update(i, row.article_id) =~= ids);
            assert(article_urls(out) =~= urls.update(i, row.url));
            assert forall|j: int| 0 <= j < urls.len() && j != i implies urls[j] != row.url by {
                if urls[j] == row.url {
                    assert(key_taken_except(urls, row.url, i));
                }
            }
            lemma_update_unique(urls, i, row.url);
            assert(out[i] == row);
            assert forall|r: ArticleView|
                rows.contains(r) && r.article_id != row.article_id implies out.contains(r) by {
                let k = choose|k: int| 0 <= k < rows.len() && rows[k] == r;
                assert(ids[k] == r.article_id);
                assert(k != i);
                assert(out[k] == r);
            }
        },
        None => {
            assert(out == rows.push(row));
            assert(article_ids(out) =~= ids.push(row.article_id));
            assert(article_urls(out) =~= urls.push(row.url));
            lemma_push_unique(ids, row.article_id);
            lemma_push_unique(urls, row.url);
            assert(out[rows.len() as int] == row);
            assert forall|r: ArticleView|
                rows.contains(r) && r.article_id != row.article_id implies out.contains(r) by {
                let k = choose|k: int| 0 <= k < rows.len() && rows[k] == r;
                assert(out[k] == r);
            }
        },
    }
}

/// Writing a row that is already held changes nothing.
proof fn lemma_upsert_held_row(rows: Seq<ArticleView>, row: ArticleView)
    requires
        articles_keys_unique(rows),
        rows.contains(row),
    ensures
        upsert_article(rows, row) == Some(rows),
{
    let ids = article_ids(rows);
    let urls = article_urls(rows);
    let i = choose|i: int| 0 <= i < rows.len() && rows[i] == row;
    assert(ids[i] == row.article_id);
    lemma_key_index(ids, row.article_id);
    assert(key_index(ids, row.article_id) == Some(i));
    if key_taken_except(urls, row.url, i) {
        let j = choose|j: int| 0 <= j < urls.len() && j != i && urls[j] == row.url;
        assert(urls[i] == row.url);
    }
    assert(rows.update(i, row) =~= rows);
}

/// After a successful write of entries that name each article once, the
/// articles keep unique keys and hold the article of every entry without a
/// tombstone; the count is the number of such entries.
proof fn lemma_written_holds_entries(
    rows: Seq<ArticleView>,
    deleted: Seq<TombstoneView>,
    entries: Seq<CachedFeedEntryView>,
    feed_url: Seq<char>,
    now: i64,
)
    requires
        articles_keys_unique(rows),
        entry_ids_unique(entries),
        written_entries(rows, deleted, entries, feed_url, now) is Some,
    ensures
        ({
            let (r, n) = written_entries(rows, deleted, entries, feed_url, now)->0;
            &&& articles_keys_unique(r)
            &&& n == untombstoned_count(deleted, entries)
            &&& forall|j: int|
                0 <= j < entries.len() && !tombstone_ids(deleted).contains(entries[j].entry.id)
                    ==> r.contains(entry_article(#[trigger] entries[j], feed_url, now))
        }),
    decreases entries.len(),
{
    if entries.len() > 0 {
        let prefix = entries.drop_last();
        assert forall|i: int, j: int|
            0 <= i < j < prefix.len() implies #[trigger] prefix[i].entry.id != #[trigger] prefix[j].entry.id by {
            assert(prefix[i] == entries[i] && prefix[j] == entries[j]);
        }
        lemma_written_holds_entries(rows, deleted, prefix, feed_url, now);
        let (r0, n0) = written_entries(rows, deleted, prefix, feed_url, now)->0;
        let e = entries.last();
        let last = entries.len() - 1;
        if !tombstone_ids(deleted).contains(e.entry.id) {
            let row = entry_article(e, feed_url, now);
            lemma_upsert_effect(r0, row);
            let r = upsert_article(r0, row)->0;
            assert forall|j: int|
                0 <= j < entries.len() && !tombstone_ids(deleted).contains(entries[j].entry.id)
                    implies r.contains(entry_article(#[trigger] entries[j], feed_url, now)) by {
                if j < last {
                    assert(entries[j] == prefix[j]);
                    assert(entries[j].entry.id != entries[last].entry.id);
                    assert(r0.contains(entry_article(prefix[j], feed_url, now)));
                }
            }
        } else {
            assert forall|j: int|
                0 <= j < entries.len() && !tombstone_ids(deleted).contains(entries[j].entry.id)
                    implies r0.contains(entry_article(#[trigger] entries[j], feed_url, now)) by {
                if j < last {
                    assert(entries[j] == prefix[j]);
                }
            }
        }
    }
}

/// Writing entries whose articles are all held already changes nothing and
/// counts the entries without a tombstone.
proof fn lemma_written_again(
    rows: Seq<ArticleView>,
    deleted: Seq<TombstoneView>,
    entries: Seq<CachedFeedEntryView>,
    feed_url: Seq<char>,
    now: i64,
)
    requires
        articles_keys_unique(rows),
        forall|j: int|
            0 <= j < entries.len() && !tombstone_ids(deleted).contains(entries[j].entry.id)
                ==> rows.contains(entry_article(#[trigger] entries[j], feed_url, now)),
    ensures
        written_entries(rows, deleted, entries, feed_url, now) == Some(
            (rows, untombstoned_count(deleted, entries)),
        ),
    decreases entries.len(),
{
    if entries.len() > 0 {
        let prefix = entries.drop_last();
        assert forall|j: int|
            0 <= j < prefix.len() && !tombstone_ids(deleted).contains(prefix[j].entry.id)
                implies rows.contains(entry_article(#[trigger] prefix[j], feed_url, now)) by {
            assert(prefix[j] == entries[j]);
        }
        lemma_written_again(rows, deleted, prefix, feed_url, now);
        let e = entries.last();
        if !tombstone_ids(deleted).contains(e.entry.id) {
            assert(rows.contains(entry_article(entries[entries.len() - 1], feed_url, now)));
            lemma_upsert_held_row(rows, entry_article(e, feed_url, now));
        }
    }
}

/// Recording the same validators for a feed twice is recording them once.
proof fn lemma_feed_state_again(
    feeds: Seq<FeedStateView>,
    url: Seq<char>,
    etag: Option<Seq<char>>,
    last_modified: Option<Seq<char>>,
    now: i64,
)
    ensures
        ({
            let once = upsert_feed_state(feeds, url, etag, last_modified, now);
            upsert_feed_state(once, url, etag, last_modified, now) == once
        }),
{
    let st = FeedStateView { feed_url: url, etag, last_modified, last_checked_at: now };
    let urls = feed_urls(feeds);
    let once = upsert_feed_state(feeds, url, etag, last_modified, now);
    lemma_key_index(urls, url);
    match key_index(urls, url) {
        Some(i) => {
            assert(feed_urls(once) =~= urls);
            assert(once.update(i, st) =~= once);
        },
        None => {
            let n = feeds.len() as int;
            let urls1 = feed_urls(once);
            assert(urls1 =~= urls.push(url));
            assert(urls1[n] == url);
            lemma_index_from(urls1, url, 0);
            lemma_key_index(urls1, url);
            match key_index(urls1, url) {
                Some(j) => {
                    if j < n {
                        assert(urls[j] == url);
                        assert(urls.contains(url));
                    }
                    assert(j == n);
                },
                None => {
                    assert(urls1.contains(url));
                },
            }
            assert(once.update(n, st) =~= once);
        },
    }
}

/// Writing the same fetched feed again, at the same time, changes nothing
/// and counts the same entries, when the feed names each article once.
pub proof fn law_repeated_feed_write_changes_nothing(v: StoreView, feed: FetchedFeedView, now: i64)
    requires
        v.well_formed(),
        entry_ids_unique(feed.entries),
        v.with_fetched_feed(feed, now) is Some,
    ensures
        ({
            let (once, n) = v.with_fetched_feed(feed, now)->0;
            once.with_fetched_feed(feed, now) == Some((once, n))
        }),
{
    let rss = feed.source.rss;
    lemma_written_holds_entries(v.articles, v.deleted, feed.entries, rss, now);
    let (rows, n) = written_entries(v.articles, v.deleted, feed.entries, rss, now)->0;
    lemma_written_again(rows, v.deleted, feed.entries, rss, now);
    lemma_feed_state_again(v.feeds, rss, feed.etag, feed.last_modified, now);
    let (once, m) = v.with_fetched_feed(feed, now)->0;
    assert(once.articles == rows);
    assert(once.deleted == v.deleted);
    assert(m == n);
}

/// A successful article write leaves the link of the written row with no
/// other row, and adds or changes no row of another identifier.
proof fn lemma_upsert_others(rows: Seq<ArticleView>, row: ArticleView)
    requires
        articles_keys_unique(rows),
        upsert_article(rows, row) is Some,
    ensures
        forall|r: ArticleView| rows.contains(r) && r.article_id != row.article_id ==> r.url != row.url,
        forall|r: ArticleView|
            (upsert_article(rows, row)->0).contains(r) && r.article_id != row.article_id
                ==> rows.contains(r),
{
    let ids = article_ids(rows);
    let urls = article_urls(rows);
    lemma_key_index(ids, row.article_id);
    let out = upsert_article(rows, row)->0;
    assert forall|r: ArticleView| rows.contains(r) && r.article_id != row.article_id implies r.url
        != row.url by {
        let k = choose|k: int| 0 <= k < rows.len() && rows[k] == r;
        assert(urls[k] == r.url);
        assert(ids[k] == r.article_id);
        match key_index(ids, row.article_id) {
            Some(i) => {
                assert(k != i);
                if r.url == row.url {
                    assert(key_taken_except(urls, row.url, i));
                }
            },
            None => {
                if r.url == row.url {
                    assert(urls.contains(row.url));
                }
            },
        }
    }
    assert forall|r: ArticleView|
        out.contains(r) && r.article_id != row.article_id implies rows.contains(r) by {
        let k = choose|k: int| 0 <= k < out.len() && out[k] == r;
        match key_index(ids, row.article_id) {
            Some(i) => {
                assert(out == rows.update(i, row));
                assert(k != i);
                assert(rows[k] == r);
            },
            None => {
                assert(out == rows.push(row));
                assert(k < rows.len());
                assert(rows[k] == r);
            },
        }
    }
}

/// Some entry of the feed without a tombstone names article `x`.
pub open spec fn feed_written_id(deleted: Seq<TombstoneView>, all: Seq<CachedFeedEntryView>, x: Seq<char>) -> bool {
    !tombstone_ids(deleted).contains(x) && exists|i: int|
        0 <= i < all.len() && #[trigger] all[i].entry.id == x
}

/// Entry `i` is the last among the first `k` entries that names its article.
pub open spec fn last_with_id(all: Seq<CachedFeedEntryView>, i: int, k: int) -> bool {
    &&& 0 <= i < k <= all.len()
    &&& forall|m: int| i < m < k ==> #[trigger] all[m].entry.id != all[i].entry.id
}

/// Entries with the same link name the same article.
pub open spec fn links_name_ids(all: Seq<CachedFeedEntryView>) -> bool {
    forall|i: int, j: int|
        0 <= i < all.len() && 0 <= j < all.len() && #[trigger] all[i].entry.link
            == #[trigger] all[j].entry.link ==> all[i].entry.id == all[j].entry.id
}

/// Among the first `k` entries, some entry is the last to name the article entry `i0` names.
proof fn lemma_last_exists(all: Seq<CachedFeedEntryView>, i0: int, k: int)
    requires
        0 <= i0 < k <= all.len(),
    ensures
        exists|i: int| last_with_id(all, i, k) && all[i].entry.id == all[i0].entry.id,
    decreases k - i0,
{
    if !last_with_id(all, i0, k) {
        let m = choose|m: int| i0 < m < k && #[trigger] all[m].entry.id == all[i0].entry.id;
        lemma_last_exists(all, m, k);
    }
}

/// A first write of the first `k` entries: the keys stay unique, the count is
/// the number of entries without a tombstone, the article of the last entry
/// naming each written identifier is held, and no row of another identifier
/// holds the link of a written entry.
proof fn lemma_first_write(
    rows: Seq<ArticleView>,
    deleted: Seq<TombstoneView>,
    all: Seq<CachedFeedEntryView>,
    k: int,
    feed_url: Seq<char>,
    now: i64,
)
    requires
        articles_keys_unique(rows),
        0 <= k <= all.len(),
        written_entries(rows, deleted, all.take(k), feed_url, now) is Some,
    ensures
        ({
            let (s, n) = written_entries(rows, deleted, all.take(k), feed_url, now)->0;
            &&& articles_keys_unique(s)
            &&& n == untombstoned_count(deleted, all.take(k))
            &&& forall|i: int|
                last_with_id(all, i, k) && !tombstone_ids(deleted).contains(all[i].entry.id)
                    ==> s.contains(entry_article(#[trigger] all[i], feed_url, now))
            &&& forall|r: ArticleView, i: int|
                #[trigger] s.contains(r) && !feed_written_id(deleted, all, r.article_id) && 0 <= i < k
                    && !tombstone_ids(deleted).contains(all[i].entry.id) ==> r.url
                    != #[trigger] all[i].entry.link
        }),
    decreases k,
{
    if k > 0 {
        let t = all.take(k);
        assert(t.drop_last() =~= all.take(k - 1));
        assert(t.last() == all[k - 1]);
        lemma_first_write(rows, deleted, all, k - 1, feed_url, now);
        let (s0, n0) = written_entries(rows, deleted, all.take(k - 1), feed_url, now)->0;
        let e = all[k - 1];
        let (s, n) = written_entries(rows, deleted, t, feed_url, now)->0;
        if tombstone_ids(deleted).contains(e.entry.id) {
            assert(s == s0);
            assert forall|i: int|
                last_with_id(all, i, k) && !tombstone_ids(deleted).contains(all[i].entry.id)
                    implies s.contains(entry_article(#[trigger] all[i], feed_url, now)) by {
                assert(i != k - 1);
                assert(last_with_id(all, i, k - 1));
            }
        } else {
            let a = entry_article(e, feed_url, now);
            lemma_upsert_effect(s0, a);
            lemma_upsert_others(s0, a);
            assert(s == upsert_article(s0, a)->0);
            assert(feed_written_id(deleted, all, e.entry.id)) by {
                assert(all[k - 1].entry.id == e.entry.id);
            }
            assert forall|i: int|
                last_with_id(all, i, k) && !tombstone_ids(deleted).contains(all[i].entry.id)
                    implies s.contains(entry_article(#[trigger] all[i], feed_url, now)) by {
                if i < k - 1 {
                    assert(all[k - 1].entry.id != all[i].entry.id);
                    assert(last_with_id(all, i, k - 1));
                }
            }
            assert forall|r: ArticleView, i: int|
                #[trigger] s.contains(r) && !feed_written_id(deleted, all, r.article_id) && 0 <= i < k
                    && !tombstone_ids(deleted).contains(all[i].entry.id) implies r.url
                    != #[trigger] all[i].entry.link by {
                assert(r.article_id != a.article_id);
                assert(s0.contains(r));
            }
        }
    }
}

/// What a first write leaves: unique keys, the article of the last entry
/// naming each written identifier, and no row of another identifier holding
/// a written entry's link.
pub open spec fn first_write_result(
    r1: Seq<ArticleView>,
    deleted: Seq<TombstoneView>,
    all: Seq<CachedFeedEntryView>,
    feed_url: Seq<char>,
    now: i64,
) -> bool {
    &&& articles_keys_unique(r1)
    &&& links_name_ids(all)
    &&& forall|i: int|
        last_with_id(all, i, all.len() as int) && !tombstone_ids(deleted).contains(all[i].entry.id)
            ==> r1.contains(entry_article(#[trigger] all[i], feed_url, now))
    &&& forall|r: ArticleView, i: int|
        #[trigger] r1.contains(r) && !feed_written_id(deleted, all, r.article_id) && 0 <= i
            < all.len() && !tombstone_ids(deleted).contains(all[i].entry.id) ==> r.url
            != #[trigger] all[i].entry.link
}

/// Each row of `s` is the row of `r1` at its place, or the article of the
/// last of the first `k` entries that names it.
pub open spec fn rows_rewritten(
    r1: Seq<ArticleView>,
    s: Seq<ArticleView>,
    deleted: Seq<TombstoneView>,
    all: Seq<CachedFeedEntryView>,
    k: int,
    feed_url: Seq<char>,
    now: i64,
) -> bool {
    &&& s.len() == r1.len()
    &&& forall|idx: int| 0 <= idx < s.len() ==> #[trigger] s[idx].article_id == r1[idx].article_id
    &&& forall|idx: int|
        0 <= idx < s.len() ==> #[trigger] s[idx] == r1[idx] || exists|i: int|
            last_with_id(all, i, k) && !tombstone_ids(deleted).contains(all[i].entry.id)
                && all[i].entry.id == r1[idx].article_id && s[idx] == entry_article(
                #[trigger] all[i],
                feed_url,
                now,
            )
}

/// During a second write, no row other than that of entry `k - 1`'s article
/// holds that entry's link.
proof fn lemma_link_free(
    r1: Seq<ArticleView>,
    s0: Seq<ArticleView>,
    deleted: Seq<TombstoneView>,
    all: Seq<CachedFeedEntryView>,
    k: int,
    feed_url: Seq<char>,
    now: i64,
    ix: int,
)
    requires
        first_write_result(r1, deleted, all, feed_url, now),
        1 <= k <= all.len(),
        !tombstone_ids(deleted).contains(all[k - 1].entry.id),
        rows_rewritten(r1, s0, deleted, all, k - 1, feed_url, now),
        0 <= ix < r1.len(),
        r1[ix].article_id == all[k - 1].entry.id,
    ensures
        forall|j: int| 0 <= j < s0.len() && j != ix ==> #[trigger] s0[j].url != all[k - 1].entry.link,
{
    let x = all[k - 1].entry.id;
    assert forall|j: int| 0 <= j < s0.len() && j != ix implies #[trigger] s0[j].url != all[k
        - 1].entry.link by {
        let y = r1[j].article_id;
        assert(article_ids(r1)[j] == y && article_ids(r1)[ix] == x);
        assert(y != x);
        if s0[j] == r1[j] {
            if feed_written_id(deleted, all, y) {
                let i0 = choose|i: int| 0 <= i < all.len() && #[trigger] all[i].entry.id == y;
                lemma_last_exists(all, i0, all.len() as int);
                let iy = choose|i: int| last_with_id(all, i, all.len() as int) && all[i].entry.id == y;
                assert(r1.contains(entry_article(all[iy], feed_url, now)));
                let jy = choose|j2: int|
                    0 <= j2 < r1.len() && r1[j2] == entry_article(all[iy], feed_url, now);
                assert(article_ids(r1)[jy] == y);
                assert(jy == j);
                if s0[j].url == all[k - 1].entry.link {
                    assert(all[iy].entry.link == all[k - 1].entry.link);
                }
            } else {
                assert(r1.contains(r1[j]));
            }
        } else {
            let i = choose|i: int|
                last_with_id(all, i, k - 1) && !tombstone_ids(deleted).contains(all[i].entry.id)
                    && all[i].entry.id == r1[j].article_id && s0[j] == entry_article(
                    #[trigger] all[i],
                    feed_url,
                    now,
                );
            if s0[j].url == all[k - 1].entry.link {
                assert(all[i].entry.link == all[k - 1].entry.link);
            }
        }
    }
}

/// Rewriting the row of entry `k - 1`'s article with that entry's article
/// keeps the rows rewritten through entry `k - 1`.
proof fn lemma_rewritten_step(
    r1: Seq<ArticleView>,
    s0: Seq<ArticleView>,
    deleted: Seq<TombstoneView>,
    all: Seq<CachedFeedEntryView>,
    k: int,
    feed_url: Seq<char>,
    now: i64,
    ix: int,
)
    requires
        articles_keys_unique(r1),
        1 <= k <= all.len(),
        !tombstone_ids(deleted).contains(all[k - 1].entry.id),
        rows_rewritten(r1, s0, deleted, all, k - 1, feed_url, now),
        0 <= ix < r1.len(),
        r1[ix].article_id == all[k - 1].entry.id,
    ensures
        rows_rewritten(
            r1,
            s0.update(ix, entry_article(all[k - 1], feed_url, now)),
            deleted,
            all,
            k,
            feed_url,
            now,
        ),
{
    let x = all[k - 1].entry.id;
    let s = s0.update(ix, entry_article(all[k - 1], feed_url, now));
    assert forall|idx: int| 0 <= idx < s.len() implies #[trigger] s[idx] == r1[idx] || exists|i: int|
        last_with_id(all, i, k) && !tombstone_ids(deleted).contains(all[i].entry.id)
            && all[i].entry.id == r1[idx].article_id && s[idx] == entry_article(
            #[trigger] all[i],
            feed_url,
            now,
        ) by {
        if idx == ix {
            assert(last_with_id(all, k - 1, k));
        } else if s[idx] != r1[idx] {
            let i = choose|i: int|
                last_with_id(all, i, k - 1) && !tombstone_ids(deleted).contains(all[i].entry.id)
                    && all[i].entry.id == r1[idx].article_id && s0[idx] == entry_article(
                    #[trigger] all[i],
                    feed_url,
                    now,
                );
            assert(article_ids(r1)[idx] == r1[idx].article_id && article_ids(r1)[ix] == x);
            assert(all[k - 1].entry.id != all[i].entry.id);
            assert(last_with_id(all, i, k));
        }
    }
    assert forall|idx: int| 0 <= idx < s.len() implies #[trigger] s[idx].article_id
        == r1[idx].article_id by {
        if idx != ix {
            assert(s0[idx].article_id == r1[idx].article_id);
        }
    }
}

/// A tombstoned entry `k - 1` keeps the rows rewritten.
proof fn lemma_rewritten_skip(
    r1: Seq<ArticleView>,
    s0: Seq<ArticleView>,
    deleted: Seq<TombstoneView>,
    all: Seq<CachedFeedEntryView>,
    k: int,
    feed_url: Seq<char>,
    now: i64,
)
    requires
        1 <= k <= all.len(),
        tombstone_ids(deleted).contains(all[k - 1].entry.id),
        rows_rewritten(r1, s0, deleted, all, k - 1, feed_url, now),
    ensures
        rows_rewritten(r1, s0, deleted, all, k, feed_url, now),
{
    assert forall|idx: int| 0 <= idx < s0.len() implies #[trigger] s0[idx] == r1[idx] || exists|i: int|
        last_with_id(all, i, k) && !tombstone_ids(deleted).contains(all[i].entry.id)
            && all[i].entry.id == r1[idx].article_id && s0[idx] == entry_article(
            #[trigger] all[i],
            feed_url,
            now,
        ) by {
        if s0[idx] != r1[idx] {
            let i = choose|i: int|
                last_with_id(all, i, k - 1) && !tombstone_ids(deleted).contains(all[i].entry.id)
                    && all[i].entry.id == r1[idx].article_id && s0[idx] == entry_article(
                    #[trigger] all[i],
                    feed_url,
                    now,
                );
            assert(all[k - 1].entry.id != all[i].entry.id);
            assert(last_with_id(all, i, k));
        }
    }
}

/// Writing the first `k` entries again onto the result of a first write
/// succeeds, counts the entries without a tombstone, keeps the keys unique,
/// and leaves the rows rewritten through those entries.
proof fn lemma_second_write(
    r1: Seq<ArticleView>,
    deleted: Seq<TombstoneView>,
    all: Seq<CachedFeedEntryView>,
    k: int,
    feed_url: Seq<char>,
    now: i64,
)
    requires
        first_write_result(r1, deleted, all, feed_url, now),
        0 <= k <= all.len(),
    ensures
        written_entries(r1, deleted, all.take(k), feed_url, now) is Some,
        ({
            let (s, n) = written_entries(r1, deleted, all.take(k), feed_url, now)->0;
            &&& n == untombstoned_count(deleted, all.take(k))
            &&& articles_keys_unique(s)
            &&& rows_rewritten(r1, s, deleted, all, k, feed_url, now)
        }),
    decreases k,
{
    if k == 0 {
        assert(all.take(0) =~= Seq::<CachedFeedEntryView>::empty());
        let s = r1;
        assert forall|idx: int| 0 <= idx < s.len() implies #[trigger] s[idx] == r1[idx] || exists|i: int|
            last_with_id(all, i, k) && !tombstone_ids(deleted).contains(all[i].entry.id)
                && all[i].entry.id == r1[idx].article_id && s[idx] == entry_article(
                #[trigger] all[i],
                feed_url,
                now,
            ) by {
        }
    } else {
        let t = all.take(k);
        assert(t.drop_last() =~= all.take(k - 1));
        assert(t.last() == all[k - 1]);
        lemma_second_write(r1, deleted, all, k - 1, feed_url, now);
        let (s0, n0) = written_entries(r1, deleted, all.take(k - 1), feed_url, now)->0;
        let e = all[k - 1];
        let x = e.entry.id;
        if tombstone_ids(deleted).contains(x) {
            lemma_rewritten_skip(r1, s0, deleted, all, k, feed_url, now);
        } else {
            let a = entry_article(e, feed_url, now);
            lemma_last_exists(all, k - 1, all.len() as int);
            let il = choose|i: int| last_with_id(all, i, all.len() as int) && all[i].entry.id == x;
            assert(r1.contains(entry_article(all[il], feed_url, now)));
            let ix = choose|j: int| 0 <= j < r1.len() && r1[j] == entry_article(all[il], feed_url, now);
            assert(r1[ix].article_id == x);
            assert(s0[ix].article_id == x);
            let ids0 = article_ids(s0);
            let urls0 = article_urls(s0);
            assert(ids0[ix] == x);
            lemma_key_index(ids0, x);
            assert(key_index(ids0, x) == Some(ix));
            lemma_link_free(r1, s0, deleted, all, k, feed_url, now, ix);
            assert forall|j: int| 0 <= j < urls0.len() && j != ix implies urls0[j] != a.url by {
                assert(urls0[j] == s0[j].url);
            }
            assert(!key_taken_except(urls0, a.url, ix));
            assert(upsert_article(s0, a) == Some(s0.update(ix, a)));
            let s = s0.update(ix, a);
            assert(article_ids(s) =~= ids0);
            assert(article_urls(s) =~= urls0.update(ix, a.url));
            lemma_update_unique(urls0, ix, a.url);
            lemma_rewritten_step(r1, s0, deleted, all, k, feed_url, now, ix);
        }
    }
}

/// Writing the same fetched feed again, at the same time, changes nothing
/// and counts the same entries, when each entry's identifier is the one its
/// link gives, as for every feed the fetcher builds.
pub proof fn law_repeated_write_of_a_fetched_feed_changes_nothing(
    v: StoreView,
    feed: FetchedFeedView,
    now: i64,
)
    requires
        v.well_formed(),
        forall|j: int|
            0 <= j < feed.entries.len() ==> #[trigger] feed.entries[j].entry.id == article_id_of(
                feed.entries[j].entry.link,
            ),
        v.with_fetched_feed(feed, now) is Some,
    ensures
        ({
            let (once, n) = v.with_fetched_feed(feed, now)->0;
            once.with_fetched_feed(feed, now) == Some((once, n))
        }),
{
    let all = feed.entries;
    let rss = feed.source.rss;
    let len = all.len() as int;
    assert(all.take(len) =~= all);
    assert(links_name_ids(all));
    lemma_first_write(v.articles, v.deleted, all, len, rss, now);
    let (r1, n) = written_entries(v.articles, v.deleted, all, rss, now)->0;
    assert(first_write_result(r1, v.deleted, all, rss, now));
    lemma_second_write(r1, v.deleted, all, len, rss, now);
    let (s, m) = written_entries(r1, v.deleted, all, rss, now)->0;
    assert forall|idx: int| 0 <= idx < s.len() implies s[idx] == r1[idx] by {
        if s[idx] != r1[idx] {
            let i = choose|i: int|
                last_with_id(all, i, len) && !tombstone_ids(v.deleted).contains(all[i].entry.id)
                    && all[i].entry.id == r1[idx].article_id && s[idx] == entry_article(
                    #[trigger] all[i],
                    rss,
                    now,
                );
            assert(r1.contains(entry_article(all[i], rss, now)));
            let j = choose|j: int| 0 <= j < r1.len() && r1[j] == entry_article(all[i], rss, now);
            assert(article_ids(r1)[j] == article_ids(r1)[idx]);
        }
    }
    assert(s =~= r1);
    lemma_feed_state_again(v.feeds, rss, feed.etag, feed.last_modified, now);
    let (once, n1) = v.with_fetched_feed(feed, now)->0;
    assert(once.articles == r1);
    assert(once.deleted == v.deleted);
}

/// Loading more continues a page where it ended: a page after a cursor and
/// the page after its own cursor together form the page of both sizes after
/// that cursor.
pub proof fn law_next_page_continues(
    v: StoreView,
    archived: bool,
    q: Option<Seq<char>>,
    cursor: Option<ArticleCursorView>,
    first_limit: nat,
    second_limit: nat,
    first: Seq<ArticleView>,
    second: Seq<ArticleView>,
)
    requires
        is_page(v, archived, q, cursor, first_limit, first),
        next_cursor_of(v, archived, q, cursor, first) is Some,
        is_page(v, archived, q, next_cursor_of(v, archived, q, cursor, first), second_limit, second),
    ensures
        is_page(v, archived, q, cursor, first_limit + second_limit, first + second),
{
    let c = next_cursor_of(v, archived, q, cursor, first);
    let both = first + second;
    assert(first.len() > 0);
    let last1 = first.last();
    assert(row_listed(v, first[first.len() - 1], archived, q, cursor));
    assert forall|x: int| 0 <= x < both.len() implies v.articles.contains(#[trigger] both[x])
        && row_listed(v, both[x], archived, q, cursor) by {
        if x >= first.len() {
            assert(both[x] == second[x - first.len()]);
            assert(row_before(both[x], last1));
            match cursor {
                Some(k) => {
                    assert(row_before(last1, at_cursor(k, last1)));
                    lemma_row_before_transitive(both[x], last1, at_cursor(k, last1));
                },
                None => {},
            }
        }
    }
    assert forall|x: int, y: int| 0 <= x < y < both.len() implies row_before(both[y], both[x]) by {
        if y >= first.len() && x < first.len() {
            assert(both[y] == second[y - first.len()]);
            assert(row_before(both[y], last1));
            if x < first.len() - 1 {
                lemma_row_before_transitive(both[y], last1, first[x]);
            }
        } else if y >= first.len() {
            assert(both[y] == second[y - first.len()]);
            assert(both[x] == second[x - first.len()]);
        }
    }
    assert forall|k: int|
        0 <= k < v.articles.len() && row_listed(v, #[trigger] v.articles[k], archived, q, cursor)
            && !both.contains(v.articles[k]) implies both.len() == first_limit + second_limit && (
        both.len() > 0 ==> row_before(v.articles[k], both.last())) by {
        let a = v.articles[k];
        if first.contains(a) {
            let x = choose|x: int| 0 <= x < first.len() && first[x] == a;
            assert(both[x] == a);
        }
        if second.contains(a) {
            let x = choose|x: int| 0 <= x < second.len() && second[x] == a;
            assert(both[first.len() + x] == a);
        }
        assert(row_before(a, last1));
        assert(row_listed(v, a, archived, q, c));
        if second.len() > 0 {
            assert(both.last() == second.last());
        } else {
            assert(second_limit == 0);
        }
    }
}

/// The cursor that page `i` of a chain of pages is read after: none for the
/// first page, else the cursor that the page before it gave.
pub open spec fn chain_cursor(
    v: StoreView,
    archived: bool,
    q: Option<Seq<char>>,
    pages: Seq<Seq<ArticleView>>,
    i: nat,
) -> Option<ArticleCursorView>
    decreases i,
{
    if i == 0 {
        None
    } else {
        next_cursor_of(v, archived, q, chain_cursor(v, archived, q, pages, (i - 1) as nat), pages[i - 1])
    }
}

/// The articles of a list of pages, page after page.
pub open spec fn concat_pages(pages: Seq<Seq<ArticleView>>) -> Seq<ArticleView>
    decreases pages.len(),
{
    if pages.len() == 0 {
        Seq::empty()
    } else {
        concat_pages(pages.drop_last()) + pages.last()
    }
}

/// The first `n` pages of a chain together form the page of `n` times the
/// size, and the cursor the `n`-th page gave is the one that page would give.
proof fn lemma_chain_prefix(
    v: StoreView,
    archived: bool,
    q: Option<Seq<char>>,
    limit: nat,
    pages: Seq<Seq<ArticleView>>,
    n: nat,
)
    requires
        limit >= 1,
        1 <= n <= pages.len(),
        forall|i: int|
            0 <= i < pages.len() ==> is_page(
                v,
                archived,
                q,
                #[trigger] chain_cursor(v, archived, q, pages, i as nat),
                limit,
                pages[i],
            ),
        forall|i: int| 0 < i < pages.len() ==> #[trigger] chain_cursor(v, archived, q, pages, i as nat) is Some,
    ensures
        is_page(v, archived, q, None, n * limit, concat_pages(pages.take(n as int))),
        chain_cursor(v, archived, q, pages, n) == next_cursor_of(
            v,
            archived,
            q,
            None,
            concat_pages(pages.take(n as int)),
        ),
    decreases n,
{
    let t = pages.take(n as int);
    assert(t.drop_last() =~= pages.take(n - 1));
    assert(t.last() == pages[n - 1]);
    if n == 1 {
        assert(pages.take(0) =~= Seq::<Seq<ArticleView>>::empty());
        assert(concat_pages(t) =~= pages[0]);
        assert(chain_cursor(v, archived, q, pages, 0) is None);
        assert(is_page(v, archived, q, chain_cursor(v, archived, q, pages, 0), limit, pages[0]));
    } else {
        let m = (n - 1) as nat;
        lemma_chain_prefix(v, archived, q, limit, pages, m);
        let c0 = concat_pages(pages.take(m as int));
        let p = pages[m as int];
        let d = concat_pages(t);
        assert(d == c0 + p);
        let c = chain_cursor(v, archived, q, pages, m);
        assert(c is Some);
        assert(is_page(v, archived, q, c, limit, p));
        law_next_page_continues(v, archived, q, None, m * limit, limit, c0, p);
        assert(m * limit + limit == n * limit) by (nonlinear_arith)
            requires
                m + 1 == n,
        ;
        assert(c0.len() > 0);
        let last0 = c0.last();
        assert(row_listed(v, c0[c0.len() - 1], archived, q, None));
        if p.len() == 0 {
            assert(d =~= c0);
            assert(next_cursor_of(v, archived, q, c, p) is None);
            if has_more(v, archived, q, None, d) {
                let k = choose|k: int|
                    0 <= k < v.articles.len() && row_listed(v, #[trigger] v.articles[k], archived, q, None)
                        && !d.contains(v.articles[k]);
                assert(d.len() == n * limit);
                assert(c0.len() <= m * limit);
                assert(m * limit < n * limit) by (nonlinear_arith)
                    requires
                        m + 1 == n,
                        limit >= 1,
                ;
            }
        } else {
            assert(d.last() == p.last());
            assert(row_listed(v, p[p.len() - 1], archived, q, c));
            if has_more(v, archived, q, c, p) {
                let k = choose|k: int|
                    0 <= k < v.articles.len() && row_listed(v, #[trigger] v.articles[k], archived, q, c)
                        && !p.contains(v.articles[k]);
                let a = v.articles[k];
                assert(row_before(a, last0));
                if c0.contains(a) {
                    let x = choose|x: int| 0 <= x < c0.len() && c0[x] == a;
                    if x < c0.len() - 1 {
                        assert(row_before(c0[c0.len() - 1], c0[x]));
                    }
                    lemma_row_before_asymmetric(a, last0);
                }
                if d.contains(a) {
                    let x = choose|x: int| 0 <= x < d.len() && d[x] == a;
                    if x < c0.len() {
                        assert(c0[x] == a);
                    } else {
                        assert(p[x - c0.len()] == a);
                    }
                }
                assert(row_listed(v, v.articles[k], archived, q, None));
                assert(has_more(v, archived, q, None, d));
            }
            if has_more(v, archived, q, None, d) {
                let k = choose|k: int|
                    0 <= k < v.articles.len() && row_listed(v, #[trigger] v.articles[k], archived, q, None)
                        && !d.contains(v.articles[k]);
                let a = v.articles[k];
                assert(row_before(a, d.last()));
                assert(row_before(p.last(), at_cursor(c->0, p.last())));
                lemma_row_before_transitive(a, p.last(), at_cursor(c->0, p.last()));
                if p.contains(a) {
                    let x = choose|x: int| 0 <= x < p.len() && p[x] == a;
                    assert(d[c0.len() + x] == a);
                }
                assert(row_listed(v, v.articles[k], archived, q, c));
                assert(has_more(v, archived, q, c, p));
            }
        }
    }
}

/// Following the cursors from the first page, with pages of at least one
/// article, until no cursor is given lists every listed article exactly
/// once, newest first.
pub proof fn law_following_cursors_lists_every_article_once(
    v: StoreView,
    archived: bool,
    q: Option<Seq<char>>,
    limit: nat,
    pages: Seq<Seq<ArticleView>>,
)
    requires
        limit >= 1,
        pages.len() >= 1,
        forall|i: int|
            0 <= i < pages.len() ==> is_page(
                v,
                archived,
                q,
                #[trigger] chain_cursor(v, archived, q, pages, i as nat),
                limit,
                pages[i],
            ),
        forall|i: int| 0 < i < pages.len() ==> #[trigger] chain_cursor(v, archived, q, pages, i as nat) is Some,
        chain_cursor(v, archived, q, pages, pages.len()) is None,
    ensures
        ({
            let all = concat_pages(pages);
            &&& forall|x: int|
                0 <= x < all.len() ==> v.articles.contains(#[trigger] all[x]) && row_listed(
                    v,
                    all[x],
                    archived,
                    q,
                    None,
                )
            &&& forall|x: int, y: int| 0 <= x < y < all.len() ==> row_before(all[y], all[x])
            &&& forall|k: int|
                0 <= k < v.articles.len() && row_listed(v, #[trigger] v.articles[k], archived, q, None)
                    ==> all.contains(v.articles[k])
            &&& all.no_duplicates()
        }),
{
    let n = pages.len();
    lemma_chain_prefix(v, archived, q, limit, pages, n);
    assert(pages.take(n as int) =~= pages);
    let all = concat_pages(pages);
    assert(is_page(v, archived, q, None, n * limit, all));
    assert(next_cursor_of(v, archived, q, None, all) is None);
    assert(n * limit >= 1) by (nonlinear_arith)
        requires
            n >= 1,
            limit >= 1,
    ;
    assert forall|k: int|
        0 <= k < v.articles.len() && row_listed(v, #[trigger] v.articles[k], archived, q, None)
            implies all.contains(v.articles[k]) by {
        if !all.contains(v.articles[k]) {
            assert(all.len() == n * limit);
            assert(has_more(v, archived, q, None, all));
        }
    }
    assert forall|x: int, y: int| 0 <= x < y < all.len() implies all[x] != all[y] by {
        assert(row_before(all[y], all[x]));
        lemma_row_before_asymmetric(all[x], all[x]);
    }
}

/// The articles listed for a request without a cursor, in cache order.
pub open spec fn listed_articles(v: StoreView, archived: bool, q: Option<Seq<char>>) -> Seq<ArticleView> {
    v.articles.filter(|r: ArticleView| row_listed(v, r, archived, q, None))
}

/// Every page of a chain before its last is full.
proof fn lemma_chain_full_pages(
    v: StoreView,
    archived: bool,
    q: Option<Seq<char>>,
    limit: nat,
    pages: Seq<Seq<ArticleView>>,
    m: nat,
)
    requires
        m < pages.len(),
        forall|i: int|
            0 <= i < pages.len() ==> is_page(
                v,
                archived,
                q,
                #[trigger] chain_cursor(v, archived, q, pages, i as nat),
                limit,
                pages[i],
            ),
        forall|i: int| 0 < i < pages.len() ==> #[trigger] chain_cursor(v, archived, q, pages, i as nat) is Some,
    ensures
        concat_pages(pages.take(m as int)).len() == m * limit,
    decreases m,
{
    if m > 0 {
        let j = (m - 1) as nat;
        lemma_chain_full_pages(v, archived, q, limit, pages, j);
        let t = pages.take(m as int);
        assert(t.drop_last() =~= pages.take(j as int));
        assert(t.last() == pages[j as int]);
        let c = chain_cursor(v, archived, q, pages, (j as int) as nat);
        let mi = m as int;
        assert(0 < mi < pages.len());
        assert(chain_cursor(v, archived, q, pages, mi as nat) is Some);
        assert(chain_cursor(v, archived, q, pages, m) == next_cursor_of(v, archived, q, c, pages[j as int]));
        assert(is_page(v, archived, q, c, limit, pages[j as int]));
        assert(has_more(v, archived, q, c, pages[j as int]));
        let k = choose|k: int|
            0 <= k < v.articles.len() && row_listed(v, #[trigger] v.articles[k], archived, q, c)
                && !pages[j as int].contains(v.articles[k]);
        assert(pages[j as int].len() == limit);
        assert(j * limit + limit == m * limit) by (nonlinear_arith)
            requires
                j + 1 == m,
        ;
        assert(concat_pages(t) == concat_pages(pages.take(j as int)) + pages[j as int]);
        assert(concat_pages(t).len() == j * limit + limit);
    } else {
        assert(pages.take(0).len() == 0);
        assert(concat_pages(pages.take(0)).len() == 0);
        assert(0 * limit == 0);
    }
}

/// Following the cursors from the first page takes as few calls as the
/// listed articles need: the pages hold exactly as many articles as are
/// listed, at most `limit` a page, and every page but the last is full, so
/// the number of calls is the larger of one and the listed count divided by
/// `limit`, rounded up.
pub proof fn law_following_cursors_takes_the_fewest_calls(
    v: StoreView,
    archived: bool,
    q: Option<Seq<char>>,
    limit: nat,
    pages: Seq<Seq<ArticleView>>,
)
    requires
        v.well_formed(),
        limit >= 1,
        pages.len() >= 1,
        forall|i: int|
            0 <= i < pages.len() ==> is_page(
                v,
                archived,
                q,
                #[trigger] chain_cursor(v, archived, q, pages, i as nat),
                limit,
                pages[i],
            ),
        forall|i: int| 0 < i < pages.len() ==> #[trigger] chain_cursor(v, archived, q, pages, i as nat) is Some,
        chain_cursor(v, archived, q, pages, pages.len()) is None,
    ensures
        concat_pages(pages).len() == listed_articles(v, archived, q).len(),
        concat_pages(pages).len() <= pages.len() * limit,
        pages.len() == 1 || (pages.len() - 1) * limit < concat_pages(pages).len(),
{
    let n = pages.len();
    let all = concat_pages(pages);
    law_following_cursors_lists_every_article_once(v, archived, q, limit, pages);
    lemma_chain_prefix(v, archived, q, limit, pages, n);
    assert(pages.take(n as int) =~= pages);
    assert(is_page(v, archived, q, None, n * limit, all));
    // Counting the listed articles.
    let pred = |r: ArticleView| row_listed(v, r, archived, q, None);
    let listed = v.articles.filter(pred);
    lemma_filter_subset(v.articles, pred);
    let key = |r: ArticleView| r.article_id;
    assert forall|i: int, j: int|
        0 <= i < v.articles.len() && 0 <= j < v.articles.len() && i != j implies key(v.articles[i])
        != key(v.articles[j]) by {
        assert(article_ids(v.articles)[i] == v.articles[i].article_id);
        assert(article_ids(v.articles)[j] == v.articles[j].article_id);
    }
    lemma_filter_unique_keys(v.articles, pred, key);
    assert(listed.no_duplicates()) by {
        assert forall|i: int, j: int|
            0 <= i < listed.len() && 0 <= j < listed.len() && i != j implies listed[i] != listed[j] by {
            assert(key(listed[i]) != key(listed[j]));
        }
    }
    assert(all.to_set() =~= listed.to_set()) by {
        assert forall|r: ArticleView| all.to_set().contains(r) implies listed.to_set().contains(r) by {
            let x = choose|x: int| 0 <= x < all.len() && all[x] == r;
            assert(v.articles.contains(all[x]));
            let k = choose|k: int| 0 <= k < v.articles.len() && v.articles[k] == r;
            v.articles.lemma_filter_contains(pred, k);
        }
        assert forall|r: ArticleView| listed.to_set().contains(r) implies all.to_set().contains(r) by {
            let x = choose|x: int| 0 <= x < listed.len() && listed[x] == r;
            assert(v.articles.contains(listed[x]));
            let k = choose|k: int| 0 <= k < v.articles.len() && v.articles[k] == r;
            assert(row_listed(v, v.articles[k], archived, q, None));
        }
    }
    all.unique_seq_to_set();
    listed.unique_seq_to_set();
    assert(listed_articles(v, archived, q) == listed);
    // Every page but the last is full, and the last is not empty.
    if n > 1 {
        let m = (n - 1) as nat;
        lemma_chain_full_pages(v, archived, q, limit, pages, m);
        assert(pages.drop_last() =~= pages.take(m as int));
        assert(all == concat_pages(pages.take(m as int)) + pages[m as int]);
        let j = (m - 1) as nat;
        let cj = chain_cursor(v, archived, q, pages, j);
        let cm = chain_cursor(v, archived, q, pages, m);
        assert(cm is Some);
        assert(cm == next_cursor_of(v, archived, q, cj, pages[j as int]));
        assert(is_page(v, archived, q, cj, limit, pages[j as int]));
        assert(is_page(v, archived, q, cm, limit, pages[m as int]));
        let k = choose|k: int|
            0 <= k < v.articles.len() && row_listed(v, #[trigger] v.articles[k], archived, q, cj)
                && !pages[j as int].contains(v.articles[k]);
        let a = v.articles[k];
        let pj = pages[j as int];
        assert(row_before(a, pj.last()));
        assert(row_listed(v, v.articles[k], archived, q, cm));
        if pages[m as int].len() == 0 {
            assert(!pages[m as int].contains(a));
        }
        assert(pages[m as int].len() >= 1);
    }
}

/// Two cached articles with the same identifier are the same article.
proof fn lemma_same_id_same_article(v: StoreView, a: ArticleView, b: ArticleView)
    requires
        v.well_formed(),
        v.articles.contains(a),
        v.articles.contains(b),
        a.article_id == b.article_id,
    ensures
        a == b,
{
    let i = choose|i: int| 0 <= i < v.articles.len() && v.articles[i] == a;
    let j = choose|j: int| 0 <= j < v.articles.len() && v.articles[j] == b;
    assert(article_ids(v.articles)[i] == a.article_id);
    assert(article_ids(v.articles)[j] == b.article_id);
}

/// Where two pages for the same request agree before index `x`, the
/// article at `x` of `b` is not older than the one at `x` of `a`.
proof fn lemma_page_entry_not_older(
    v: StoreView,
    archived: bool,
    q: Option<Seq<char>>,
    cursor: Option<ArticleCursorView>,
    limit: nat,
    a: Seq<ArticleView>,
    b: Seq<ArticleView>,
    x: int,
)
    requires
        is_page(v, archived, q, cursor, limit, a),
        is_page(v, archived, q, cursor, limit, b),
        0 <= x < a.len(),
        x < b.len(),
        forall|y: int| 0 <= y < x ==> a[y] == b[y],
    ensures
        !row_before(b[x], a[x]),
{
    let na = a[x];
    let nb = b[x];
    if row_before(nb, na) {
        assert(v.articles.contains(na));
        let k = choose|k: int| 0 <= k < v.articles.len() && v.articles[k] == na;
        assert(row_listed(v, v.articles[k], archived, q, cursor));
        if b.contains(na) {
            let y = choose|y: int| 0 <= y < b.len() && b[y] == na;
            if y < x {
                assert(a[y] == na);
                assert(row_before(a[x], a[y]));
                lemma_row_before_asymmetric(na, na);
            } else if y == x {
                lemma_row_before_asymmetric(na, na);
            } else {
                assert(row_before(b[y], b[x]));
                lemma_row_before_asymmetric(na, nb);
            }
        } else {
            assert(row_before(na, b.last()));
            if b.len() - 1 == x {
                lemma_row_before_asymmetric(na, nb);
            } else {
                assert(row_before(b[b.len() - 1], b[x]));
                lemma_row_before_transitive(na, b.last(), nb);
                lemma_row_before_asymmetric(na, nb);
            }
        }
    }
}

/// Two pages for the same request agree on their common length.
proof fn lemma_pages_agree(
    v: StoreView,
    archived: bool,
    q: Option<Seq<char>>,
    cursor: Option<ArticleCursorView>,
    limit: nat,
    a: Seq<ArticleView>,
    b: Seq<ArticleView>,
    x: int,
)
    requires
        v.well_formed(),
        is_page(v, archived, q, cursor, limit, a),
        is_page(v, archived, q, cursor, limit, b),
        0 <= x <= a.len(),
        x <= b.len(),
    ensures
        forall|y: int| 0 <= y < x ==> a[y] == b[y],
    decreases x,
{
    if x > 0 {
        lemma_pages_agree(v, archived, q, cursor, limit, a, b, x - 1);
        let y = x - 1;
        lemma_page_entry_not_older(v, archived, q, cursor, limit, a, b, y);
        lemma_page_entry_not_older(v, archived, q, cursor, limit, b, a, y);
        lemma_row_before_total(a[y], b[y]);
        assert(v.articles.contains(a[y]));
        assert(v.articles.contains(b[y]));
        lemma_same_id_same_article(v, a[y], b[y]);
    }
}

/// A page that agrees with a longer page on its whole length is not shorter than it.
proof fn lemma_page_not_shorter(
    v: StoreView,
    archived: bool,
    q: Option<Seq<char>>,
    cursor: Option<ArticleCursorView>,
    limit: nat,
    a: Seq<ArticleView>,
    b: Seq<ArticleView>,
)
    requires
        is_page(v, archived, q, cursor, limit, a),
        is_page(v, archived, q, cursor, limit, b),
        a.len() <= b.len(),
        forall|y: int| 0 <= y < a.len() ==> a[y] == b[y],
    ensures
        a.len() == b.len(),
{
    if a.len() < b.len() {
        let n = a.len() as int;
        let nb = b[n];
        assert(v.articles.contains(nb));
        let k = choose|k: int| 0 <= k < v.articles.len() && v.articles[k] == nb;
        assert(row_listed(v, v.articles[k], archived, q, cursor));
        if a.contains(nb) {
            let y = choose|y: int| 0 <= y < a.len() && a[y] == nb;
            assert(b[y] == nb);
            assert(row_before(b[n], b[y]));
            lemma_row_before_asymmetric(nb, nb);
        }
        assert(a.len() == limit);
    }
}

/// A page is fixed by its request: two pages for the same request, over the
/// same cache, are the same articles in the same order.
pub proof fn law_page_is_unique(
    v: StoreView,
    archived: bool,
    q: Option<Seq<char>>,
    cursor: Option<ArticleCursorView>,
    limit: nat,
    a: Seq<ArticleView>,
    b: Seq<ArticleView>,
)
    requires
        v.well_formed(),
        is_page(v, archived, q, cursor, limit, a),
        is_page(v, archived, q, cursor, limit, b),
    ensures
        a == b,
{
    if a.len() <= b.len() {
        lemma_pages_agree(v, archived, q, cursor, limit, a, b, a.len() as int);
        lemma_page_not_shorter(v, archived, q, cursor, limit, a, b);
    } else {
        lemma_pages_agree(v, archived, q, cursor, limit, b, a, b.len() as int);
        lemma_page_not_shorter(v, archived, q, cursor, limit, b, a);
    }
    assert(a =~= b);
}

/// Whitespace around the search text does not change the page, and a blank
/// search text is no search: the page for `s` is the page for its trimmed
/// text, and, when that is empty, the page without a search.
pub proof fn law_padded_query_gives_the_same_page(
    v: StoreView,
    archived: bool,
    s: Seq<char>,
    cursor: Option<ArticleCursorView>,
    limit: nat,
    a: Seq<ArticleView>,
    b: Seq<ArticleView>,
)
    requires
        v.well_formed(),
        is_page(v, archived, normalized_query(Some(s)), cursor, limit, a),
        is_page(v, archived, normalized_query(Some(trim(s))), cursor, limit, b),
    ensures
        a == b,
        trim(s).len() == 0 ==> is_page(v, archived, normalized_query(None), cursor, limit, a),
{
    lemma_trim_idempotent(s);
    assert(normalized_query(Some(s)) == normalized_query(Some(trim(s))));
    law_page_is_unique(v, archived, normalized_query(Some(s)), cursor, limit, a, b);
}

/// A source that cleaning accepts has a non-empty trimmed name, the type
/// `blog` or `youtube`, and a feed URL that parses with scheme `http` or `https`.
pub proof fn law_ready_sources_are_clean(s: FeedSourceView)
    ensures
        expected_plan(s) matches PlanSpec::Ready(c) ==> {
            &&& c.name == trim(s.name)
            &&& c.name.len() > 0
            &&& c.source_type == "blog"@ || c.source_type == "youtube"@
            &&& feed_url_problem(c.rss) is None
        },
        expected_plan(s) matches PlanSpec::Ready(c) ==> (c.source_type == "blog"@ ==> c.rss
            == trim(s.rss)),
{
    reveal_strlit("blog");
    reveal_strlit("youtube");
    match source_type_of(s.source_type) {
        Ok(t) => {
            assert(t == "blog"@ || t == "youtube"@);
            match expected_plan(s) {
                PlanSpec::Ready(c) => {
                    assert(c.source_type == t);
                    assert(feed_url_problem(c.rss) is None);
                },
                _ => {},
            }
        },
        Err(_) => {},
    }
}

/// A YouTube source completed from its channel page points at that channel's feed.
pub proof fn law_completed_youtube_source_is_channel_feed(name: Seq<char>, page: Seq<char>)
    ensures
        expected_youtube_source(name, page) matches Ok(c) ==> c.name == name && c.source_type
            == "youtube"@ && exists|id: Seq<char>| c.rss == youtube_channel_feed_url(id),
{
}

/// Resolving a YouTube input either keeps it as it is or gives the video
/// feed URL of a channel identifier.
pub proof fn law_youtube_resolution_keeps_or_builds_a_channel_feed(input: Seq<char>)
    ensures
        youtube_outcome(input) matches YoutubeOutcome::Feed(out) ==> (out == input
            || exists|id: Seq<char>| out == youtube_channel_feed_url(id)),
{
}

/// A channel's video feed URL resolves to itself, provided the URL parser
/// reads it as host `www.youtube.com`, path `/feeds/videos.xml` and query
/// `channel_id=<id>`; no contract here states what the parser reads.
pub proof fn law_channel_feed_url_resolves_to_itself(id: Seq<char>)
    ensures
        ({
            let u = youtube_channel_feed_url(id);
            (url_parse_result(u) matches Some(p) && p.host == Some("www.youtube.com"@) && p.path
                == "/feeds/videos.xml"@ && p.query == Some("channel_id="@ + id)) ==> youtube_outcome(u)
                == YoutubeOutcome::Feed(u)
        }),
{
    reveal_strlit("https://www.youtube.com/feeds/videos.xml?channel_id=");
    reveal_strlit("UC");
    reveal_strlit("www.youtube.com");
    reveal_strlit("youtube.com");
    reveal_strlit("channel_id=");
    let u = youtube_channel_feed_url(id);
    assert(u[0] == 'h');
    assert(!starts_with(u, "UC"@)) by {
        if starts_with(u, "UC"@) {
            assert(u.subrange(0, 2)[0] == 'U');
        }
    }
    let host = "www.youtube.com"@;
    assert(host.subrange(4, 15) =~= "youtube.com"@);
    assert(occurs_at(host, "youtube.com"@, host.len() - "youtube.com"@.len()));
    assert(ends_with(host, "youtube.com"@));
    let q = "channel_id="@ + id;
    assert(q.subrange(0, 11) =~= "channel_id="@);
    assert(occurs_at(q, "channel_id="@, 0));
    assert(contains_seq(q, "channel_id="@));
}

/// `%` matches every text.
proof fn lemma_percent_matches_all(t: Seq<char>)
    ensures
        like_match(seq!['%'], t),
    decreases t.len(),
{
    let p = seq!['%'];
    assert(p.drop_first() =~= Seq::<char>::empty());
    assert(p[0] == '%');
    if t.len() > 0 {
        lemma_percent_matches_all(t.drop_first());
        assert(like_match(p, t.drop_first()));
    } else {
        assert(like_match(p.drop_first(), t));
    }
}

/// A leading `%` may skip any prefix of the text.
proof fn lemma_percent_skips(p: Seq<char>, t: Seq<char>, i: int)
    requires
        0 <= i <= t.len(),
        like_match(p, t.skip(i)),
    ensures
        like_match(seq!['%'] + p, t),
    decreases i,
{
    let pp = seq!['%'] + p;
    assert(pp.drop_first() =~= p);
    if i == 0 {
        assert(t.skip(0) =~= t);
    } else {
        assert(t.drop_first().skip(i - 1) =~= t.skip(i));
        lemma_percent_skips(p, t.drop_first(), i - 1);
    }
}

/// A pattern without wildcards that matches the start of the text, followed
/// by `%`, matches the whole text.
proof fn lemma_literal_prefix(q: Seq<char>, t: Seq<char>)
    requires
        q.len() <= t.len(),
        forall|k: int| 0 <= k < q.len() ==> q[k] != '%' && q[k] != '_',
        forall|k: int| 0 <= k < q.len() ==> same_ignoring_ascii_case(q[k], t[k]),
    ensures
        like_match(q + seq!['%'], t),
    decreases q.len(),
{
    let p = q + seq!['%'];
    if q.len() == 0 {
        assert(p =~= seq!['%']);
        lemma_percent_matches_all(t);
    } else {
        assert(p[0] == q[0]);
        assert(p.drop_first() =~= q.drop_first() + seq!['%']);
        assert forall|k: int| 0 <= k < q.drop_first().len() implies same_ignoring_ascii_case(
            q.drop_first()[k],
            t.drop_first()[k],
        ) by {
            assert(q.drop_first()[k] == q[k + 1]);
            assert(t.drop_first()[k] == t[k + 1]);
        }
        lemma_literal_prefix(q.drop_first(), t.drop_first());
    }
}

/// Search finds what a text contains: when the query has no wildcard (`%`,
/// `_`) and occurs in the text, ignoring ASCII case, the text matches it.
pub proof fn law_search_finds_contained_text(text: Seq<char>, q: Seq<char>, i: int)
    requires
        0 <= i,
        i + q.len() <= text.len(),
        forall|k: int| 0 <= k < q.len() ==> q[k] != '%' && q[k] != '_',
        forall|k: int| 0 <= k < q.len() ==> same_ignoring_ascii_case(q[k], #[trigger] text[i + k]),
    ensures
        like_contains(text, q),
{
    let rest = text.skip(i);
    assert forall|k: int| 0 <= k < q.len() implies same_ignoring_ascii_case(q[k], rest[k]) by {
        assert(rest[k] == text[i + k]);
    }
    lemma_literal_prefix(q, rest);
    lemma_percent_skips(q + seq!['%'], text, i);
    assert(seq!['%'] + (q + seq!['%']) =~= seq!['%'] + q + seq!['%']);
}

/// Each entry of a page is the cached article it lists, shown field by
/// field: its identifier, its own URL as the link, its title, author,
/// description, publication text, teaser flag, source type and video.
pub proof fn law_page_shows_each_article_as_cached(
    v: StoreView,
    archived: bool,
    q: Option<Seq<char>>,
    cursor: Option<ArticleCursorView>,
    limit: nat,
    rows: Seq<ArticleView>,
)
    requires
        is_page(v, archived, q, cursor, limit, rows),
    ensures
        page_entries(rows).len() == rows.len(),
        forall|i: int|
            0 <= i < rows.len() ==> {
                let e = #[trigger] page_entries(rows)[i];
                &&& v.articles.contains(rows[i])
                &&& e.id == rows[i].article_id
                &&& e.link == rows[i].url
                &&& e.title == rows[i].title
                &&& e.author == rows[i].author
                &&& e.description == rows[i].description
                &&& e.pub_date == rows[i].published_at
                &&& e.is_summary == rows[i].is_summary
                &&& e.source_type == rows[i].source_type
                &&& e.video_id == rows[i].video_id
            },
{
}

/// Writing a fetched feed caches, for each entry without a tombstone that no
/// later entry of the feed repeats, an article carrying that entry's fields
/// unchanged, the feed's URL, and `now` as the time it was last seen.
pub proof fn law_written_articles_carry_their_entries(
    v: StoreView,
    feed: FetchedFeedView,
    now: i64,
    j: int,
)
    requires
        v.well_formed(),
        v.with_fetched_feed(feed, now) is Some,
        0 <= j < feed.entries.len(),
        !v.is_tombstoned(feed.entries[j].entry.id),
        forall|m: int| j < m < feed.entries.len() ==> feed.entries[m].entry.id != feed.entries[j].entry.id,
    ensures
        ({
            let after = (v.with_fetched_feed(feed, now)->0).0;
            let e = feed.entries[j];
            exists|k: int|
                0 <= k < after.articles.len() && {
                    let a = #[trigger] after.articles[k];
                    &&& a.article_id == e.entry.id
                    &&& a.url == e.entry.link
                    &&& a.title == e.entry.title
                    &&& a.author == e.entry.author
                    &&& a.description == e.entry.description
                    &&& a.published_at == e.entry.pub_date
                    &&& a.published_ts == e.published_ts
                    &&& a.is_summary == e.entry.is_summary
                    &&& a.source_type == e.entry.source_type
                    &&& a.video_id == e.entry.video_id
                    &&& a.feed_url == feed.source.rss
                    &&& a.last_seen_at == now
                }
        }),
{
    let all = feed.entries;
    let len = all.len() as int;
    assert(all.take(len) =~= all);
    lemma_first_write(v.articles, v.deleted, all, len, feed.source.rss, now);
    assert(last_with_id(all, j, len));
    let (r, n) = written_entries(v.articles, v.deleted, all, feed.source.rss, now)->0;
    assert(r.contains(entry_article(all[j], feed.source.rss, now)));
    let k = choose|k: int| 0 <= k < r.len() && r[k] == entry_article(all[j], feed.source.rss, now);
    let after = (v.with_fetched_feed(feed, now)->0).0;
    assert(after.articles == r);
    assert(after.articles[k] == entry_article(all[j], feed.source.rss, now));
}

/// The cached entry a parsed entry becomes: identified and linked by its
/// first link (else its identifier), titled `Untitled` when untitled,
/// described by its content (else its summary, else nothing), dated by its
/// publication time, and by its update time only when it has no publication
/// time, and at `now` when it has neither; authored and typed by its source.
pub proof fn law_cached_entry_takes_the_entry_fields(source: FeedSourceView, e: ParsedEntryView, now: i64)
    ensures
        ({
            let c = cached_entry_of(source, e, now);
            let link = match e.first_link {
                Some(l) => l,
                None => e.id,
            };
            &&& c.entry.link == link
            &&& c.entry.id == article_id_of(link)
            &&& c.entry.author == source.name
            &&& c.entry.source_type == source.source_type
            &&& c.entry.title == match e.title {
                Some(t) => t,
                None => "Untitled"@,
            }
            &&& c.entry.description == match e.content_body {
                Some(b) => b,
                None => match e.summary {
                    Some(t) => t,
                    None => Seq::<char>::empty(),
                },
            }
            &&& e.published matches Some(t) ==> c.entry.pub_date == t.rfc3339 && c.published_ts
                == t.unix_seconds
            &&& e.published is None ==> (e.updated matches Some(u) ==> c.entry.pub_date
                == u.rfc3339 && c.published_ts == u.unix_seconds)
            &&& (e.published is None && e.updated is None) ==> c.entry.pub_date.len() == 0
                && c.published_ts == now
            &&& source.source_type == "youtube"@ ==> !c.entry.is_summary
            &&& source.source_type != "youtube"@ ==> c.entry.video_id is None
            &&& source.source_type != "youtube"@ ==> c.entry.is_summary == summary_like(
                c.entry.description,
            )
            &&& source.source_type == "youtube"@ ==> c.entry.video_id == youtube_video_id(link)
        }),
{
}

/// Every cached entry of a feed response comes, in order, from one of its
/// first ten parsed entries whose trimmed link is not empty.
pub proof fn law_response_entries_come_from_the_first_ten(
    source: FeedSourceView,
    parsed: Seq<ParsedEntryView>,
    now: i64,
)
    ensures
        ({
            let out = response_entries(source, parsed, now);
            forall|i: int|
                0 <= i < out.len() ==> exists|j: int|
                    0 <= j < parsed.len() && j < 10 && trim(
                        match parsed[j].first_link {
                            Some(l) => l,
                            None => parsed[j].id,
                        },
                    ).len() > 0 && #[trigger] out[i] == cached_entry_of(source, parsed[j], now)
        }),
{
    let taken = if parsed.len() > ENTRIES_PER_FEED {
        parsed.take(ENTRIES_PER_FEED as int)
    } else {
        parsed
    };
    lemma_kept_come_from(source, taken, now);
    let out = response_entries(source, parsed, now);
    assert forall|i: int| 0 <= i < out.len() implies exists|j: int|
        0 <= j < parsed.len() && j < 10 && trim(
            match parsed[j].first_link {
                Some(l) => l,
                None => parsed[j].id,
            },
        ).len() > 0 && #[trigger] out[i] == cached_entry_of(source, parsed[j], now) by {
        let j = choose|j: int|
            0 <= j < taken.len() && trim(entry_link(taken[j])).len() > 0 && out[i] == cached_entry_of(
                source,
                taken[j],
                now,
            );
        assert(taken[j] == parsed[j]);
    }
}

/// Each kept entry is the cached entry of some parsed entry with a link.
proof fn lemma_kept_come_from(source: FeedSourceView, parsed: Seq<ParsedEntryView>, now: i64)
    ensures
        forall|i: int|
            0 <= i < kept_entries(source, parsed, now).len() ==> exists|j: int|
                0 <= j < parsed.len() && trim(entry_link(parsed[j])).len() > 0
                    && #[trigger] kept_entries(source, parsed, now)[i] == cached_entry_of(
                    source,
                    parsed[j],
                    now,
                ),
    decreases parsed.len(),
{
    if parsed.len() > 0 {
        let rest = parsed.drop_last();
        lemma_kept_come_from(source, rest, now);
        let out = kept_entries(source, parsed, now);
        let prev = kept_entries(source, rest, now);
        assert forall|i: int| 0 <= i < out.len() implies exists|j: int|
            0 <= j < parsed.len() && trim(entry_link(parsed[j])).len() > 0 && #[trigger] out[i]
                == cached_entry_of(source, parsed[j], now) by {
            if i < prev.len() {
                assert(out[i] == prev[i]);
                let j = choose|j: int|
                    0 <= j < rest.len() && trim(entry_link(rest[j])).len() > 0 && prev[i]
                        == cached_entry_of(source, rest[j], now);
                assert(rest[j] == parsed[j]);
            } else {
                assert(out[i] == cached_entry_of(source, parsed.last(), now));
                assert(parsed[parsed.len() - 1] == parsed.last());
            }
        }
    }
}

/// How many entries the updated feeds among `outcomes` bring that have no tombstone.
pub open spec fn untombstoned_total(deleted: Seq<TombstoneView>, outcomes: Seq<OutcomeView>) -> nat
    decreases outcomes.len(),
{
    if outcomes.len() == 0 {
        0
    } else {
        untombstoned_total(deleted, outcomes.drop_last()) + match outcomes.last() {
            OutcomeView::Updated(f) => untombstoned_count(deleted, f.entries),
            _ => 0,
        }
    }
}

/// How many of `outcomes` are feeds that were not modified.
pub open spec fn not_modified_count(outcomes: Seq<OutcomeView>) -> nat
    decreases outcomes.len(),
{
    if outcomes.len() == 0 {
        0
    } else {
        not_modified_count(outcomes.drop_last()) + if outcomes.last() is NotModified {
            1nat
        } else {
            0nat
        }
    }
}

/// The names of the failed feeds among `outcomes`, in order.
pub open spec fn failed_names(outcomes: Seq<OutcomeView>) -> Seq<Seq<char>>
    decreases outcomes.len(),
{
    if outcomes.len() == 0 {
        Seq::empty()
    } else {
        let rest = failed_names(outcomes.drop_last());
        match outcomes.last() {
            OutcomeView::Failed(src, _) => rest.push(src.name),
            _ => rest,
        }
    }
}

/// What a refresh reports: the articles it wrote are the entries of the
/// updated feeds that have no tombstone (a deleted article's entry is
/// skipped, not counted); the unchanged feeds are those not modified; the
/// failed feeds are named in order. Deletion tombstones stay as they were.
pub proof fn law_refresh_counts_what_it_writes(v: StoreView, outcomes: Seq<OutcomeView>, now: i64)
    requires
        v.well_formed(),
        recorded_outcomes(v, outcomes, now) is Some,
    ensures
        ({
            let t = recorded_outcomes(v, outcomes, now)->0;
            &&& t.updated == untombstoned_total(v.deleted, outcomes)
            &&& t.unchanged == not_modified_count(outcomes)
            &&& t.failed == failed_names(outcomes)
            &&& t.store.deleted == v.deleted
            &&& articles_keys_unique(t.store.articles)
        }),
    decreases outcomes.len(),
{
    if outcomes.len() > 0 {
        let rest = outcomes.drop_last();
        law_refresh_counts_what_it_writes(v, rest, now);
        let t0 = recorded_outcomes(v, rest, now)->0;
        match outcomes.last() {
            OutcomeView::Updated(f) => {
                let all = f.entries;
                let len = all.len() as int;
                assert(all.take(len) =~= all);
                lemma_first_write(t0.store.articles, t0.store.deleted, all, len, f.source.rss, now);
            },
            _ => {},
        }
    }
}

/// A character that does not occur from `from` on is not found from there.
proof fn lemma_index_of_from_absent(s: Seq<char>, c: char, from: int)
    requires
        0 <= from,
        forall|i: int| from <= i < s.len() ==> s[i] != c,
    ensures
        index_of_from(s, c, from) is None,
    decreases s.len() - from,
{
    if from < s.len() {
        lemma_index_of_from_absent(s, c, from + 1);
    }
}

/// The path `/channel/<id>`, for an identifier without `/`, names channel `<id>`.
proof fn lemma_channel_path(id: Seq<char>)
    requires
        !id.contains('/'),
    ensures
        channel_in_path("/channel/"@ + id) == Some(id),
{
    reveal_strlit("/channel/");
    reveal_strlit("channel");
    let p = "/channel/"@ + id;
    assert(p[0] == '/' && p[1] == 'c' && p[2] == 'h' && p[3] == 'a' && p[4] == 'n' && p[5] == 'n'
        && p[6] == 'e' && p[7] == 'l' && p[8] == '/');
    assert(index_of_from(p, '/', 7) == index_of_from(p, '/', 8));
    assert(index_of_from(p, '/', 6) == index_of_from(p, '/', 7));
    assert(index_of_from(p, '/', 5) == index_of_from(p, '/', 6));
    assert(index_of_from(p, '/', 4) == index_of_from(p, '/', 5));
    assert(index_of_from(p, '/', 3) == index_of_from(p, '/', 4));
    assert(index_of_from(p, '/', 2) == index_of_from(p, '/', 3));
    assert(index_of_from(p, '/', 1) == index_of_from(p, '/', 2));
    assert(index_of_from(p, '/', 1) == Some(8int));
    assert(p.subrange(1, 8) =~= "channel"@);
    assert forall|i: int| 9 <= i < p.len() implies p[i] != '/' by {
        assert(p[i] == id[i - 9]);
        if p[i] == '/' {
            assert(id.contains('/'));
        }
    }
    lemma_index_of_from_absent(p, '/', 9);
    assert(p.subrange(9, p.len() as int) =~= id);
}

/// A path that names a channel starts with `/channel/`.
proof fn lemma_channel_path_prefix(path: Seq<char>)
    requires
        channel_in_path(path) is Some,
    ensures
        starts_with(path, "/channel/"@),
{
    reveal_strlit("/channel/");
    reveal_strlit("channel");
    let f = index_of_from(path, '/', 1);
    if f is Some {
        lemma_index_of_from_bounds(path, '/', 1);
    }
    let first_end = match f {
        Some(i) => i,
        None => path.len() as int,
    };
    assert(path.subrange(1, first_end) == "channel"@);
    assert(first_end == 8);
    assert(f is Some);
    assert(path[8] == '/');
    assert(path.subrange(0, 9) =~= "/channel/"@) by {
        assert forall|i: int| 1 <= i < 8 implies path[i] == "channel"@[i - 1] by {
            assert(path.subrange(1, first_end)[i - 1] == path[i]);
        }
    }
}

/// A URL on any host ending in `youtube.com` whose path is `/channel/<id>`
/// resolves to that channel's video feed.
pub proof fn law_youtube_channel_url_resolves_to_its_feed(input: Seq<char>, id: Seq<char>)
    ensures
        ({
            let p = url_parse_result(input)->0;
            (!(starts_with(input, "UC"@) && !contains_seq(input, "/"@)) && url_parse_result(input) is Some
                && p.host is Some && ends_with(p.host->0, "youtube.com"@) && p.path == "/channel/"@ + id
                && !id.contains('/')) ==> youtube_outcome(input) == YoutubeOutcome::Feed(
                "https://www.youtube.com/feeds/videos.xml?channel_id="@ + id,
            )
        }),
{
    reveal_strlit("/channel/");
    reveal_strlit("/feeds/videos.xml");
    if !(starts_with(input, "UC"@) && !contains_seq(input, "/"@)) && url_parse_result(input) is Some {
        let p = url_parse_result(input)->0;
        if p.host is Some && ends_with(p.host->0, "youtube.com"@) && p.path == "/channel/"@ + id
            && !id.contains('/') {
            lemma_channel_path(id);
            assert(p.path[1] == 'c');
            assert("/feeds/videos.xml"@[1] == 'f');
            assert(p.path != "/feeds/videos.xml"@);
        }
    }
}

/// A URL on a YouTube host (one ending in `youtube.com`, or `youtu.be`) that
/// is neither a channel feed nor a `/channel/` path must be looked up.
pub proof fn law_other_youtube_urls_are_looked_up(input: Seq<char>)
    ensures
        ({
            let p = url_parse_result(input)->0;
            (!(starts_with(input, "UC"@) && !contains_seq(input, "/"@)) && url_parse_result(input) is Some
                && p.host is Some && (ends_with(p.host->0, "youtube.com"@) || p.host->0 == "youtu.be"@)
                && p.path != "/feeds/videos.xml"@ && !starts_with(p.path, "/channel/"@))
                ==> youtube_outcome(input) == YoutubeOutcome::LookUpPage
        }),
{
    if !(starts_with(input, "UC"@) && !contains_seq(input, "/"@)) && url_parse_result(input) is Some {
        let p = url_parse_result(input)->0;
        if channel_in_path(p.path) is Some {
            lemma_channel_path_prefix(p.path);
        }
    }
}

/// An input is kept as it is only when it does not name a YouTube host, or
/// it is already a channel's video feed URL.
pub proof fn law_youtube_inputs_are_kept_only_off_youtube(input: Seq<char>)
    ensures
        ({
            let p = url_parse_result(input)->0;
            let h = match p.host {
                Some(h) => h,
                None => Seq::<char>::empty(),
            };
            youtube_outcome(input) == YoutubeOutcome::Feed(input) ==> {
                ||| url_parse_result(input) is Some && !(ends_with(h, "youtube.com"@) || h == "youtu.be"@)
                ||| url_parse_result(input) is Some && p.path == "/feeds/videos.xml"@ && p.query is Some
                    && contains_seq(p.query->0, "channel_id="@)
                ||| exists|id: Seq<char>| input == "https://www.youtube.com/feeds/videos.xml?channel_id="@ + id
            }
        }),
{
    reveal_strlit("channel_id=");
    if youtube_outcome(input) == YoutubeOutcome::Feed(input) {
        if starts_with(input, "UC"@) && !contains_seq(input, "/"@) {
            assert(input == youtube_channel_feed_url(input));
        } else {
            let p = url_parse_result(input)->0;
            match channel_in_path(p.path) {
                Some(id) => {
                    let h = match p.host {
                        Some(h) => h,
                        None => Seq::<char>::empty(),
                    };
                    if ends_with(h, "youtube.com"@) || h == "youtu.be"@ {
                        let q = match p.query {
                            Some(q) => q,
                            None => Seq::<char>::empty(),
                        };
                        if !(p.path == "/feeds/videos.xml"@ && contains_seq(q, "channel_id="@)) {
                            assert(input == youtube_channel_feed_url(id));
                        } else if p.query is None {
                            assert(!occurs_at(q, "channel_id="@, 0));
                        }
                    }
                },
                None => {},
            }
        }
    }
}

/// Archiving records the entry as it was given: an archive row keyed by the
/// identifier of its link, holding the trimmed link, the title, author and
/// publication text given, the source type given (`blog` when none), and
/// `now` as the time it was archived.
pub proof fn law_archiving_records_the_entry(v: StoreView, entry: ArchiveEntryView, now: i64)
    requires
        upsert_archived(v.archived, archive_row(entry, now)) is Some,
    ensures
        ({
            let rows = upsert_archived(v.archived, archive_row(entry, now))->0;
            exists|k: int|
                0 <= k < rows.len() && {
                    let r = #[trigger] rows[k];
                    &&& r.article_id == article_id_of(entry.link)
                    &&& r.url == trim(entry.link)
                    &&& r.title == entry.title
                    &&& r.author == entry.author
                    &&& r.published_at == entry.pub_date
                    &&& r.archived_at == now
                    &&& r.source_type == Some(
                        match entry.source_type {
                            Some(t) => t,
                            None => "blog"@,
                        },
                    )
                }
        }),
{
    let row = archive_row(entry, now);
    let rows = upsert_archived(v.archived, row)->0;
    lemma_key_index(archived_ids(v.archived), row.article_id);
    law_article_id_ignores_surrounding_whitespace(entry.link);
    match key_index(archived_ids(v.archived), row.article_id) {
        Some(i) => {
            assert(rows[i] == row);
        },
        None => {
            assert(rows[v.archived.len() as int] == row);
        },
    }
}

} // verus!
