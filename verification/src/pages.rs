//! Date-ordered pages of the feed and of the archive, newest first, with
//! search and a cursor to continue from.

use vstd::prelude::*;
use crate::like::{like_contains, like_contains_str};
use crate::model::{
    ArticleCursor, ArticleCursorView, ArticlePage, FeedEntry, FeedEntryView, cursor_view,
    entries_view, clone_opt,
};
use crate::store::{
    ArticleStore, ArticleView, StoreView, Article, article_ids, archived_ids, tombstone_ids,
    articles_view, archived_view, tombstones_view, find_archived, find_tombstone, lemma_key_index,
};
use crate::text::{trim, trimmed, chars_of, seq_lt, chars_lt, lemma_seq_lt_asymmetric,
    lemma_seq_lt_transitive, lemma_seq_lt_total};
use crate::urls::opt_view;

verus! {

/// `(ts_a, id_a)` comes before `(ts_b, id_b)` in time order: an earlier
/// publication time, or the same time and an identifier earlier in code-point order.
pub open spec fn key_before(ts_a: i64, id_a: Seq<char>, ts_b: i64, id_b: Seq<char>) -> bool {
    ts_a < ts_b || (ts_a == ts_b && seq_lt(id_a, id_b))
}

/// Article `a` comes before article `b` in time order.
pub open spec fn row_before(a: ArticleView, b: ArticleView) -> bool {
    key_before(a.published_ts, a.article_id, b.published_ts, b.article_id)
}

/// The search text that applies: the trimmed query, when it is not empty.
pub open spec fn normalized_query(q: Option<Seq<char>>) -> Option<Seq<char>> {
    match q {
        Some(s) => if trim(s).len() > 0 {
            Some(trim(s))
        } else {
            None
        },
        None => None,
    }
}

/// The article matches the search: its title, author or description matches `%query%`.
pub open spec fn matches_query(r: ArticleView, q: Option<Seq<char>>) -> bool {
    match q {
        None => true,
        Some(s) => like_contains(r.title, s) || like_contains(r.author, s) || like_contains(
            r.description,
            s,
        ),
    }
}

/// The article belongs on the requested list: it has no tombstone, it is in
/// the archive exactly when the archive is asked for, it matches the search,
/// and it comes before the cursor.
pub open spec fn row_listed(
    v: StoreView,
    r: ArticleView,
    archived: bool,
    q: Option<Seq<char>>,
    cursor: Option<ArticleCursorView>,
) -> bool {
    &&& !v.is_tombstoned(r.article_id)
    &&& v.is_archived(r.article_id) == archived
    &&& matches_query(r, q)
    &&& match cursor {
        None => true,
        Some(c) => key_before(r.published_ts, r.article_id, c.published_ts, c.article_id),
    }
}

/// `rows` is the page of at most `limit` listed articles that comes first in
/// newest-first order: listed articles of the cache, newest first, such
/// that every listed article not on the page is older than all of them, and
/// the page is short only when no listed article is left out.
pub open spec fn is_page(
    v: StoreView,
    archived: bool,
    q: Option<Seq<char>>,
    cursor: Option<ArticleCursorView>,
    limit: nat,
    rows: Seq<ArticleView>,
) -> bool {
    &&& rows.len() <= limit
    &&& forall|x: int|
        0 <= x < rows.len() ==> v.articles.contains(#[trigger] rows[x]) && row_listed(
            v,
            rows[x],
            archived,
            q,
            cursor,
        )
    &&& forall|x: int, y: int| 0 <= x < y < rows.len() ==> row_before(rows[y], rows[x])
    &&& forall|k: int|
        0 <= k < v.articles.len() && row_listed(v, #[trigger] v.articles[k], archived, q, cursor)
            && !rows.contains(v.articles[k]) ==> rows.len() == limit && (rows.len() > 0
            ==> row_before(v.articles[k], rows.last()))
}

/// Some listed article is not on the page.
pub open spec fn has_more(
    v: StoreView,
    archived: bool,
    q: Option<Seq<char>>,
    cursor: Option<ArticleCursorView>,
    rows: Seq<ArticleView>,
) -> bool {
    exists|k: int|
        0 <= k < v.articles.len() && row_listed(v, #[trigger] v.articles[k], archived, q, cursor)
            && !rows.contains(v.articles[k])
}

/// Where the next page starts: after the page's last article, when listed articles remain.
pub open spec fn next_cursor_of(
    v: StoreView,
    archived: bool,
    q: Option<Seq<char>>,
    cursor: Option<ArticleCursorView>,
    rows: Seq<ArticleView>,
) -> Option<ArticleCursorView> {
    if rows.len() > 0 && has_more(v, archived, q, cursor, rows) {
        Some(ArticleCursorView { published_ts: rows.last().published_ts, article_id: rows.last().article_id })
    } else {
        None
    }
}

/// How a cached article is shown.
pub open spec fn article_entry(r: ArticleView) -> FeedEntryView {
    FeedEntryView {
        id: r.article_id,
        author: r.author,
        title: r.title,
        link: r.url,
        description: r.description,
        pub_date: r.published_at,
        is_summary: r.is_summary,
        source_type: r.source_type,
        video_id: r.video_id,
    }
}

/// The entries shown for a list of articles.
pub open spec fn page_entries(rows: Seq<ArticleView>) -> Seq<FeedEntryView> {
    rows.map_values(|a: ArticleView| article_entry(a))
}

/// Time order never holds both ways, nor from an article to itself.
pub proof fn lemma_row_before_asymmetric(a: ArticleView, b: ArticleView)
    ensures
        !(row_before(a, b) && row_before(b, a)),
        !row_before(a, a),
{
    lemma_seq_lt_asymmetric(a.article_id, b.article_id);
}

/// Time order is transitive.
pub proof fn lemma_row_before_transitive(a: ArticleView, b: ArticleView, c: ArticleView)
    requires
        row_before(a, b),
        row_before(b, c),
    ensures
        row_before(a, c),
{
    if a.published_ts == b.published_ts && b.published_ts == c.published_ts {
        lemma_seq_lt_transitive(a.article_id, b.article_id, c.article_id);
    }
}

/// Articles that neither precede the other have the same identifier.
pub proof fn lemma_row_before_total(a: ArticleView, b: ArticleView)
    requires
        !row_before(a, b),
        !row_before(b, a),
    ensures
        a.article_id == b.article_id,
{
    lemma_seq_lt_total(a.article_id, b.article_id);
}

/// Whether `(ts_a, id_a)` comes before `(ts_b, id_b)` in time order.
fn key_less(ts_a: i64, id_a: &Vec<char>, ts_b: i64, id_b: &Vec<char>) -> (r: bool)
    ensures
        r == key_before(ts_a, id_a@, ts_b, id_b@),
{
    ts_a < ts_b || (ts_a == ts_b && chars_lt(id_a, id_b))
}

/// The search text that applies, as characters.
pub fn normalize_query(query: &Option<String>) -> (r: Option<Vec<char>>)
    ensures
        match r {
            Some(v) => normalized_query(opt_view(*query)) == Some(v@),
            None => normalized_query(opt_view(*query)) is None,
        },
{
    match query {
        Some(q) => {
            let t = trimmed(q.as_str());
            if t.as_str().is_empty() {
                None
            } else {
                Some(chars_of(t.as_str()))
            }
        },
        None => None,
    }
}

/// Whether an article matches the search.
fn query_matches(a: &Article, q: &Option<Vec<char>>) -> (r: bool)
    ensures
        r == matches_query(a@, match q {
            Some(v) => Some(v@),
            None => None,
        }),
{
    match q {
        None => true,
        Some(s) => like_contains_str(a.title.as_str(), s) || like_contains_str(a.author.as_str(), s)
            || like_contains_str(a.description.as_str(), s),
    }
}

/// The characters of an optional character vector.
pub open spec fn opt_chars_view(q: Option<Vec<char>>) -> Option<Seq<char>> {
    match q {
        Some(v) => Some(v@),
        None => None,
    }
}

/// Article `k` comes before article `bound`, if there is a bound.
pub open spec fn below_bound(arts: Seq<Article>, k: int, bound: Option<usize>) -> bool {
    match bound {
        None => true,
        Some(l) => row_before(arts[k]@, arts[l as int]@),
    }
}

/// Among the listed articles (flags `listed`) that come before article
/// `bound` (all of them when there is no bound), the newest one.
fn newest_below(
    arts: &Vec<Article>,
    ids: &Vec<Vec<char>>,
    listed: &Vec<bool>,
    bound: Option<usize>,
) -> (r: Option<usize>)
    requires
        ids.len() == arts.len(),
        listed.len() == arts.len(),
        forall|k: int| 0 <= k < arts.len() ==> (#[trigger] ids@[k])@ == arts@[k].article_id@,
        bound matches Some(b) ==> b < arts.len(),
    ensures
        r matches Some(b) ==> b < arts.len() && listed@[b as int] && below_bound(arts@, b as int, bound)
            && forall|k: int|
            0 <= k < arts.len() && listed@[k] && #[trigger] below_bound(arts@, k, bound) ==> !row_before(
                arts@[b as int]@,
                arts@[k]@,
            ),
        r is None ==> forall|k: int|
            0 <= k < arts.len() && listed@[k] ==> !#[trigger] below_bound(arts@, k, bound),
{
    let mut best: Option<usize> = None;
    let mut k: usize = 0;
    while k < arts.len()
        invariant
            k <= arts.len(),
            ids.len() == arts.len(),
            listed.len() == arts.len(),
            forall|m: int| 0 <= m < arts.len() ==> (#[trigger] ids@[m])@ == arts@[m].article_id@,
            bound matches Some(b) ==> b < arts.len(),
            best matches Some(b) ==> b < k && listed@[b as int] && below_bound(arts@, b as int, bound)
                && forall|m: int|
                0 <= m < k && listed@[m] && #[trigger] below_bound(arts@, m, bound) ==> !row_before(
                    arts@[b as int]@,
                    arts@[m]@,
                ),
            best is None ==> forall|m: int|
                0 <= m < k && listed@[m] ==> !#[trigger] below_bound(arts@, m, bound),
        decreases arts.len() - k,
    {
        if listed[k] {
            let below = match bound {
                None => true,
                Some(l) => key_less(arts[k].published_ts, &ids[k], arts[l].published_ts, &ids[l]),
            };
            assert(below == below_bound(arts@, k as int, bound));
            if below {
                match best {
                    None => {
                        best = Some(k);
                        proof {
                            lemma_row_before_asymmetric(arts@[k as int]@, arts@[k as int]@);
                        }
                    },
                    Some(b) => {
                        if key_less(arts[b].published_ts, &ids[b], arts[k].published_ts, &ids[k]) {
                            proof {
                                assert forall|m: int|
                                    0 <= m < k + 1 && listed@[m] && #[trigger] below_bound(
                                        arts@,
                                        m,
                                        bound,
                                    ) implies !row_before(arts@[k as int]@, arts@[m]@) by {
                                    if m < k {
                                        if row_before(arts@[k as int]@, arts@[m]@) {
                                            lemma_row_before_transitive(
                                                arts@[b as int]@,
                                                arts@[k as int]@,
                                                arts@[m]@,
                                            );
                                        }
                                    } else {
                                        lemma_row_before_asymmetric(
                                            arts@[k as int]@,
                                            arts@[k as int]@,
                                        );
                                    }
                                }
                            }
                            best = Some(k);
                        }
                    },
                }
            }
        }
        k = k + 1;
    }
    best
}

/// How many articles a page request asks for: 20 unless given, and never
/// fewer than 1 nor more than 200.
pub open spec fn requested_limit(limit: Option<u32>) -> int {
    match limit {
        None => 20,
        Some(l) => if l < 1 {
            1
        } else if l > 200 {
            200
        } else {
            l as int
        },
    }
}

/// The page size a request asks for.
pub fn page_limit(limit: Option<u32>) -> (r: usize)
    ensures
        r == requested_limit(limit),
        1 <= r <= 200,
{
    let l: u32 = match limit {
        Some(l) => l,
        None => 20,
    };
    if l < 1 {
        1
    } else if l > 200 {
        200
    } else {
        l as usize
    }
}

/// The articles at the given indices.
pub open spec fn rows_at(arts: Seq<ArticleView>, picked: Seq<usize>) -> Seq<ArticleView> {
    picked.map_values(|i: usize| arts[i as int])
}

/// With unique identifiers, an article is among the picked ones exactly when its index is.
proof fn lemma_rows_contains(arts: Seq<ArticleView>, picked: Seq<usize>, k: int)
    requires
        article_ids(arts).no_duplicates(),
        0 <= k < arts.len(),
        arts.len() <= usize::MAX,
        forall|x: int| 0 <= x < picked.len() ==> picked[x] < arts.len(),
    ensures
        rows_at(arts, picked).contains(arts[k]) <==> picked.contains(k as usize),
{
    let rows = rows_at(arts, picked);
    if rows.contains(arts[k]) {
        let x = choose|x: int| 0 <= x < rows.len() && rows[x] == arts[k];
        let i = picked[x] as int;
        assert(article_ids(arts)[i] == arts[i].article_id);
        assert(article_ids(arts)[k] == arts[k].article_id);
        assert(i == k);
        assert(picked[x] == k as usize);
    }
    if picked.contains(k as usize) {
        let x = choose|x: int| 0 <= x < picked.len() && picked[x] == k as usize;
        assert(picked[x] as int == k);
        assert(rows[x] == arts[k]);
    }
}

impl ArticleStore {
    /// One page of the feed (`archived == false`) or of the archive, newest
    /// first: at most `limit` articles without a tombstone that match the
    /// trimmed search text (when not empty) in title, author or description
    /// and come before `cursor`, and the cursor of the next page when more remain.
    pub fn read_articles_page(
        &self,
        archived: bool,
        cursor: &Option<ArticleCursor>,
        query: &Option<String>,
        limit: usize,
    ) -> (r: ArticlePage)
        requires
            self@.well_formed(),
        ensures
            exists|rows: Seq<ArticleView>|
                is_page(
                    self@,
                    archived,
                    normalized_query(opt_view(*query)),
                    cursor_view(*cursor),
                    limit as nat,
                    rows,
                ) && entries_view(r.entries@) == page_entries(rows) && cursor_view(r.next_cursor)
                    == next_cursor_of(
                    self@,
                    archived,
                    normalized_query(opt_view(*query)),
                    cursor_view(*cursor),
                    rows,
                ),
    {
        let ghost v = self@;
        let ghost nq = normalized_query(opt_view(*query));
        let ghost cv = cursor_view(*cursor);
        let arts = self.articles();
        let archive = self.archived();
        let tombs = self.tombstones();
        let q = normalize_query(query);
        let cur: Option<(i64, Vec<char>)> = match cursor {
            Some(c) => Some((c.published_ts, chars_of(c.article_id.as_str()))),
            None => None,
        };
        let n = arts.len();
        let mut ids: Vec<Vec<char>> = Vec::new();
        let mut listed: Vec<bool> = Vec::new();
        let mut k: usize = 0;
        while k < n
            invariant
                v == self@,
                v.well_formed(),
                n == arts.len(),
                articles_view(arts@) == v.articles,
                archived_view(archive@) == v.archived,
                tombstones_view(tombs@) == v.deleted,
                opt_chars_view(q) == nq,
                match cur {
                    Some((ts, cid)) => cv matches Some(c) && c.published_ts == ts && c.article_id
                        == cid@,
                    None => cv is None,
                },
                k <= n,
                ids.len() == k,
                listed.len() == k,
                forall|m: int| 0 <= m < k ==> (#[trigger] ids@[m])@ == arts@[m].article_id@,
                forall|m: int|
                    0 <= m < k ==> #[trigger] listed@[m] == row_listed(
                        v,
                        v.articles[m],
                        archived,
                        nq,
                        cv,
                    ),
            decreases n - k,
        {
            let a = &arts[k];
            assert(v.articles[k as int] == a@);
            let idc = chars_of(a.article_id.as_str());
            proof {
                lemma_key_index(tombstone_ids(v.deleted), a.article_id@);
                lemma_key_index(archived_ids(v.archived), a.article_id@);
            }
            let dead = find_tombstone(tombs, &a.article_id).is_some();
            let in_archive = find_archived(archive, &a.article_id).is_some();
            let before_cursor = match &cur {
                None => true,
                Some((ts, cid)) => key_less(a.published_ts, &idc, *ts, cid),
            };
            let ok = !dead && in_archive == archived && before_cursor && query_matches(a, &q);
            assert(ok == row_listed(v, v.articles[k as int], archived, nq, cv));
            ids.push(idc);
            listed.push(ok);
            k = k + 1;
        }
        let mut picked: Vec<usize> = Vec::new();
        let mut done = false;
        while !done && picked.len() < limit
            invariant
                v == self@,
                v.well_formed(),
                n == arts.len(),
                articles_view(arts@) == v.articles,
                ids.len() == n,
                listed.len() == n,
                forall|m: int| 0 <= m < n ==> (#[trigger] ids@[m])@ == arts@[m].article_id@,
                forall|m: int|
                    0 <= m < n ==> #[trigger] listed@[m] == row_listed(
                        v,
                        v.articles[m],
                        archived,
                        nq,
                        cv,
                    ),
                picked.len() <= limit,
                forall|x: int|
                    0 <= x < picked.len() ==> #[trigger] picked@[x] < n && listed@[picked@[x] as int],
                forall|x: int, y: int|
                    0 <= x < y < picked.len() ==> row_before(
                        v.articles[#[trigger] picked@[y] as int],
                        v.articles[#[trigger] picked@[x] as int],
                    ),
                picked.len() > 0 ==> forall|m: int|
                    0 <= m < n && listed@[m] && !row_before(
                        #[trigger] v.articles[m],
                        v.articles[picked@.last() as int],
                    ) ==> picked@.contains(m as usize),
                done ==> forall|m: int| 0 <= m < n && #[trigger] listed@[m] ==> picked@.contains(m as usize),
            decreases limit - picked.len(), if done {
                0int
            } else {
                1int
            },
        {
            let bound = if picked.len() == 0 {
                None
            } else {
                Some(picked[picked.len() - 1])
            };
            match newest_below(arts, &ids, &listed, bound) {
                None => {
                    proof {
                        assert forall|m: int| 0 <= m < n && #[trigger] listed@[m] implies picked@.contains(
                            m as usize,
                        ) by {
                            assert(!below_bound(arts@, m, bound));
                            assert(v.articles[m] == arts@[m]@);
                        }
                    }
                    done = true;
                },
                Some(b) => {
                    let ghost old_picked = picked@;
                    picked.push(b);
                    proof {
                        assert(v.articles[b as int] == arts@[b as int]@);
                        assert forall|x: int, y: int|
                            0 <= x < y < picked.len() implies row_before(
                            v.articles[#[trigger] picked@[y] as int],
                            v.articles[#[trigger] picked@[x] as int],
                        ) by {
                            if y == picked.len() - 1 && old_picked.len() > 0 {
                                let l = old_picked.last();
                                assert(v.articles[l as int] == arts@[l as int]@);
                                if x < old_picked.len() - 1 {
                                    lemma_row_before_transitive(
                                        v.articles[b as int],
                                        v.articles[l as int],
                                        v.articles[old_picked[x] as int],
                                    );
                                }
                            }
                        }
                        assert forall|m: int|
                            0 <= m < n && listed@[m] && !row_before(
                                #[trigger] v.articles[m],
                                v.articles[picked@.last() as int],
                            ) implies picked@.contains(m as usize) by {
                            assert(v.articles[m] == arts@[m]@);
                            if old_picked.len() > 0 && !row_before(
                                v.articles[m],
                                v.articles[old_picked.last() as int],
                            ) {
                                assert(old_picked.contains(m as usize));
                                let x = choose|x: int| 0 <= x < old_picked.len() && old_picked[x] == m as usize;
                                assert(picked@[x] == m as usize);
                            } else {
                                assert(below_bound(arts@, m, bound));
                                assert(!row_before(arts@[b as int]@, arts@[m]@));
                                lemma_row_before_total(v.articles[m], v.articles[b as int]);
                                assert(article_ids(v.articles)[m] == v.articles[m].article_id);
                                assert(article_ids(v.articles)[b as int] == v.articles[b as int].article_id);
                                assert(m == b as int);
                                assert(picked@[picked.len() - 1] == b);
                            }
                        }
                    }
                },
            }
        }
        let more_idx = if !done && picked.len() > 0 {
            newest_below(arts, &ids, &listed, Some(picked[picked.len() - 1]))
        } else {
            None
        };
        let more = more_idx.is_some();
        let ghost rows = rows_at(v.articles, picked@);
        let mut entries: Vec<FeedEntry> = Vec::new();
        let mut x: usize = 0;
        while x < picked.len()
            invariant
                articles_view(arts@) == v.articles,
                forall|y: int| 0 <= y < picked.len() ==> #[trigger] picked@[y] < arts.len(),
                rows == rows_at(v.articles, picked@),
                x <= picked.len(),
                entries_view(entries@) == page_entries(rows.take(x as int)),
            decreases picked.len() - x,
        {
            let a = &arts[picked[x]];
            let e = FeedEntry {
                id: a.article_id.clone(),
                author: a.author.clone(),
                title: a.title.clone(),
                link: a.url.clone(),
                description: a.description.clone(),
                pub_date: a.published_at.clone(),
                is_summary: a.is_summary,
                source_type: a.source_type.clone(),
                video_id: clone_opt(&a.video_id),
            };
            assert(rows[x as int] == a@);
            assert(e@ == article_entry(rows[x as int]));
            let ghost before = entries@;
            let ghost ev = e@;
            entries.push(e);
            assert(entries_view(entries@) =~= entries_view(before).push(ev));
            x = x + 1;
            assert(entries_view(entries@) =~= page_entries(rows.take(x as int)));
        }
        assert(rows.take(rows.len() as int) =~= rows);
        let next_cursor = if more {
            let last = &arts[picked[picked.len() - 1]];
            Some(ArticleCursor { published_ts: last.published_ts, article_id: last.article_id.clone() })
        } else {
            None
        };
        proof {
            assert forall|y: int| 0 <= y < picked.len() implies picked@[y] < v.articles.len() by {
                assert(picked@[y] < n);
            }
            assert forall|kk: int|
                0 <= kk < v.articles.len() && row_listed(v, #[trigger] v.articles[kk], archived, nq, cv)
                    && !rows.contains(v.articles[kk]) implies rows.len() == limit && (rows.len() > 0
                ==> row_before(v.articles[kk], rows.last())) by {
                assert(listed@[kk]);
                lemma_rows_contains(v.articles, picked@, kk);
                if rows.len() > 0 {
                    assert(rows.last() == v.articles[picked@.last() as int]);
                }
            }
            assert forall|xx: int| 0 <= xx < rows.len() implies v.articles.contains(#[trigger] rows[xx])
                && row_listed(v, rows[xx], archived, nq, cv) by {
                assert(listed@[picked@[xx] as int]);
            }
            assert forall|xx: int, yy: int| 0 <= xx < yy < rows.len() implies row_before(
                rows[yy],
                rows[xx],
            ) by {
                assert(rows[yy] == v.articles[picked@[yy] as int]);
                assert(rows[xx] == v.articles[picked@[xx] as int]);
            }
            assert(is_page(v, archived, nq, cv, limit as nat, rows));
            if rows.len() > 0 {
                let last_i = picked@.last() as int;
                assert(rows.last() == v.articles[last_i]);
                if has_more(v, archived, nq, cv, rows) {
                    let kk = choose|kk: int|
                        0 <= kk < v.articles.len() && row_listed(v, #[trigger] v.articles[kk], archived, nq, cv)
                            && !rows.contains(v.articles[kk]);
                    assert(listed@[kk]);
                    lemma_rows_contains(v.articles, picked@, kk);
                    assert(!done);
                    assert(below_bound(arts@, kk, Some(picked@.last())));
                    assert(more);
                }
                match more_idx {
                    Some(b) => {
                        assert(listed@[b as int]);
                        assert(v.articles[b as int] == arts@[b as int]@);
                        assert(v.articles[last_i] == arts@[last_i]@);
                        assert(row_before(v.articles[b as int], v.articles[last_i]));
                        lemma_rows_contains(v.articles, picked@, b as int);
                        if picked@.contains(b) {
                            let xx = choose|xx: int| 0 <= xx < picked.len() && picked@[xx] == b;
                            if xx < picked.len() - 1 {
                                assert(row_before(v.articles[last_i], v.articles[picked@[xx] as int]));
                                lemma_row_before_asymmetric(v.articles[b as int], v.articles[last_i]);
                            } else {
                                lemma_row_before_asymmetric(v.articles[b as int], v.articles[b as int]);
                            }
                        }
                        assert(!rows.contains(v.articles[b as int]));
                        assert(has_more(v, archived, nq, cv, rows));
                    },
                    None => {},
                }
            }
            assert(cursor_view(next_cursor) == next_cursor_of(v, archived, nq, cv, rows));
            assert(entries_view(entries@) == page_entries(rows));
        }
        ArticlePage { entries, next_cursor }
    }
}

} // verus!
