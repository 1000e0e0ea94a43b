//! What a feed response becomes: the HTTP decisions around a fetch, and the
//! conversion of parsed feed entries into cached entries.

use vstd::prelude::*;
use crate::ids::{article_id, article_id_of};
use crate::model::{
    CachedFeedEntry, CachedFeedEntryView, FeedEntry, FeedEntryView, FeedValidator, FetchedFeed,
    FetchedFeedView, FeedSyncOutcome, cached_entries_view,
};
use crate::sources::{FeedSource, FeedSourceView};
use crate::text::{
    trim, trim_end, ends_with, contains_seq, chars_of, trim_end_bound, ends_with_chars,
    contains_chars, trim_bounds,
};
use crate::trusted::{to_lowercase, unicode_lowercase, system_now, since_unix_epoch, whole_seconds};
use crate::urls::{get_youtube_video_id, youtube_video_id, opt_view, str_is};

verus! {

/// A clock reading in Unix seconds as the cache stores it: the seconds since
/// the epoch as `i64` (wrapping, as `as` does), or zero for a clock set before the epoch.
pub open spec fn timestamp_of(reading: Option<u64>) -> i64 {
    match reading {
        Some(s) => s as i64,
        None => 0,
    }
}

/// Turns a clock reading into the timestamp the cache stores.
pub fn unix_seconds_or_zero(reading: Option<u64>) -> (r: i64)
    ensures
        r == timestamp_of(reading),
{
    match reading {
        Some(s) => s as i64,
        None => 0,
    }
}

/// The current time in Unix seconds (zero when the clock is before the
/// epoch), as [`unix_seconds_or_zero`] makes it of the clock reading.
pub fn current_unix_timestamp() -> i64 {
    let now = system_now();
    let reading = match since_unix_epoch(&now) {
        Ok(d) => Some(whole_seconds(&d)),
        Err(_) => None,
    };
    unix_seconds_or_zero(reading)
}

/// A description reads like a teaser: it ends in `...` once trailing
/// whitespace is removed, or, lowercased, it contains `read more` or
/// `continue reading`.
pub open spec fn summary_like(description: Seq<char>) -> bool {
    let lower = unicode_lowercase(description);
    ||| ends_with(trim_end(description), "..."@)
    ||| contains_seq(lower, "read more"@)
    ||| contains_seq(lower, "continue reading"@)
}

/// Whether a description reads like a teaser rather than the full article.
pub fn looks_like_summary(description: &str) -> (r: bool)
    ensures
        r == summary_like(description@),
{
    let lower = to_lowercase(description);
    let d = chars_of(description);
    let end = trim_end_bound(&d);
    let dots = chars_of("...");
    if ends_with_chars(&d, end, &dots) {
        return true;
    }
    let l = chars_of(lower.as_str());
    contains_chars(&l, &chars_of("read more")) || contains_chars(&l, &chars_of("continue reading"))
}

/// A time as a feed states it.
pub struct FeedTimestamp {
    pub rfc3339: String,
    pub unix_seconds: i64,
}

/// The mathematical content of a [`FeedTimestamp`].
pub struct FeedTimestampView {
    pub rfc3339: Seq<char>,
    pub unix_seconds: i64,
}

impl View for FeedTimestamp {
    type V = FeedTimestampView;

    open spec fn view(&self) -> FeedTimestampView {
        FeedTimestampView { rfc3339: self.rfc3339@, unix_seconds: self.unix_seconds }
    }
}

/// The view of an optional time.
pub open spec fn opt_time(t: Option<FeedTimestamp>) -> Option<FeedTimestampView> {
    match t {
        Some(x) => Some(x@),
        None => None,
    }
}

/// What the feed parser reports of one entry.
pub struct ParsedEntry {
    pub id: String,
    pub first_link: Option<String>,
    pub title: Option<String>,
    pub content_body: Option<String>,
    pub summary: Option<String>,
    pub published: Option<FeedTimestamp>,
    pub updated: Option<FeedTimestamp>,
}

/// The mathematical content of a [`ParsedEntry`].
pub struct ParsedEntryView {
    pub id: Seq<char>,
    pub first_link: Option<Seq<char>>,
    pub title: Option<Seq<char>>,
    pub content_body: Option<Seq<char>>,
    pub summary: Option<Seq<char>>,
    pub published: Option<FeedTimestampView>,
    pub updated: Option<FeedTimestampView>,
}

impl View for ParsedEntry {
    type V = ParsedEntryView;

    open spec fn view(&self) -> ParsedEntryView {
        ParsedEntryView {
            id: self.id@,
            first_link: opt_view(self.first_link),
            title: opt_view(self.title),
            content_body: opt_view(self.content_body),
            summary: opt_view(self.summary),
            published: opt_time(self.published),
            updated: opt_time(self.updated),
        }
    }
}

/// The views of a list of parsed entries.
pub open spec fn parsed_view(v: Seq<ParsedEntry>) -> Seq<ParsedEntryView> {
    v.map_values(|e: ParsedEntry| e@)
}

/// How many entries of one feed response are kept.
pub const ENTRIES_PER_FEED: usize = 10;

/// An entry's link: its first link, else its identifier.
pub open spec fn entry_link(e: ParsedEntryView) -> Seq<char> {
    match e.first_link {
        Some(l) => l,
        None => e.id,
    }
}

/// An entry's description: its content body, else its summary, else empty.
pub open spec fn entry_description(e: ParsedEntryView) -> Seq<char> {
    match e.content_body {
        Some(b) => b,
        None => match e.summary {
            Some(s) => s,
            None => Seq::empty(),
        },
    }
}

/// An entry's publication time: when it was published, else when it was updated.
pub open spec fn entry_published(e: ParsedEntryView) -> Option<FeedTimestampView> {
    match e.published {
        Some(t) => Some(t),
        None => e.updated,
    }
}

/// The cached entry a parsed entry of `source` becomes at `now`: identified
/// by its link, authored by the source, titled `Untitled` when untitled,
/// dated at `now` when undated; a teaser unless it is a video; with the
/// link's video identifier when it is a video.
pub open spec fn cached_entry_of(source: FeedSourceView, e: ParsedEntryView, now: i64) -> CachedFeedEntryView {
    let link = entry_link(e);
    let description = entry_description(e);
    let published = entry_published(e);
    let is_video = source.source_type == "youtube"@;
    CachedFeedEntryView {
        entry: FeedEntryView {
            id: article_id_of(link),
            author: source.name,
            title: match e.title {
                Some(t) => t,
                None => "Untitled"@,
            },
            link,
            description,
            pub_date: match published {
                Some(t) => t.rfc3339,
                None => Seq::empty(),
            },
            is_summary: !is_video && summary_like(description),
            source_type: source.source_type,
            video_id: if is_video {
                youtube_video_id(link)
            } else {
                None
            },
        },
        published_ts: match published {
            Some(t) => t.unix_seconds,
            None => now,
        },
    }
}

/// The cached entries of `parsed`, in order, leaving out those whose trimmed link is empty.
pub open spec fn kept_entries(source: FeedSourceView, parsed: Seq<ParsedEntryView>, now: i64) -> Seq<
    CachedFeedEntryView,
>
    decreases parsed.len(),
{
    if parsed.len() == 0 {
        Seq::empty()
    } else {
        let rest = kept_entries(source, parsed.drop_last(), now);
        if trim(entry_link(parsed.last())).len() == 0 {
            rest
        } else {
            rest.push(cached_entry_of(source, parsed.last(), now))
        }
    }
}

/// The cached entries a feed response brings: those of its first ten entries
/// whose trimmed link is not empty.
pub open spec fn response_entries(source: FeedSourceView, parsed: Seq<ParsedEntryView>, now: i64) -> Seq<
    CachedFeedEntryView,
> {
    kept_entries(
        source,
        if parsed.len() > ENTRIES_PER_FEED {
            parsed.take(ENTRIES_PER_FEED as int)
        } else {
            parsed
        },
        now,
    )
}

/// At most one cached entry per parsed entry.
pub proof fn lemma_kept_entries_len(source: FeedSourceView, parsed: Seq<ParsedEntryView>, now: i64)
    ensures
        kept_entries(source, parsed, now).len() <= parsed.len(),
    decreases parsed.len(),
{
    if parsed.len() > 0 {
        lemma_kept_entries_len(source, parsed.drop_last(), now);
    }
}

/// The cached entry one parsed entry becomes.
fn cached_entry(source: &FeedSource, e: &ParsedEntry, link: String, now: i64) -> (r: CachedFeedEntry)
    requires
        link@ == entry_link(e@),
    ensures
        r@ == cached_entry_of(source@, e@, now),
{
    let title = match &e.title {
        Some(t) => t.clone(),
        None => "Untitled".to_owned(),
    };
    let description = match &e.content_body {
        Some(b) => b.clone(),
        None => match &e.summary {
            Some(s) => s.clone(),
            None => String::new(),
        },
    };
    let published = match &e.published {
        Some(t) => Some(t),
        None => match &e.updated {
            Some(t) => Some(t),
            None => None,
        },
    };
    let (pub_date, published_ts) = match published {
        Some(t) => (t.rfc3339.clone(), t.unix_seconds),
        None => (String::new(), now),
    };
    let is_video = str_is(&source.source_type, "youtube");
    let is_summary = !is_video && looks_like_summary(description.as_str());
    let video_id = if is_video {
        get_youtube_video_id(link.as_str())
    } else {
        None
    };
    CachedFeedEntry {
        entry: FeedEntry {
            id: article_id(link.as_str()),
            author: source.name.clone(),
            title,
            link,
            description,
            pub_date,
            is_summary,
            source_type: source.source_type.clone(),
            video_id,
        },
        published_ts,
    }
}

/// Turns the parsed entries of a feed response from `source` into cached
/// entries: the first ten, without those whose trimmed link is empty.
pub fn entries_from_parsed(source: &FeedSource, parsed: &Vec<ParsedEntry>, now: i64) -> (r: Vec<
    CachedFeedEntry,
>)
    ensures
        cached_entries_view(r@) == response_entries(source@, parsed_view(parsed@), now),
        r@.len() <= ENTRIES_PER_FEED,
{
    let ghost pv = parsed_view(parsed@);
    let count = if parsed.len() > ENTRIES_PER_FEED {
        ENTRIES_PER_FEED
    } else {
        parsed.len()
    };
    let ghost taken = if pv.len() > ENTRIES_PER_FEED {
        pv.take(ENTRIES_PER_FEED as int)
    } else {
        pv
    };
    assert(taken.len() == count);
    let mut out: Vec<CachedFeedEntry> = Vec::new();
    let mut i: usize = 0;
    while i < count
        invariant
            pv == parsed_view(parsed@),
            pv.len() == parsed.len(),
            count <= parsed.len(),
            taken.len() == count,
            forall|k: int| 0 <= k < count ==> taken[k] == pv[k],
            i <= count,
            cached_entries_view(out@) == kept_entries(source@, taken.take(i as int), now),
        decreases count - i,
    {
        let e = &parsed[i];
        assert(taken[i as int] == e@);
        assert(taken.take(i + 1).drop_last() =~= taken.take(i as int));
        assert(taken.take(i + 1).last() == e@);
        let link = match &e.first_link {
            Some(l) => l.clone(),
            None => e.id.clone(),
        };
        let lc = chars_of(link.as_str());
        let (a, b) = trim_bounds(&lc);
        if a < b {
            let c = cached_entry(source, e, link, now);
            let ghost before = out@;
            let ghost cv = c@;
            out.push(c);
            assert(cached_entries_view(out@) =~= cached_entries_view(before).push(cv));
        }
        i = i + 1;
    }
    assert(taken.take(count as int) =~= taken);
    proof {
        lemma_kept_entries_len(source@, taken, now);
    }
    out
}

/// The view of the fetched feed that a response from `source` makes at
/// `now`, given the entries the feed parser read from its body and the
/// validators the response sent.
pub open spec fn response_feed(
    source: FeedSourceView,
    etag: Option<Seq<char>>,
    last_modified: Option<Seq<char>>,
    parsed: Seq<ParsedEntryView>,
    now: i64,
) -> FetchedFeedView {
    FetchedFeedView {
        source,
        entries: response_entries(source, parsed, now),
        etag,
        last_modified,
    }
}

/// The fetched feed a successful response makes: the cached entries of the
/// entries parsed from its body, and the validators it sent.
pub fn feed_from_response(
    source: FeedSource,
    etag: Option<String>,
    last_modified: Option<String>,
    parsed: &Vec<ParsedEntry>,
    now: i64,
) -> (r: FetchedFeed)
    ensures
        r@ == response_feed(source@, opt_view(etag), opt_view(last_modified), parsed_view(parsed@), now),
        r.entries@.len() <= ENTRIES_PER_FEED,
{
    let entries = entries_from_parsed(&source, parsed, now);
    FetchedFeed { source, entries, etag, last_modified }
}

/// How a feed request turned out, by HTTP status.
pub enum ResponseClass {
    /// `304 Not Modified`: nothing new since the validators sent.
    NotModified,
    /// A client or server error (`400` to `599`).
    Failure,
    /// Anything else: the body is the feed.
    Success,
}

/// Classifies a feed response by its status code.
pub fn classify_status(status: u16) -> (r: ResponseClass)
    ensures
        status == 304 <==> r is NotModified,
        (400 <= status <= 599) <==> r is Failure,
{
    if status == 304 {
        ResponseClass::NotModified
    } else if 400 <= status && status <= 599 {
        ResponseClass::Failure
    } else {
        ResponseClass::Success
    }
}

/// A conditional request header.
pub enum ConditionalHeader {
    /// `If-None-Match` with the entity tag last received.
    IfNoneMatch(String),
    /// `If-Modified-Since` with the modification time last received.
    IfModifiedSince(String),
}

/// The conditional headers a feed request carries: `If-None-Match` when an
/// entity tag is known, then `If-Modified-Since` when a modification time is.
pub fn conditional_headers(v: &FeedValidator) -> (r: Vec<ConditionalHeader>)
    ensures
        r@.len() == (if v.etag is Some { 1int } else { 0int }) + (if v.last_modified is Some {
            1int
        } else {
            0int
        }),
        v.etag matches Some(t) ==> r@[0] matches ConditionalHeader::IfNoneMatch(h) && h@ == t@,
        v.last_modified matches Some(m) ==> r@.last() matches ConditionalHeader::IfModifiedSince(h)
            && h@ == m@,
{
    let mut r: Vec<ConditionalHeader> = Vec::new();
    match &v.etag {
        Some(t) => r.push(ConditionalHeader::IfNoneMatch(t.clone())),
        None => {},
    }
    match &v.last_modified {
        Some(m) => r.push(ConditionalHeader::IfModifiedSince(m.clone())),
        None => {},
    }
    r
}

/// The outcome of refreshing `source`: updated with a fetched feed, not
/// modified, or failed with a message.
pub fn fetch_source_entries(source: FeedSource, result: Result<Option<FetchedFeed>, String>) -> (r:
    FeedSyncOutcome)
    ensures
        result matches Ok(Some(f)) ==> r matches FeedSyncOutcome::Updated(g) && g@ == f@,
        result matches Ok(None) ==> r matches FeedSyncOutcome::NotModified(s) && s@ == source@,
        result matches Err(e) ==> r matches FeedSyncOutcome::Failed(s, m) && s@ == source@ && m@
            == e@,
{
    match result {
        Ok(Some(feed)) => FeedSyncOutcome::Updated(feed),
        Ok(None) => FeedSyncOutcome::NotModified(source),
        Err(error) => FeedSyncOutcome::Failed(source, error),
    }
}

} // verus!
