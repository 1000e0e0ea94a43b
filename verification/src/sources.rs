//! Feed sources: the source-type default, cleaning of user-edited sources,
//! and the resolution of YouTube channel URLs to their channel feed.

use vstd::prelude::*;
use crate::text::{
    trim, trimmed, chars_of, occurs_at, string_of_range, starts_with, ends_with, contains_seq, find_seq,
    starts_with_chars, ends_with_chars, contains_chars, find_chars, concat_str, index_of_from,
    index_of_char_from,
};
use crate::trusted::{parse_url, url_parse_result, to_lowercase, unicode_lowercase};
use crate::urls::{str_is, validate_feed_url, FeedUrlError};

verus! {

/// A configured feed: its display name, feed URL and type (`blog` or `youtube`).
pub struct FeedSource {
    pub name: String,
    pub rss: String,
    pub source_type: String,
}

/// The mathematical content of a [`FeedSource`].
pub struct FeedSourceView {
    pub name: Seq<char>,
    pub rss: Seq<char>,
    pub source_type: Seq<char>,
}

impl View for FeedSource {
    type V = FeedSourceView;

    open spec fn view(&self) -> FeedSourceView {
        FeedSourceView { name: self.name@, rss: self.rss@, source_type: self.source_type@ }
    }
}

impl FeedSource {
    /// A copy of this source.
    pub fn duplicate(&self) -> (r: FeedSource)
        ensures
            r@ == self@,
    {
        FeedSource {
            name: self.name.clone(),
            rss: self.rss.clone(),
            source_type: self.source_type.clone(),
        }
    }
}

/// The type a source has when its configuration names none.
pub fn default_source_type() -> (r: String)
    ensures
        r@ == "blog"@,
{
    "blog".to_owned()
}

/// Whether a source type is the default one, which the configuration file omits.
pub fn is_default_source_type(source_type: &str) -> (r: bool)
    ensures
        r == (source_type@ == "blog"@),
{
    let s: String = source_type.to_owned();
    str_is(&s, "blog")
}

/// Why a feed source was refused.
pub enum SourceError {
    /// The type, trimmed and lowercased, is neither empty, `blog` nor `youtube`.
    UnsupportedSourceType(String),
    /// The trimmed name is empty.
    EmptyName,
    /// The trimmed feed URL is empty; the source's trimmed name is kept.
    MissingFeedUrl(String),
    /// A YouTube source's URL does not parse.
    InvalidYoutubeUrl(String, url::ParseError),
    /// The YouTube channel page names no channel identifier.
    NoYoutubeChannelId,
    /// The feed URL does not parse.
    InvalidFeedUrl(String, url::ParseError),
    /// The feed URL's scheme is neither `http` nor `https`.
    UnsupportedFeedScheme(String),
}

/// The source type a raw type names: `Ok` with `blog` or `youtube`, or `Err`
/// with the trimmed, lowercased text that names neither.
pub open spec fn source_type_of(raw: Seq<char>) -> Result<Seq<char>, Seq<char>> {
    let l = unicode_lowercase(trim(raw));
    if l == ""@ || l == "blog"@ {
        Ok("blog"@)
    } else if l == "youtube"@ {
        Ok("youtube"@)
    } else {
        Err(l)
    }
}

/// Reads a configured source type: trimmed and lowercased, empty or `blog`
/// gives `blog`, `youtube` gives `youtube`, anything else is refused.
pub fn normalize_source_type(raw: &str) -> (r: Result<String, SourceError>)
    ensures
        source_type_of(raw@) matches Ok(t) ==> r matches Ok(s) && s@ == t,
        source_type_of(raw@) matches Err(l) ==> r matches Err(
            SourceError::UnsupportedSourceType(s),
        ) && s@ == l,
{
    let t = trimmed(raw);
    let l = to_lowercase(t.as_str());
    if str_is(&l, "") || str_is(&l, "blog") {
        Ok("blog".to_owned())
    } else if str_is(&l, "youtube") {
        Ok("youtube".to_owned())
    } else {
        Err(SourceError::UnsupportedSourceType(l))
    }
}

/// The URL of a YouTube channel's video feed.
pub open spec fn youtube_channel_feed_url(channel_id: Seq<char>) -> Seq<char> {
    "https://www.youtube.com/feeds/videos.xml?channel_id="@ + channel_id
}

/// Builds the video feed URL of a YouTube channel.
pub fn channel_feed_url(channel_id: &str) -> (r: String)
    ensures
        r@ == youtube_channel_feed_url(channel_id@),
{
    concat_str("https://www.youtube.com/feeds/videos.xml?channel_id=", channel_id)
}

/// A character that can appear in a YouTube channel identifier.
pub open spec fn is_channel_id_char(c: char) -> bool {
    let u = c as u32;
    ||| 0x30 <= u <= 0x39
    ||| 0x41 <= u <= 0x5A
    ||| 0x61 <= u <= 0x7A
    ||| c == '_'
    ||| c == '-'
}

/// The longest prefix of `s` made of channel-identifier characters.
pub open spec fn take_channel_id_chars(s: Seq<char>) -> Seq<char>
    decreases s.len(),
{
    if s.len() > 0 && is_channel_id_char(s[0]) {
        seq![s[0]] + take_channel_id_chars(s.drop_first())
    } else {
        Seq::empty()
    }
}

/// The identifier that follows the first occurrence of `marker` in `page`, if non-empty.
pub open spec fn id_after_marker(page: Seq<char>, marker: Seq<char>) -> Option<Seq<char>> {
    match find_seq(page, marker) {
        Some(i) => {
            let id = take_channel_id_chars(page.skip(i + marker.len()));
            if id.len() > 0 {
                Some(id)
            } else {
                None
            }
        },
        None => None,
    }
}

/// Whether `c` can appear in a YouTube channel identifier.
fn channel_id_char(c: char) -> (r: bool)
    ensures
        r == is_channel_id_char(c),
{
    let u: u32 = c as u32;
    (0x30 <= u && u <= 0x39) || (0x41 <= u && u <= 0x5A) || (0x61 <= u && u <= 0x7A) || c == '_'
        || c == '-'
}

/// The run of identifier characters (ASCII letters, digits, `_`, `-`) that
/// directly follows the first occurrence of `marker` in `page`, if that run is non-empty.
pub fn find_after_marker(page: &str, marker: &str) -> (r: Option<String>)
    ensures
        opt_chars(r) == id_after_marker(page@, marker@),
{
    let p = chars_of(page);
    let m = chars_of(marker);
    let start = match find_chars(&p, &m) {
        Some(i) => {
            assert(occurs_at(p@, m@, i as int));
            assert(i + m@.len() <= p@.len());
            assert(i + m.len() <= p.len());
            i + m.len()
        },
        None => return None,
    };
    let mut j: usize = start;
    assert(p@.subrange(start as int, start as int) =~= Seq::<char>::empty());
    while j < p.len() && channel_id_char(p[j])
        invariant
            start <= j <= p.len(),
            take_channel_id_chars(p@.skip(start as int)) == p@.subrange(start as int, j as int)
                + take_channel_id_chars(p@.skip(j as int)),
        decreases p.len() - j,
    {
        assert(p@.skip(j as int).drop_first() =~= p@.skip(j + 1));
        assert(p@.subrange(start as int, j + 1) =~= p@.subrange(start as int, j as int) + seq![
            p@[j as int],
        ]);
        j = j + 1;
    }
    assert(take_channel_id_chars(p@.skip(j as int)) =~= Seq::<char>::empty());
    assert(p@.subrange(start as int, j as int) + Seq::<char>::empty() =~= p@.subrange(
        start as int,
        j as int,
    ));
    if j == start {
        None
    } else {
        Some(string_of_range(&p, start, j))
    }
}

/// The characters of an optional string.
pub open spec fn opt_chars(s: Option<String>) -> Option<Seq<char>> {
    match s {
        Some(x) => Some(x@),
        None => None,
    }
}

/// The channel identifier a YouTube channel page names: the one after the
/// first `"channelId":"` if there is one, else the one after the first
/// `/channel/`; kept only if it starts with `UC`.
pub open spec fn youtube_channel_id(page: Seq<char>) -> Option<Seq<char>> {
    let found = match id_after_marker(page, "\"channelId\":\""@) {
        Some(x) => Some(x),
        None => id_after_marker(page, "/channel/"@),
    };
    match found {
        Some(id) => if starts_with(id, "UC"@) {
            Some(id)
        } else {
            None
        },
        None => None,
    }
}

/// Finds the channel identifier named on a YouTube channel page.
pub fn extract_youtube_channel_id(page: &str) -> (r: Option<String>)
    ensures
        opt_chars(r) == youtube_channel_id(page@),
{
    let found = match find_after_marker(page, "\"channelId\":\"") {
        Some(x) => Some(x),
        None => find_after_marker(page, "/channel/"),
    };
    match found {
        Some(id) => {
            let c = chars_of(id.as_str());
            let uc = chars_of("UC");
            if starts_with_chars(&c, &uc) {
                Some(id)
            } else {
                None
            }
        },
        None => None,
    }
}

/// The channel identifier of a `/channel/<id>` path: the second path segment
/// when the first one is `channel`. Segments are the pieces between the
/// slashes that follow the leading `/`.
pub open spec fn channel_in_path(path: Seq<char>) -> Option<Seq<char>> {
    if path.len() > 0 && path[0] == '/' {
        let first_end = match index_of_from(path, '/', 1) {
            Some(i) => i,
            None => path.len() as int,
        };
        if path.subrange(1, first_end) == "channel"@ && first_end < path.len() {
            let second_end = match index_of_from(path, '/', first_end + 1) {
                Some(i) => i,
                None => path.len() as int,
            };
            Some(path.subrange(first_end + 1, second_end))
        } else {
            None
        }
    } else {
        None
    }
}

/// Reads the channel identifier of a `/channel/<id>` path.
pub fn channel_from_path(path: &str) -> (r: Option<String>)
    ensures
        opt_chars(r) == channel_in_path(path@),
{
    let p = chars_of(path);
    if p.len() == 0 || p[0] != '/' {
        return None;
    }
    let first_end = match index_of_char_from(&p, '/', 1) {
        Some(i) => i,
        None => p.len(),
    };
    proof {
        if index_of_from(p@, '/', 1) is Some {
            lemma_index_of_from_bounds(p@, '/', 1);
        }
    }
    let seg = string_of_range(&p, 1, first_end);
    if !str_is(&seg, "channel") || first_end >= p.len() {
        return None;
    }
    let second_end = match index_of_char_from(&p, '/', first_end + 1) {
        Some(i) => i,
        None => p.len(),
    };
    proof {
        if index_of_from(p@, '/', first_end + 1) is Some {
            lemma_index_of_from_bounds(p@, '/', first_end + 1);
        }
    }
    Some(string_of_range(&p, first_end + 1, second_end))
}

/// An index found by [`index_of_from`] lies in `[from, len)`.
pub proof fn lemma_index_of_from_bounds(s: Seq<char>, c: char, from: int)
    requires
        index_of_from(s, c, from) is Some,
    ensures
        from <= index_of_from(s, c, from)->0 < s.len(),
        s[index_of_from(s, c, from)->0] == c,
    decreases s.len() - from,
{
    if from >= 0 && from < s.len() && s[from] != c {
        lemma_index_of_from_bounds(s, c, from + 1);
    }
}

/// Where a YouTube source's URL leads without fetching anything.
pub enum YoutubeUrl {
    /// The channel feed URL, known from the input alone.
    Feed(String),
    /// The input is a channel page; its channel identifier must be read from the page.
    LookUpPage,
    /// The input does not parse as a URL.
    Invalid(url::ParseError),
}

/// The spec-level outcome of resolving a YouTube URL locally.
pub enum YoutubeOutcome {
    Feed(Seq<char>),
    LookUpPage,
    Invalid,
}

/// How a YouTube source's input resolves: a bare `UC…` channel identifier
/// without `/` becomes its channel feed; a URL whose host is not YouTube is
/// kept; a YouTube channel feed URL (path `/feeds/videos.xml` with a
/// `channel_id=` query) is kept; a `/channel/<id>` URL becomes that
/// channel's feed; any other YouTube URL needs its page looked up.
pub open spec fn youtube_outcome(input: Seq<char>) -> YoutubeOutcome {
    if starts_with(input, "UC"@) && !contains_seq(input, "/"@) {
        YoutubeOutcome::Feed(youtube_channel_feed_url(input))
    } else {
        match url_parse_result(input) {
            None => YoutubeOutcome::Invalid,
            Some(p) => {
                let host = match p.host {
                    Some(h) => h,
                    None => Seq::empty(),
                };
                let query = match p.query {
                    Some(q) => q,
                    None => Seq::empty(),
                };
                if !(ends_with(host, "youtube.com"@) || host == "youtu.be"@) {
                    YoutubeOutcome::Feed(input)
                } else if p.path == "/feeds/videos.xml"@ && contains_seq(query, "channel_id="@) {
                    YoutubeOutcome::Feed(input)
                } else {
                    match channel_in_path(p.path) {
                        Some(id) => YoutubeOutcome::Feed(youtube_channel_feed_url(id)),
                        None => YoutubeOutcome::LookUpPage,
                    }
                }
            },
        }
    }
}

/// The spec-level outcome of a [`YoutubeUrl`].
pub open spec fn youtube_url_outcome(r: YoutubeUrl) -> YoutubeOutcome {
    match r {
        YoutubeUrl::Feed(s) => YoutubeOutcome::Feed(s@),
        YoutubeUrl::LookUpPage => YoutubeOutcome::LookUpPage,
        YoutubeUrl::Invalid(_) => YoutubeOutcome::Invalid,
    }
}

/// Resolves a YouTube source's input to its channel feed URL as far as the
/// input alone allows; channel pages are left to be looked up.
pub fn normalize_youtube_feed_url(input: &str) -> (r: YoutubeUrl)
    ensures
        youtube_url_outcome(r) == youtube_outcome(input@),
{
    let chars = chars_of(input);
    let uc = chars_of("UC");
    let slash = chars_of("/");
    if starts_with_chars(&chars, &uc) && !contains_chars(&chars, &slash) {
        return YoutubeUrl::Feed(channel_feed_url(input));
    }
    let parts = match parse_url(input) {
        Err(e) => return YoutubeUrl::Invalid(e),
        Ok(p) => p,
    };
    let host: String = match &parts.host {
        Some(h) => h.clone(),
        None => String::new(),
    };
    let query: String = match &parts.query {
        Some(q) => q.clone(),
        None => String::new(),
    };
    let host_chars = chars_of(host.as_str());
    let youtube_com = chars_of("youtube.com");
    assert(host_chars@.subrange(0, host_chars@.len() as int) =~= host_chars@);
    let on_youtube = ends_with_chars(&host_chars, host_chars.len(), &youtube_com) || str_is(
        &host,
        "youtu.be",
    );
    if !on_youtube {
        return YoutubeUrl::Feed(input.to_owned());
    }
    let query_chars = chars_of(query.as_str());
    let marker = chars_of("channel_id=");
    if str_is(&parts.path, "/feeds/videos.xml") && contains_chars(&query_chars, &marker) {
        return YoutubeUrl::Feed(input.to_owned());
    }
    match channel_from_path(parts.path.as_str()) {
        Some(id) => YoutubeUrl::Feed(channel_feed_url(id.as_str())),
        None => YoutubeUrl::LookUpPage,
    }
}

/// A [`SourceError`] without the URL parser's error value.
pub enum SourceErrorKind {
    UnsupportedSourceType(Seq<char>),
    EmptyName,
    MissingFeedUrl(Seq<char>),
    InvalidYoutubeUrl(Seq<char>),
    NoYoutubeChannelId,
    InvalidFeedUrl(Seq<char>),
    UnsupportedFeedScheme(Seq<char>),
}

/// The kind of a [`SourceError`], with its text fields as character sequences.
pub open spec fn error_kind(e: SourceError) -> SourceErrorKind {
    match e {
        SourceError::UnsupportedSourceType(s) => SourceErrorKind::UnsupportedSourceType(s@),
        SourceError::EmptyName => SourceErrorKind::EmptyName,
        SourceError::MissingFeedUrl(n) => SourceErrorKind::MissingFeedUrl(n@),
        SourceError::InvalidYoutubeUrl(u, _) => SourceErrorKind::InvalidYoutubeUrl(u@),
        SourceError::NoYoutubeChannelId => SourceErrorKind::NoYoutubeChannelId,
        SourceError::InvalidFeedUrl(u, _) => SourceErrorKind::InvalidFeedUrl(u@),
        SourceError::UnsupportedFeedScheme(s) => SourceErrorKind::UnsupportedFeedScheme(s@),
    }
}

/// What is wrong with a feed URL, if anything: it must parse and use `http` or `https`.
pub open spec fn feed_url_problem(rss: Seq<char>) -> Option<SourceErrorKind> {
    match url_parse_result(rss) {
        None => Some(SourceErrorKind::InvalidFeedUrl(rss)),
        Some(p) => if p.scheme == "http"@ || p.scheme == "https"@ {
            None
        } else {
            Some(SourceErrorKind::UnsupportedFeedScheme(p.scheme))
        },
    }
}

/// Checks a feed URL and names the source error it gives, if any.
pub fn check_feed_url(rss: &str) -> (r: Result<(), SourceError>)
    ensures
        r is Ok <==> feed_url_problem(rss@) is None,
        r matches Err(e) ==> feed_url_problem(rss@) == Some(error_kind(e)),
{
    match validate_feed_url(rss) {
        Ok(()) => Ok(()),
        Err(FeedUrlError::Invalid(e)) => Err(SourceError::InvalidFeedUrl(rss.to_owned(), e)),
        Err(FeedUrlError::UnsupportedScheme(s)) => Err(SourceError::UnsupportedFeedScheme(s)),
    }
}

/// What to do next with a feed source that the user saved.
pub enum SourcePlan {
    /// The source is clean and valid as it stands.
    Ready(FeedSource),
    /// The source is a YouTube channel page: fetch `page_url` and hand the
    /// page to [`complete_youtube_source`].
    LookUpYoutubeChannel { name: String, page_url: String },
    /// The source is refused.
    Rejected(SourceError),
}

/// The spec-level content of a [`SourcePlan`].
pub enum PlanSpec {
    Ready(FeedSourceView),
    LookUp(Seq<char>, Seq<char>),
    Rejected(SourceErrorKind),
}

/// The spec-level content of a plan.
pub open spec fn plan_spec(p: SourcePlan) -> PlanSpec {
    match p {
        SourcePlan::Ready(s) => PlanSpec::Ready(s@),
        SourcePlan::LookUpYoutubeChannel { name, page_url } => PlanSpec::LookUp(name@, page_url@),
        SourcePlan::Rejected(e) => PlanSpec::Rejected(error_kind(e)),
    }
}

/// A cleaned source whose feed URL is checked last.
pub open spec fn checked_source(name: Seq<char>, rss: Seq<char>, source_type: Seq<char>) -> PlanSpec {
    match feed_url_problem(rss) {
        Some(e) => PlanSpec::Rejected(e),
        None => PlanSpec::Ready(FeedSourceView { name, rss, source_type }),
    }
}

/// How a saved source is cleaned, in the order the checks are made: the type
/// is read first, then the trimmed name and trimmed URL must be non-empty,
/// a YouTube URL is resolved to its channel feed, and the resulting feed URL
/// must parse and use `http` or `https`.
pub open spec fn expected_plan(s: FeedSourceView) -> PlanSpec {
    match source_type_of(s.source_type) {
        Err(l) => PlanSpec::Rejected(SourceErrorKind::UnsupportedSourceType(l)),
        Ok(t) => {
            let name = trim(s.name);
            let rss = trim(s.rss);
            if name.len() == 0 {
                PlanSpec::Rejected(SourceErrorKind::EmptyName)
            } else if rss.len() == 0 {
                PlanSpec::Rejected(SourceErrorKind::MissingFeedUrl(name))
            } else if t == "youtube"@ {
                match youtube_outcome(rss) {
                    YoutubeOutcome::Invalid => PlanSpec::Rejected(
                        SourceErrorKind::InvalidYoutubeUrl(rss),
                    ),
                    YoutubeOutcome::LookUpPage => PlanSpec::LookUp(name, rss),
                    YoutubeOutcome::Feed(u) => checked_source(name, u, t),
                }
            } else {
                checked_source(name, rss, t)
            }
        },
    }
}

/// Cleans one saved feed source, or says which page must be fetched to finish it.
pub fn prepare_source(source: &FeedSource) -> (r: SourcePlan)
    ensures
        plan_spec(r) == expected_plan(source@),
{
    let source_type = match normalize_source_type(source.source_type.as_str()) {
        Ok(t) => t,
        Err(e) => return SourcePlan::Rejected(e),
    };
    let name = trimmed(source.name.as_str());
    let rss = trimmed(source.rss.as_str());
    if name.as_str().is_empty() {
        return SourcePlan::Rejected(SourceError::EmptyName);
    }
    if rss.as_str().is_empty() {
        return SourcePlan::Rejected(SourceError::MissingFeedUrl(name));
    }
    let rss = if str_is(&source_type, "youtube") {
        match normalize_youtube_feed_url(rss.as_str()) {
            YoutubeUrl::Feed(u) => u,
            YoutubeUrl::LookUpPage => {
                return SourcePlan::LookUpYoutubeChannel { name, page_url: rss };
            },
            YoutubeUrl::Invalid(e) => {
                return SourcePlan::Rejected(SourceError::InvalidYoutubeUrl(rss, e));
            },
        }
    } else {
        rss
    };
    match check_feed_url(rss.as_str()) {
        Err(e) => SourcePlan::Rejected(e),
        Ok(()) => SourcePlan::Ready(FeedSource { name, rss, source_type }),
    }
}

/// The source a YouTube channel page completes: the channel feed of the
/// identifier the page names, checked as any feed URL.
pub open spec fn expected_youtube_source(name: Seq<char>, page: Seq<char>) -> Result<
    FeedSourceView,
    SourceErrorKind,
> {
    match youtube_channel_id(page) {
        None => Err(SourceErrorKind::NoYoutubeChannelId),
        Some(id) => {
            let rss = youtube_channel_feed_url(id);
            match feed_url_problem(rss) {
                Some(e) => Err(e),
                None => Ok(FeedSourceView { name, rss, source_type: "youtube"@ }),
            }
        },
    }
}

/// Finishes a YouTube source from its fetched channel page.
pub fn complete_youtube_source(name: &str, page: &str) -> (r: Result<FeedSource, SourceError>)
    ensures
        r matches Ok(s) ==> expected_youtube_source(name@, page@) == Ok::<
            FeedSourceView,
            SourceErrorKind,
        >(s@),
        r matches Err(e) ==> expected_youtube_source(name@, page@) == Err::<
            FeedSourceView,
            SourceErrorKind,
        >(error_kind(e)),
{
    let id = match extract_youtube_channel_id(page) {
        Some(id) => id,
        None => return Err(SourceError::NoYoutubeChannelId),
    };
    let rss = channel_feed_url(id.as_str());
    match check_feed_url(rss.as_str()) {
        Err(e) => Err(e),
        Ok(()) => Ok(FeedSource { name: name.to_owned(), rss, source_type: "youtube".to_owned() }),
    }
}

/// The views of a list of sources.
pub open spec fn sources_view(v: Seq<FeedSource>) -> Seq<FeedSourceView> {
    v.map_values(|s: FeedSource| s@)
}

/// Where saving a list of sources stands after a step.
pub enum SaveStep {
    /// Every source is cleaned; the cleaned list is complete.
    Done,
    /// The next source is a YouTube channel page: fetch `page_url` and hand
    /// the page to [`finish_lookup`].
    LookUp { name: String, page_url: String },
    /// The next source is refused; nothing is to be saved.
    Refused(SourceError),
}

/// Saves sources in order, one step at a time: cleans the sources after the
/// ones already in `cleaned`, appending each ready one, and stops at the
/// first that needs its channel page or is refused, or at the end.
pub fn save_step(sources: &Vec<FeedSource>, cleaned: &mut Vec<FeedSource>) -> (r: SaveStep)
    requires
        old(cleaned).len() <= sources.len(),
    ensures
        old(cleaned).len() <= final(cleaned).len() <= sources.len(),
        sources_view(final(cleaned)@).take(old(cleaned).len() as int) == sources_view(old(cleaned)@),
        forall|i: int|
            old(cleaned).len() <= i < final(cleaned).len() ==> expected_plan(sources@[i]@)
                == PlanSpec::Ready(#[trigger] final(cleaned)@[i]@),
        r is Done <==> final(cleaned).len() == sources.len(),
        r matches SaveStep::LookUp { name, page_url } ==> expected_plan(
            sources@[final(cleaned).len() as int]@,
        ) == PlanSpec::LookUp(name@, page_url@),
        r matches SaveStep::Refused(e) ==> expected_plan(sources@[final(cleaned).len() as int]@)
            == PlanSpec::Rejected(error_kind(e)),
{
    let ghost start = cleaned@;
    while cleaned.len() < sources.len()
        invariant
            start == old(cleaned)@,
            start.len() <= cleaned.len() <= sources.len(),
            sources_view(cleaned@).take(start.len() as int) == sources_view(start),
            forall|i: int|
                start.len() <= i < cleaned.len() ==> expected_plan(sources@[i]@) == PlanSpec::Ready(
                    #[trigger] cleaned@[i]@,
                ),
        decreases sources.len() - cleaned.len(),
    {
        let i = cleaned.len();
        match prepare_source(&sources[i]) {
            SourcePlan::Ready(s) => {
                let ghost before = cleaned@;
                cleaned.push(s);
                assert(sources_view(cleaned@).take(start.len() as int) =~= sources_view(
                    before,
                ).take(start.len() as int));
            },
            SourcePlan::LookUpYoutubeChannel { name, page_url } => {
                return SaveStep::LookUp { name, page_url };
            },
            SourcePlan::Rejected(e) => {
                return SaveStep::Refused(e);
            },
        }
    }
    SaveStep::Done
}

/// Finishes the source after those in `cleaned` from its fetched channel
/// page, appending the completed source; a source that needs no page is
/// cleaned as [`save_step`] would.
pub fn finish_lookup(sources: &Vec<FeedSource>, cleaned: &mut Vec<FeedSource>, page: &str) -> (r: Result<
    (),
    SourceError,
>)
    requires
        old(cleaned).len() < sources.len(),
    ensures
        match expected_plan(sources@[old(cleaned).len() as int]@) {
            PlanSpec::LookUp(name, _) => match expected_youtube_source(name, page@) {
                Ok(c) => r is Ok && sources_view(final(cleaned)@) == sources_view(old(cleaned)@).push(
                    c,
                ),
                Err(k) => r matches Err(e) && error_kind(e) == k && final(cleaned)@ == old(cleaned)@,
            },
            PlanSpec::Ready(c) => r is Ok && sources_view(final(cleaned)@) == sources_view(
                old(cleaned)@,
            ).push(c),
            PlanSpec::Rejected(k) => r matches Err(e) && error_kind(e) == k && final(cleaned)@ == old(
                cleaned,
            )@,
        },
{
    let i = cleaned.len();
    let ghost before = cleaned@;
    match prepare_source(&sources[i]) {
        SourcePlan::Ready(s) => {
            cleaned.push(s);
            assert(sources_view(cleaned@) =~= sources_view(before).push(cleaned@[i as int]@));
            Ok(())
        },
        SourcePlan::LookUpYoutubeChannel { name, page_url } => {
            match complete_youtube_source(name.as_str(), page) {
                Ok(s) => {
                    cleaned.push(s);
                    assert(sources_view(cleaned@) =~= sources_view(before).push(cleaned@[i as int]@));
                    Ok(())
                },
                Err(e) => Err(e),
            }
        },
        SourcePlan::Rejected(e) => Err(e),
    }
}

} // verus!
