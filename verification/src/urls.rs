//! What the feed reader reads from a parsed URL, and the decisions it makes
//! on it: feed-URL validation, external-link checks, and the `v` query
//! parameter of a video link.

use vstd::prelude::*;
use crate::text::{trim, trimmed};
use crate::trusted::{parse_url, url_parse_result};

verus! {

/// The parts of a parsed URL that the library reads.
pub struct UrlParts {
    pub scheme: String,
    pub host: Option<String>,
    pub path: String,
    pub query: Option<String>,
    /// The query decoded as `application/x-www-form-urlencoded` pairs.
    pub query_pairs: Vec<(String, String)>,
}

/// The mathematical content of [`UrlParts`].
pub struct UrlPartsView {
    pub scheme: Seq<char>,
    pub host: Option<Seq<char>>,
    pub path: Seq<char>,
    pub query: Option<Seq<char>>,
    pub query_pairs: Seq<(Seq<char>, Seq<char>)>,
}

/// The characters of an optional string.
pub open spec fn opt_view(s: Option<String>) -> Option<Seq<char>> {
    match s {
        Some(x) => Some(x@),
        None => None,
    }
}

/// The characters of each string of a list of pairs.
pub open spec fn pairs_view(v: Seq<(String, String)>) -> Seq<(Seq<char>, Seq<char>)> {
    v.map_values(|p: (String, String)| (p.0@, p.1@))
}

impl View for UrlParts {
    type V = UrlPartsView;

    open spec fn view(&self) -> UrlPartsView {
        UrlPartsView {
            scheme: self.scheme@,
            host: opt_view(self.host),
            path: self.path@,
            query: opt_view(self.query),
            query_pairs: pairs_view(self.query_pairs@),
        }
    }
}

/// Whether a string equals a literal.
pub fn str_is(a: &String, b: &str) -> (r: bool)
    ensures
        r == (a@ == b@),
{
    let b_owned: String = b.to_owned();
    *a == b_owned
}

/// The scheme is one a web view can load.
pub open spec fn is_web_scheme(scheme: Seq<char>) -> bool {
    scheme == "http"@ || scheme == "https"@
}

/// Why a feed URL was refused.
pub enum FeedUrlError {
    /// The URL does not parse; the parser's error is kept.
    Invalid(url::ParseError),
    /// The URL parses but its scheme is neither `http` nor `https`.
    UnsupportedScheme(String),
}

/// The outcome of checking a feed URL, in terms of what the URL parser yields.
pub open spec fn feed_url_accepted(url: Seq<char>) -> bool {
    match url_parse_result(url) {
        Some(p) => is_web_scheme(p.scheme),
        None => false,
    }
}

/// Checks that `url` parses and uses `http` or `https`.
pub fn validate_feed_url(url: &str) -> (r: Result<(), FeedUrlError>)
    ensures
        r is Ok <==> feed_url_accepted(url@),
        r matches Err(FeedUrlError::Invalid(_)) <==> url_parse_result(url@) is None,
        r matches Err(FeedUrlError::UnsupportedScheme(s)) ==> url_parse_result(url@) matches Some(
            p,
        ) && s@ == p.scheme,
{
    match parse_url(url) {
        Err(e) => Err(FeedUrlError::Invalid(e)),
        Ok(parts) => {
            if str_is(&parts.scheme, "http") || str_is(&parts.scheme, "https") {
                Ok(())
            } else {
                Err(FeedUrlError::UnsupportedScheme(parts.scheme))
            }
        },
    }
}

/// The value of the first query pair named `key` in `pairs`.
pub open spec fn first_pair_value(pairs: Seq<(Seq<char>, Seq<char>)>, key: Seq<char>) -> Option<
    Seq<char>,
>
    decreases pairs.len(),
{
    if pairs.len() == 0 {
        None
    } else if pairs[0].0 == key {
        Some(pairs[0].1)
    } else {
        first_pair_value(pairs.drop_first(), key)
    }
}

/// The video identifier of a link: the first `v` query parameter, if the link parses.
pub open spec fn youtube_video_id(link: Seq<char>) -> Option<Seq<char>> {
    match url_parse_result(link) {
        Some(p) => first_pair_value(p.query_pairs, "v"@),
        None => None,
    }
}

/// The first `v` query parameter of a link, if the link parses as a URL.
pub fn get_youtube_video_id(link: &str) -> (r: Option<String>)
    ensures
        opt_view(r) == youtube_video_id(link@),
{
    let parts = match parse_url(link) {
        Ok(p) => p,
        Err(_) => return None,
    };
    let ghost pv = parts@.query_pairs;
    assert(youtube_video_id(link@) == first_pair_value(pv, "v"@));
    let mut i: usize = 0;
    assert(pv.skip(0) =~= pv);
    while i < parts.query_pairs.len()
        invariant
            i <= parts.query_pairs.len(),
            pv == pairs_view(parts.query_pairs@),
            pv.len() == parts.query_pairs.len(),
            youtube_video_id(link@) == first_pair_value(pv, "v"@),
            first_pair_value(pv, "v"@) == first_pair_value(pv.skip(i as int), "v"@),
        decreases parts.query_pairs.len() - i,
    {
        let pair = &parts.query_pairs[i];
        assert(pv[i as int] == (pair.0@, pair.1@));
        assert(pv.skip(i as int)[0] == pv[i as int]);
        if str_is(&pair.0, "v") {
            let value = pair.1.clone();
            assert(value@ == pv.skip(i as int)[0].1);
            return Some(value);
        }
        assert(pv.skip(i as int).drop_first() =~= pv.skip(i + 1));
        i = i + 1;
    }
    assert(pv.skip(i as int).len() == 0);
    None
}

/// Why a link was not opened in the browser.
pub enum ExternalUrlError {
    /// The link does not parse as a URL; the parser's error is kept.
    Invalid(url::ParseError),
    /// The link is not an `http` or `https` link.
    NotWeb,
}

/// Checks a link before it is handed to the system browser: the trimmed link
/// must parse and use `http` or `https`. Returns the trimmed link.
pub fn check_external_url(url: &str) -> (r: Result<String, ExternalUrlError>)
    ensures
        r matches Ok(s) ==> s@ == trim(url@),
        r is Ok <==> feed_url_accepted(trim(url@)),
        r matches Err(ExternalUrlError::Invalid(_)) <==> url_parse_result(trim(url@)) is None,
{
    let t = trimmed(url);
    match parse_url(t.as_str()) {
        Err(e) => Err(ExternalUrlError::Invalid(e)),
        Ok(parts) => {
            if str_is(&parts.scheme, "http") || str_is(&parts.scheme, "https") {
                Ok(t)
            } else {
                Err(ExternalUrlError::NotWeb)
            }
        },
    }
}

} // verus!
