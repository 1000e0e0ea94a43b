//! Calls into std and outside crates whose behaviour Verus takes on trust.
//! Each item states what the called function's documentation or source shows.

use vstd::prelude::*;
use sha2::{Digest, Sha256};
use crate::urls::{UrlParts, UrlPartsView};

verus! {

/// Appends one character to a string (`String::push`): the string's
/// characters afterwards are the old ones followed by `c`.
#[verifier::external_body]
pub(crate) fn push_char(s: &mut String, c: char)
    ensures
        final(s)@ == old(s)@.push(c),
{
    s.push(c);
}

/// The parser's error type of the `url` crate.
#[verifier::external_type_specification]
#[verifier::external_body]
pub struct ExUrlParseError(url::ParseError);

/// What `url::Url::parse` yields for an input: `None` when parsing fails,
/// else the URL's scheme, host, path, query and decoded query pairs.
pub uninterp spec fn url_parse_result(input: Seq<char>) -> Option<UrlPartsView>;

/// Parses an absolute URL with `url::Url::parse` and reads `scheme()`,
/// `host_str()`, `path()`, `query()` and `query_pairs()` of the result.
/// Claimed: the outcome is a function of the input alone, named
/// [`url_parse_result`]; nothing more is stated of the parser.
#[verifier::external_body]
pub(crate) fn parse_url(input: &str) -> (r: Result<UrlParts, url::ParseError>)
    ensures
        r matches Ok(p) ==> url_parse_result(input@) == Some(p@),
        r is Err ==> url_parse_result(input@) is None,
{
    let u = url::Url::parse(input)?;
    Ok(UrlParts {
        scheme: u.scheme().to_string(),
        host: u.host_str().map(|h| h.to_string()),
        path: u.path().to_string(),
        query: u.query().map(|q| q.to_string()),
        query_pairs: u.query_pairs().map(|(k, v)| (k.into_owned(), v.into_owned())).collect(),
    })
}

/// What `str::to_lowercase` returns for a string: its Unicode lowercase mapping.
pub uninterp spec fn unicode_lowercase(s: Seq<char>) -> Seq<char>;

/// Lowercases a string with `str::to_lowercase`. Claimed: the result is a
/// function of the input alone, named [`unicode_lowercase`].
#[verifier::external_body]
pub(crate) fn to_lowercase(s: &str) -> (r: String)
    ensures
        r@ == unicode_lowercase(s@),
{
    s.to_lowercase()
}

/// The SHA-256 digest of a byte sequence.
pub uninterp spec fn sha256_digest(data: Seq<u8>) -> Seq<u8>;

/// Hashes bytes with `sha2::Sha256` (`new`, `update`, `finalize`). Claimed:
/// the digest is a function of the bytes alone, named [`sha256_digest`], and
/// is 32 bytes long (the output size of SHA-256).
#[verifier::external_body]
pub(crate) fn sha256(data: &[u8]) -> (r: Vec<u8>)
    ensures
        r@ == sha256_digest(data@),
        r@.len() == 32,
{
    let mut hasher = Sha256::new();
    hasher.update(data);
    hasher.finalize().to_vec()
}

/// A point in time of the system clock (`std::time::SystemTime`).
#[verifier::external_type_specification]
#[verifier::external_body]
pub struct ExSystemTime(std::time::SystemTime);

/// The error `SystemTime::duration_since` gives for a time before the reference point.
#[verifier::external_type_specification]
#[verifier::external_body]
pub struct ExSystemTimeError(std::time::SystemTimeError);

/// Reads the system clock (`SystemTime::now`). Nothing is stated of the
/// value: it is the time.
#[verifier::external_body]
pub(crate) fn system_now() -> (r: std::time::SystemTime) {
    std::time::SystemTime::now()
}

/// The time elapsed from the Unix epoch to `t` (`SystemTime::duration_since`
/// with `UNIX_EPOCH`); an error when `t` is before the epoch. Nothing is
/// stated of the value, which depends on the clock reading.
#[verifier::external_body]
pub(crate) fn since_unix_epoch(t: &std::time::SystemTime) -> (r: Result<
    std::time::Duration,
    std::time::SystemTimeError,
>) {
    t.duration_since(std::time::UNIX_EPOCH)
}

/// The whole seconds of a duration (`Duration::as_secs`). Nothing is stated
/// of the value: the durations this library reads come from the clock.
#[verifier::external_body]
pub(crate) fn whole_seconds(d: &std::time::Duration) -> (r: u64) {
    d.as_secs()
}

} // verus!
