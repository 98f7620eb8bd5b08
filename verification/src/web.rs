//! What the library asks of the `url` crate, and the link checks built on it.

use vstd::prelude::*;
use crate::text::{ends_with, is_suffix};

verus! {

/// Why `url::Url::parse` refused a link: the kinds of `url::ParseError`.
#[derive(Debug, Clone, Copy, PartialEq, Eq, Structural)]
pub enum UrlError {
    EmptyHost,
    IdnaError,
    InvalidPort,
    InvalidIpv4Address,
    InvalidIpv6Address,
    InvalidDomainCharacter,
    RelativeUrlWithoutBase,
    RelativeUrlWithCannotBeABaseBase,
    SetHostOnCannotBeABaseUrl,
    Overflow,
    /// A kind that a later version of the `url` crate may add.
    Unlisted,
}

/// What `url::Url::parse` makes of `input`: the serialization of the parsed
/// URL, or the kind of error it refuses the input with.
pub uninterp spec fn url_parse_result(input: Seq<char>) -> Result<Seq<char>, UrlError>;

/// The serialization of the URL parsed from `input`, or `None` where
/// `url::Url::parse` refuses it.
pub open spec fn parsed_url(input: Seq<char>) -> Option<Seq<char>> {
    match url_parse_result(input) {
        Ok(s) => Some(s),
        Err(_) => None,
    }
}

/// `{:?}` of the URL that `url::Url::parse` makes of `input` (its scheme,
/// user, host, port, path, query and fragment), or `None` where the parse fails.
pub uninterp spec fn url_debug_of(input: Seq<char>) -> Option<Seq<char>>;

/// The host of the URL that `url::Url::parse` makes of `input`, where the
/// parse succeeds and the host is a domain name (not an IP address).
pub uninterp spec fn url_domain_of(input: Seq<char>) -> Option<Seq<char>>;

/// Calls `url::Url::parse` and hands back the parsed URL's serialization, or
/// the kind of its error. Trusted: that the result is `url_parse_result` of
/// the input, a function of the input alone, and that the error is one of the
/// ten kinds that `url` 2.5 has (never `Unlisted`); nothing is claimed of the
/// serialization's text.
#[verifier::external_body]
pub(crate) fn parse_url(input: &str) -> (r: Result<String, UrlError>)
    ensures
        match r {
            Ok(s) => url_parse_result(input@) == Ok::<Seq<char>, UrlError>(s@),
            Err(e) => url_parse_result(input@) == Err::<Seq<char>, UrlError>(e) && e != UrlError::Unlisted,
        },
{
    match url::Url::parse(input) {
        Ok(u) => Ok(String::from(u)),
        Err(url::ParseError::EmptyHost) => Err(UrlError::EmptyHost),
        Err(url::ParseError::IdnaError) => Err(UrlError::IdnaError),
        Err(url::ParseError::InvalidPort) => Err(UrlError::InvalidPort),
        Err(url::ParseError::InvalidIpv4Address) => Err(UrlError::InvalidIpv4Address),
        Err(url::ParseError::InvalidIpv6Address) => Err(UrlError::InvalidIpv6Address),
        Err(url::ParseError::InvalidDomainCharacter) => Err(UrlError::InvalidDomainCharacter),
        Err(url::ParseError::RelativeUrlWithoutBase) => Err(UrlError::RelativeUrlWithoutBase),
        Err(url::ParseError::RelativeUrlWithCannotBeABaseBase) => Err(UrlError::RelativeUrlWithCannotBeABaseBase),
        Err(url::ParseError::SetHostOnCannotBeABaseUrl) => Err(UrlError::SetHostOnCannotBeABaseUrl),
        Err(url::ParseError::Overflow) => Err(UrlError::Overflow),
        Err(_) => Err(UrlError::Unlisted),
    }
}

/// Calls `url::Url::parse` and formats the URL with its `Debug`. Trusted: the
/// text is `url_debug_of` the input, there exactly when the parse succeeds.
#[verifier::external_body]
pub(crate) fn url_debug(input: &str) -> (r: Option<String>)
    ensures
        match r {
            Some(t) => url_debug_of(input@) == Some(t@),
            None => url_debug_of(input@) is None,
        },
        r is Some <==> url_parse_result(input@) is Ok,
{
    match url::Url::parse(input) {
        Ok(u) => Some(format!("{:?}", u)),
        Err(_) => None,
    }
}

/// Calls `url::Url::parse` and then `Url::domain`, handing back the domain.
/// Trusted: that the result is `url_domain_of` of the input.
#[verifier::external_body]
fn url_domain(input: &str) -> (r: Option<String>)
    ensures
        match r {
            Some(d) => url_domain_of(input@) == Some(d@),
            None => url_domain_of(input@).is_none(),
        },
{
    match url::Url::parse(input) {
        Ok(u) => match u.domain() {
            Some(d) => Some(d.to_string()),
            None => None,
        },
        Err(_) => None,
    }
}

/// A link is a web link for the generic downloader whenever there is one.
pub fn valid_http_url(url: Option<&str>) -> (r: bool)
    ensures
        r == url.is_some(),
{
    url.is_some()
}

/// The domain suffixes of the video site.
pub open spec fn is_video_domain(d: Seq<char>) -> bool {
    is_suffix("youtube.com"@, d) || is_suffix("youtu.be"@, d)
}

/// A link is a video link when its domain ends in `youtube.com` or `youtu.be`.
pub open spec fn spec_valid_video_url(url: Option<Seq<char>>) -> bool {
    match url {
        Some(u) => match url_domain_of(u) {
            Some(d) => is_video_domain(d),
            None => false,
        },
        None => false,
    }
}

/// Whether `url` is a link the video downloader handles.
pub fn valid_video_url(url: Option<&str>) -> (r: bool)
    ensures
        r == spec_valid_video_url(match url { Some(u) => Some(u@), None => None }),
{
    if let Some(u) = url {
        if let Some(domain) = url_domain(u) {
            return ends_with(domain.as_str(), "youtube.com") || ends_with(domain.as_str(), "youtu.be");
        }
    }
    false
}

} // verus!
