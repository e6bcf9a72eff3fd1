//! The requests that sampling a repository needs, and the rule for waiting
//! when the server limits the request rate.
//!
//! Nothing here sends a request. A request is described by an
//! [`ApiRequest`]; the caller sends it, and asks [`handle_rate_limit`] what
//! to do with the answer.

use crate::date::{time_accepts_timestamp, time_unix_now, MAX_UNIX_TIMESTAMP, MIN_UNIX_TIMESTAMP};
use crate::error::CrawlError;
use crate::text::{all_digit_bytes, decimal_digits, digits_number, parse_number, push_decimal};
use vstd::prelude::*;

verus! {

/// The number of entries asked for per page.
pub const STARGAZERS_PER_PAGE: usize = 30;

/// The media type asked for, which makes the server date each entry.
pub open spec fn accept_text() -> Seq<char> {
    "application/vnd.github.v3.star+json"@
}

/// The name under which the client presents itself. The server turns away
/// clients that give none.
pub open spec fn user_agent_text() -> Seq<char> {
    "star-history"@
}

/// The value of the authorization header for `token`.
pub open spec fn authorization_text(token: Seq<char>) -> Seq<char> {
    "token "@ + token
}

/// The address of a repository's description, which holds its current total.
pub open spec fn repo_url(owner: Seq<char>, repo: Seq<char>) -> Seq<char> {
    "https://api.github.com/repos/"@ + owner + "/"@ + repo
}

/// The address of a page of a repository's stargazers: of page `page`, or of
/// the page that the server gives first where none is named.
pub open spec fn stargazers_url(
    owner: Seq<char>,
    repo: Seq<char>,
    per_page: nat,
    page: Option<nat>,
) -> Seq<char> {
    let first = repo_url(owner, repo) + "/stargazers?per_page="@ + decimal_digits(per_page);
    match page {
        Some(number) => first + "&page="@ + decimal_digits(number),
        None => first,
    }
}

/// A repository and the credential for asking about it.
#[derive(Debug, Clone)]
pub struct Github {
    pub owner: String,
    pub repo: String,
    pub token: String,
}

/// A GET request: its address and the headers that every request carries.
#[derive(Debug, Clone)]
pub struct ApiRequest {
    pub url: String,
    pub accept: String,
    pub user_agent: String,
    pub authorization: String,
}

/// What to do with an answer under the rate-limit protocol.
#[derive(Debug, Clone, Copy, PartialEq, Eq, Structural)]
pub enum RateLimit {
    /// The answer is not a rate-limit answer: hand it on.
    Proceed,
    /// The server limits the rate: wait this many seconds, then send the same
    /// request again.
    Wait { seconds: u64 },
}

/// Whether a status is one with which the server limits the request rate.
pub open spec fn is_rate_limited(status: u16) -> bool {
    status == 429 || status == 403
}

/// The reset time that a header value names, in seconds since the Unix
/// epoch: a decimal integer, with or without a sign, that `time` can name.
pub open spec fn reset_time(header: Seq<u8>) -> Option<int> {
    let signed = header.len() > 0 && (header[0] == 45 || header[0] == 43);
    let digits = if signed {
        header.skip(1)
    } else {
        header
    };
    let seconds = if signed && header[0] == 45 {
        -digits_number(digits)
    } else {
        digits_number(digits) as int
    };
    if digits.len() > 0 && all_digit_bytes(digits) && MIN_UNIX_TIMESTAMP <= seconds
        <= MAX_UNIX_TIMESTAMP {
        Some(seconds)
    } else {
        None
    }
}

/// The decision for an answer with the given status and reset header,
/// received at `now` seconds since the Unix epoch.
///
/// An answer with another status than 429 and 403 is handed on. A
/// rate-limited answer must name its reset time; the wait lasts until then,
/// and is zero when that time has passed.
pub open spec fn rate_limit_decision(status: u16, reset: Option<Seq<u8>>, now: int) -> Result<
    RateLimit,
    CrawlError,
> {
    if !is_rate_limited(status) {
        Ok(RateLimit::Proceed)
    } else {
        match reset {
            None => Err(CrawlError::MissingRateLimitHeader),
            Some(header) => match reset_time(header) {
                None => Err(CrawlError::InvalidRateLimitReset),
                Some(time) => Ok(
                    RateLimit::Wait {
                        seconds: if time > now {
                            (time - now) as u64
                        } else {
                            0
                        },
                    },
                ),
            },
        }
    }
}

/// The bytes of a header value, where the answer has the header.
pub open spec fn header_view(header: Option<&[u8]>) -> Option<Seq<u8>> {
    match header {
        Some(value) => Some(value@),
        None => None,
    }
}

/// Reads the reset time of a rate-limited answer.
pub fn parse_reset_time(header: &[u8]) -> (time: Option<i64>)
    ensures
        match reset_time(header@) {
            Some(seconds) => time == Some(seconds as i64),
            None => time is None,
        },
{
    let signed = header.len() > 0 && (header[0] == 45 || header[0] == 43);
    let start: usize = if signed {
        1
    } else {
        0
    };
    assert(header@.subrange(start as int, header@.len() as int) =~= if signed {
        header@.skip(1)
    } else {
        header@
    });
    match parse_number(header, start, header.len(), 377_705_116_800) {
        None => None,
        Some(magnitude) => {
            let seconds: i64 = if signed && header[0] == 45 {
                -(magnitude as i64)
            } else {
                magnitude as i64
            };
            if time_accepts_timestamp(seconds) {
                Some(seconds)
            } else {
                None
            }
        },
    }
}

/// Decides what to do with an answer of the given status, whose reset header
/// is `reset` where it has one, at `now` seconds since the Unix epoch.
pub fn handle_rate_limit_at(status: u16, reset: Option<&[u8]>, now: i64) -> (decision: Result<
    RateLimit,
    CrawlError,
>)
    ensures
        decision == rate_limit_decision(status, header_view(reset), now as int),
{
    if status != 429 && status != 403 {
        return Ok(RateLimit::Proceed);
    }
    match reset {
        None => Err(CrawlError::MissingRateLimitHeader),
        Some(header) => match parse_reset_time(header) {
            None => Err(CrawlError::InvalidRateLimitReset),
            Some(time) => {
                let seconds: u64 = if time > now {
                    ((time as i128) - (now as i128)) as u64
                } else {
                    0
                };
                Ok(RateLimit::Wait { seconds })
            },
        },
    }
}

/// Decides what to do with an answer that has just arrived: as
/// [`handle_rate_limit_at`] does, at the time that the clock shows.
pub fn handle_rate_limit(status: u16, reset: Option<&[u8]>) -> (decision: Result<
    RateLimit,
    CrawlError,
>)
    ensures
        exists|now: int|
            decision == #[trigger] rate_limit_decision(status, header_view(reset), now),
        !is_rate_limited(status) ==> decision == Ok::<RateLimit, CrawlError>(RateLimit::Proceed),
        is_rate_limited(status) && reset is None ==> decision == Err::<RateLimit, CrawlError>(
            CrawlError::MissingRateLimitHeader,
        ),
{
    let now = time_unix_now();
    handle_rate_limit_at(status, reset, now)
}

impl Github {
    /// A repository named by its owner and its name, asked about with `token`.
    pub fn new(owner: String, repo: String, token: String) -> (github: Github)
        ensures
            github.owner == owner,
            github.repo == repo,
            github.token == token,
    {
        Github { owner, repo, token }
    }

    /// The request to `url` with the headers that every request carries.
    pub fn api_call(&self, url: String) -> (request: ApiRequest)
        ensures
            request.url@ == url@,
            request.accept@ == accept_text(),
            request.user_agent@ == user_agent_text(),
            request.authorization@ == authorization_text(self.token@),
    {
        let mut authorization = String::from_str("token ");
        authorization.append(self.token.as_str());
        ApiRequest {
            url,
            accept: String::from_str("application/vnd.github.v3.star+json"),
            user_agent: String::from_str("star-history"),
            authorization,
        }
    }

    /// The request for the repository's description, which holds its current
    /// total of stargazers.
    pub fn star_count(&self) -> (request: ApiRequest)
        ensures
            request.url@ == repo_url(self.owner@, self.repo@),
            request.accept@ == accept_text(),
            request.user_agent@ == user_agent_text(),
            request.authorization@ == authorization_text(self.token@),
    {
        let mut url = String::from_str("https://api.github.com/repos/");
        url.append(self.owner.as_str());
        url.append("/");
        url.append(self.repo.as_str());
        self.api_call(url)
    }

    /// The request for one page of the repository's stargazers: for page
    /// `page`, or for the page that the server gives first where none is
    /// named.
    pub fn stargazers(&self, page: Option<usize>) -> (request: ApiRequest)
        ensures
            request.url@ == stargazers_url(
                self.owner@,
                self.repo@,
                STARGAZERS_PER_PAGE as nat,
                match page {
                    Some(number) => Some(number as nat),
                    None => None,
                },
            ),
            request.accept@ == accept_text(),
            request.user_agent@ == user_agent_text(),
            request.authorization@ == authorization_text(self.token@),
    {
        let mut url = String::from_str("https://api.github.com/repos/");
        url.append(self.owner.as_str());
        url.append("/");
        url.append(self.repo.as_str());
        url.append("/stargazers?per_page=");
        push_decimal(&mut url, STARGAZERS_PER_PAGE);
        if let Some(number) = page {
            url.append("&page=");
            push_decimal(&mut url, number);
        }
        self.api_call(url)
    }
}

} // verus!
