//! The ways in which sampling a repository can fail.

use crate::text::{decimal_digits, push_decimal};
use vstd::prelude::*;

verus! {

/// Why a sampling run, or one request of it, was given up.
#[derive(Debug, Clone, Copy, PartialEq, Eq, Structural)]
pub enum CrawlError {
    /// The request did not reach the server or the answer did not arrive.
    Transport,
    /// A required request was answered with a status other than 200.
    Upstream { status: u16 },
    /// The first page did not say how many pages the collection has.
    MissingPaginationMetadata,
    /// A rate-limited answer did not say when the limit is lifted.
    MissingRateLimitHeader,
    /// A rate-limited answer named a reset time that is no Unix timestamp.
    InvalidRateLimitReset,
    /// The body of an answer was not of the expected shape.
    MalformedBody,
    /// An entry's timestamp is not written in ISO 8601.
    InvalidTimestamp,
    /// A record's date is not written as `YYYY-MM-DD`.
    InvalidDate,
    /// A count of entries does not fit the machine's integers.
    CountOverflow,
}

/// What an error says of itself, in words.
pub open spec fn message_text(error: CrawlError) -> Seq<char> {
    match error {
        CrawlError::Transport => "The request failed"@,
        CrawlError::Upstream { status } => "Response status: "@ + decimal_digits(status as nat),
        CrawlError::MissingPaginationMetadata => "No page count found in the link header"@,
        CrawlError::MissingRateLimitHeader => "Missing x-ratelimit-reset header"@,
        CrawlError::InvalidRateLimitReset => "The x-ratelimit-reset header is no timestamp"@,
        CrawlError::MalformedBody => "The response body has an unexpected shape"@,
        CrawlError::InvalidTimestamp => "A timestamp is not written in ISO 8601"@,
        CrawlError::InvalidDate => "A date is not written as YYYY-MM-DD"@,
        CrawlError::CountOverflow => "A count of stargazers is too large"@,
    }
}

impl CrawlError {
    /// Says in words what went wrong.
    pub fn message(&self) -> (text: String)
        ensures
            text@ == message_text(*self),
    {
        match self {
            CrawlError::Transport => String::from_str("The request failed"),
            CrawlError::Upstream { status } => {
                let mut text = String::from_str("Response status: ");
                push_decimal(&mut text, *status as usize);
                text
            },
            CrawlError::MissingPaginationMetadata => String::from_str(
                "No page count found in the link header",
            ),
            CrawlError::MissingRateLimitHeader => String::from_str(
                "Missing x-ratelimit-reset header",
            ),
            CrawlError::InvalidRateLimitReset => String::from_str(
                "The x-ratelimit-reset header is no timestamp",
            ),
            CrawlError::MalformedBody => String::from_str(
                "The response body has an unexpected shape",
            ),
            CrawlError::InvalidTimestamp => String::from_str(
                "A timestamp is not written in ISO 8601",
            ),
            CrawlError::InvalidDate => String::from_str("A date is not written as YYYY-MM-DD"),
            CrawlError::CountOverflow => String::from_str("A count of stargazers is too large"),
        }
    }
}

} // verus!
