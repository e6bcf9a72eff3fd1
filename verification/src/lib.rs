//! Reconstructs how a repository's stargazer count grew over time from a
//! bounded number of requests against a paginated listing.
//!
//! The crate holds the decisions of that reconstruction: which pages to ask
//! for, how fetched pages become dated points, how the points are ordered,
//! when the current total is appended, and how long to wait when the server
//! limits the request rate. Performing the requests is left to the caller.

pub mod crawler;
pub mod date;
pub mod error;
pub mod github;
pub mod link;
pub mod plan;
pub mod record;
pub mod repos;
pub mod sample;
pub mod text;
