use star_history::error::CrawlError;
use star_history::github::{
    handle_rate_limit, handle_rate_limit_at, parse_reset_time, Github, RateLimit,
    STARGAZERS_PER_PAGE,
};

fn github() -> Github {
    Github::new("rust-lang".to_owned(), "rust".to_owned(), "t0ken".to_owned())
}

#[test]
fn github_holds_what_it_was_given() {
    let github = github();
    assert_eq!(github.owner, "rust-lang");
    assert_eq!(github.repo, "rust");
    assert_eq!(github.token, "t0ken");
}

#[test]
fn thirty_entries_are_asked_for_per_page() {
    assert_eq!(STARGAZERS_PER_PAGE, 30);
}

#[test]
fn star_count_asks_for_the_repository() {
    let request = github().star_count();
    assert_eq!(request.url, "https://api.github.com/repos/rust-lang/rust");
}

#[test]
fn stargazers_asks_for_the_first_page_without_a_number() {
    let request = github().stargazers(None);
    assert_eq!(
        request.url,
        "https://api.github.com/repos/rust-lang/rust/stargazers?per_page=30"
    );
}

#[test]
fn stargazers_asks_for_a_numbered_page() {
    assert_eq!(
        github().stargazers(Some(334)).url,
        "https://api.github.com/repos/rust-lang/rust/stargazers?per_page=30&page=334"
    );
    assert_eq!(
        github().stargazers(Some(0)).url,
        "https://api.github.com/repos/rust-lang/rust/stargazers?per_page=30&page=0"
    );
    assert_eq!(
        github().stargazers(Some(1)).url,
        "https://api.github.com/repos/rust-lang/rust/stargazers?per_page=30&page=1"
    );
}

#[test]
fn every_request_carries_the_same_headers() {
    let github = github();
    for request in [
        github.star_count(),
        github.stargazers(None),
        github.stargazers(Some(2)),
        github.api_call("https://example.org/".to_owned()),
    ] {
        assert_eq!(request.accept, "application/vnd.github.v3.star+json");
        assert_eq!(request.user_agent, "star-history");
        assert_eq!(request.authorization, "token t0ken");
    }
}

#[test]
fn api_call_keeps_the_address() {
    let request = github().api_call("https://example.org/x?y=z".to_owned());
    assert_eq!(request.url, "https://example.org/x?y=z");
}

#[test]
fn answers_that_are_not_rate_limited_are_handed_on() {
    for status in [200u16, 201, 204, 301, 304, 400, 401, 404, 422, 428, 430, 500, 502, 503] {
        assert_eq!(handle_rate_limit_at(status, None, 1_000), Ok(RateLimit::Proceed));
        assert_eq!(
            handle_rate_limit_at(status, Some(b"2000"), 1_000),
            Ok(RateLimit::Proceed)
        );
        assert_eq!(handle_rate_limit_at(status, Some(b"soon"), 1_000), Ok(RateLimit::Proceed));
        assert_eq!(handle_rate_limit(status, None), Ok(RateLimit::Proceed));
    }
}

#[test]
fn rate_limited_answer_waits_until_the_reset_time() {
    assert_eq!(
        handle_rate_limit_at(429, Some(b"1372700873"), 1_372_700_800),
        Ok(RateLimit::Wait { seconds: 73 })
    );
    assert_eq!(
        handle_rate_limit_at(403, Some(b"1372700873"), 1_372_700_872),
        Ok(RateLimit::Wait { seconds: 1 })
    );
}

#[test]
fn reset_time_that_has_passed_means_no_wait() {
    assert_eq!(
        handle_rate_limit_at(429, Some(b"1372700873"), 1_372_700_873),
        Ok(RateLimit::Wait { seconds: 0 })
    );
    assert_eq!(
        handle_rate_limit_at(429, Some(b"1372700873"), 1_700_000_000),
        Ok(RateLimit::Wait { seconds: 0 })
    );
    assert_eq!(
        handle_rate_limit_at(403, Some(b"0"), i64::MAX),
        Ok(RateLimit::Wait { seconds: 0 })
    );
}

#[test]
fn wait_is_computed_without_overflow() {
    assert_eq!(
        handle_rate_limit_at(429, Some(b"253402300799"), i64::MIN),
        Ok(RateLimit::Wait { seconds: 9_223_372_290_257_076_607 })
    );
    assert_eq!(
        handle_rate_limit_at(429, Some(b"-377705116800"), i64::MIN),
        Ok(RateLimit::Wait { seconds: 9_223_371_659_149_659_008 })
    );
}

#[test]
fn rate_limited_answer_without_reset_header_fails() {
    assert_eq!(
        handle_rate_limit_at(429, None, 1_000),
        Err(CrawlError::MissingRateLimitHeader)
    );
    assert_eq!(
        handle_rate_limit_at(403, None, 1_000),
        Err(CrawlError::MissingRateLimitHeader)
    );
    assert_eq!(handle_rate_limit(429, None), Err(CrawlError::MissingRateLimitHeader));
    assert_eq!(handle_rate_limit(403, None), Err(CrawlError::MissingRateLimitHeader));
}

#[test]
fn rate_limited_answer_with_unreadable_reset_header_fails() {
    for header in ["", "soon", "12 ", " 12", "1.5", "0x10", "+", "-", "1e3", "١٢"] {
        assert_eq!(
            handle_rate_limit_at(429, Some(header.as_bytes()), 1_000),
            Err(CrawlError::InvalidRateLimitReset),
            "{}",
            header
        );
        assert_eq!(
            handle_rate_limit(403, Some(header.as_bytes())),
            Err(CrawlError::InvalidRateLimitReset)
        );
    }
}

#[test]
fn reset_time_may_carry_a_sign() {
    assert_eq!(parse_reset_time(b"1372700873"), Some(1_372_700_873));
    assert_eq!(parse_reset_time(b"+1372700873"), Some(1_372_700_873));
    assert_eq!(parse_reset_time(b"-1372700873"), Some(-1_372_700_873));
    assert_eq!(parse_reset_time(b"0"), Some(0));
    assert_eq!(parse_reset_time(b"-0"), Some(0));
    assert_eq!(parse_reset_time(b"0001"), Some(1));
}

#[test]
fn reset_time_must_be_a_time_that_can_be_named() {
    assert_eq!(parse_reset_time(b"253402300799"), Some(253_402_300_799));
    assert_eq!(parse_reset_time(b"253402300800"), None);
    assert_eq!(parse_reset_time(b"377705116800"), None);
    assert_eq!(parse_reset_time(b"-377705116800"), Some(-377_705_116_800));
    assert_eq!(parse_reset_time(b"-377705116801"), None);
    assert_eq!(parse_reset_time(b"9223372036854775807"), None);
    assert_eq!(parse_reset_time(b"-9223372036854775808"), None);
    assert_eq!(parse_reset_time(b"99999999999999999999999999"), None);
}

#[test]
fn reset_time_agrees_with_time_at_the_edges() {
    for seconds in [
        -377_705_116_801i64,
        -377_705_116_800,
        -1,
        0,
        1,
        253_402_300_799,
        253_402_300_800,
    ] {
        let text = seconds.to_string();
        let expected = time::OffsetDateTime::from_unix_timestamp(seconds).ok().map(|_| seconds);
        assert_eq!(parse_reset_time(text.as_bytes()), expected);
    }
}

#[test]
fn two_rate_limited_answers_then_success() {
    let answers: Vec<(u16, Option<&[u8]>, &str)> = vec![
        (429, Some(b"1000"), "slow down"),
        (429, Some(b"1500"), "slow down"),
        (200, None, "the body"),
    ];
    let now = 2_000;
    let mut waits: Vec<u64> = Vec::new();
    let mut sent = 0;
    let body = loop {
        let (status, reset, body) = answers[sent];
        sent += 1;
        match handle_rate_limit_at(status, reset, now) {
            Ok(RateLimit::Proceed) => break Ok(body),
            Ok(RateLimit::Wait { seconds }) => waits.push(seconds),
            Err(error) => break Err(error),
        }
    };
    assert_eq!(body, Ok("the body"));
    assert_eq!(sent, 3);
    assert!(waits.len() >= 2);
    assert_eq!(waits, vec![0, 0]);
}

#[test]
fn rate_limited_answer_at_the_current_time_with_a_past_reset_means_no_wait() {
    assert_eq!(handle_rate_limit(429, Some(b"1000")), Ok(RateLimit::Wait { seconds: 0 }));
    assert_eq!(handle_rate_limit(403, Some(b"-5")), Ok(RateLimit::Wait { seconds: 0 }));
}

#[test]
fn rate_limited_answer_at_the_current_time_with_a_far_reset_waits() {
    match handle_rate_limit(429, Some(b"253402300799")) {
        Ok(RateLimit::Wait { seconds }) => {
            assert!(seconds > 0);
            assert!(seconds < 253_402_300_799);
        }
        other => panic!("{:?}", other),
    }
}
