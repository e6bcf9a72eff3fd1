use star_history::error::CrawlError;
use star_history::link::{
    entry_is_last, find, find_last_page_url, find_page_parameter, get_page_count, tags_last,
};

const GITHUB: &str = "<https://api.github.com/repositories/1300192/stargazers?per_page=30&page=2>; rel=\"next\", <https://api.github.com/repositories/1300192/stargazers?per_page=30&page=334>; rel=\"last\"";

fn count(header: &str) -> Result<usize, CrawlError> {
    get_page_count(Some(header.as_bytes()))
}

#[test]
fn page_count_is_read_from_the_entry_tagged_last() {
    assert_eq!(count(GITHUB), Ok(334));
}

#[test]
fn page_count_does_not_depend_on_the_order_of_the_entries() {
    assert_eq!(
        count("<https://example.org/list?page=12&per_page=30>; rel=\"last\", <https://example.org/list?page=2&per_page=30>; rel=\"next\""),
        Ok(12)
    );
    assert_eq!(
        count("<https://example.org/a?page=1>; rel=\"first\", <https://example.org/a?page=3>; rel=\"prev\", <https://example.org/a?page=5>; rel=\"next\", <https://example.org/a?page=7>; rel=\"last\""),
        Ok(7)
    );
}

#[test]
fn page_count_accepts_an_unquoted_tag_and_blanks() {
    assert_eq!(count("<https://example.org/a?page=4>; rel=last"), Ok(4));
    assert_eq!(count("<https://example.org/a?page=4>;rel=\"last\""), Ok(4));
    assert_eq!(count("  <https://example.org/a?page=4> ;\t rel=\"last\" \t"), Ok(4));
    assert_eq!(
        count("<https://example.org/a?page=4>; title=\"end\"; rel=\"last\"; type=\"text/html\""),
        Ok(4)
    );
}

#[test]
fn page_count_of_a_single_page() {
    assert_eq!(count("<https://example.org/a?per_page=30&page=1>; rel=\"last\""), Ok(1));
    assert_eq!(count("<https://example.org/a?page=0>; rel=\"last\""), Ok(0));
    assert_eq!(count("<https://example.org/a?page=007>; rel=\"last\""), Ok(7));
}

#[test]
fn page_count_takes_the_first_page_parameter_of_the_query() {
    assert_eq!(count("<https://example.org/a?page=3&page=9>; rel=\"last\""), Ok(3));
    assert_eq!(count("<https://example.org/a?per_page=30&page=3>; rel=\"last\""), Ok(3));
    assert_eq!(count("<https://example.org/page=5/a?q=1&page=3>; rel=\"last\""), Ok(3));
    assert_eq!(count("<https://example.org/a?a,b&page=6>; rel=\"last\""), Ok(6));
}

#[test]
fn missing_header_is_a_failure() {
    assert_eq!(get_page_count(None), Err(CrawlError::MissingPaginationMetadata));
}

#[test]
fn header_without_a_last_entry_is_a_failure() {
    for header in [
        "",
        "rel=\"last\"",
        "<https://example.org/a?page=2>; rel=\"next\"",
        "<https://example.org/a?page=2>",
        "<https://example.org/a?page=2>; rel=\"latest\"",
        "<https://example.org/a?page=2>; rel=\"last",
        "<https://example.org/a?page=2>; rel=\"LAST\"",
        "<https://example.org/a?page=2>; xrel=\"last\"",
        "<https://example.org/a?page=2; rel=\"last\"",
        "https://example.org/a?page=2>; rel=\"last\"",
        "<https://example.org/a?page=2>, rel=\"last\"",
    ] {
        assert_eq!(count(header), Err(CrawlError::MissingPaginationMetadata), "{}", header);
    }
}

#[test]
fn last_entry_without_a_page_number_is_a_failure() {
    for header in [
        "<https://example.org/a>; rel=\"last\"",
        "<https://example.org/a?per_page=30>; rel=\"last\"",
        "<https://example.org/a?page=>; rel=\"last\"",
        "<https://example.org/a?page=x>; rel=\"last\"",
        "<https://example.org/a?page=1x>; rel=\"last\"",
        "<https://example.org/a?page=-1>; rel=\"last\"",
        "<https://example.org/a?page=+1>; rel=\"last\"",
        "<https://example.org/a?Page=1>; rel=\"last\"",
        "<https://example.org/a?xpage=1>; rel=\"last\"",
        "<https://example.org/a&page=1>; rel=\"last\"",
        "<https://example.org/a?page=99999999999999999999999999>; rel=\"last\"",
    ] {
        assert_eq!(count(header), Err(CrawlError::MissingPaginationMetadata), "{}", header);
    }
}

#[test]
fn page_count_up_to_the_largest_integer() {
    let largest = format!("<https://example.org/a?page={}>; rel=\"last\"", usize::MAX);
    assert_eq!(count(&largest), Ok(usize::MAX));
    let beyond = format!("<https://example.org/a?page={}0>; rel=\"last\"", usize::MAX);
    assert_eq!(count(&beyond), Err(CrawlError::MissingPaginationMetadata));
}

#[test]
fn only_the_first_entry_tagged_last_counts() {
    assert_eq!(
        count("<https://example.org/a?page=3>; rel=\"last\", <https://example.org/a?page=9>; rel=\"last\""),
        Ok(3)
    );
    assert_eq!(
        count("<https://example.org/a>; rel=\"last\", <https://example.org/a?page=9>; rel=\"last\""),
        Err(CrawlError::MissingPaginationMetadata)
    );
}

#[test]
fn header_that_is_no_text_is_a_failure() {
    assert_eq!(
        get_page_count(Some(&[0xff, 0xfe, b'<', 0x80, b'>'])),
        Err(CrawlError::MissingPaginationMetadata)
    );
}

#[test]
fn find_gives_the_first_position_or_the_length() {
    assert_eq!(find(b"a,b,c", b',', 0), 1);
    assert_eq!(find(b"a,b,c", b',', 1), 1);
    assert_eq!(find(b"a,b,c", b',', 2), 3);
    assert_eq!(find(b"a,b,c", b',', 4), 5);
    assert_eq!(find(b"a,b,c", b',', 9), 5);
    assert_eq!(find(b"", b',', 0), 0);
}

#[test]
fn tags_last_reads_one_parameter() {
    assert!(tags_last(b"rel=last"));
    assert!(tags_last(b" rel=\"last\" "));
    assert!(!tags_last(b"rel=\"next\""));
    assert!(!tags_last(b"rel=\"last\"x"));
    assert!(!tags_last(b""));
    assert!(!tags_last(b"   "));
}

#[test]
fn entry_is_last_reads_all_parameters() {
    assert!(entry_is_last(b"; rel=\"last\""));
    assert!(entry_is_last(b"; a=b; rel=last;"));
    assert!(!entry_is_last(b""));
    assert!(!entry_is_last(b"; rel=\"next\"; rev=\"last\""));
}

#[test]
fn find_last_page_url_gives_the_address() {
    assert_eq!(
        find_last_page_url(GITHUB.as_bytes()),
        Some("https://api.github.com/repositories/1300192/stargazers?per_page=30&page=334".as_bytes())
    );
    assert_eq!(find_last_page_url(b"<a>; rel=\"next\""), None);
}

#[test]
fn find_page_parameter_gives_the_value() {
    assert_eq!(find_page_parameter(b"https://example.org/a?per_page=30&page=334"), Some("334".as_bytes()));
    assert_eq!(find_page_parameter(b"https://example.org/a?page=&x=1"), Some("".as_bytes()));
    assert_eq!(find_page_parameter(b"https://example.org/a"), None);
    assert_eq!(find_page_parameter(b"https://example.org/a?"), None);
}
