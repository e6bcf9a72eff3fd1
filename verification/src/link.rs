//! Reading the number of pages from a `Link` header.
//!
//! The header lists addresses of related pages, each in angle brackets and
//! followed by parameters: `<address>; rel="next", <address>; rel="last"`.
//! The number of pages is the `page` parameter in the query of the address
//! that is tagged `last`.

use crate::error::CrawlError;
use crate::text::{bounded_number, parse_number};
use vstd::prelude::*;
use vstd::slice::slice_subrange;

verus! {

/// The position of the first `byte` in `bytes` at or after `from`, or the
/// length of `bytes` where there is none.
pub open spec fn find_byte(bytes: Seq<u8>, byte: u8, from: int) -> int
    decreases bytes.len() - from,
{
    if from >= bytes.len() {
        bytes.len() as int
    } else if bytes[from] == byte {
        from
    } else {
        find_byte(bytes, byte, from + 1)
    }
}

/// Whether `byte` is a space or a tab.
pub open spec fn is_blank(byte: u8) -> bool {
    byte == 32 || byte == 9
}

/// `bytes` without the blanks at its start.
pub open spec fn trim_start(bytes: Seq<u8>) -> Seq<u8>
    decreases bytes.len(),
{
    if bytes.len() > 0 && is_blank(bytes[0]) {
        trim_start(bytes.drop_first())
    } else {
        bytes
    }
}

/// `bytes` without the blanks at its end.
pub open spec fn trim_end(bytes: Seq<u8>) -> Seq<u8>
    decreases bytes.len(),
{
    if bytes.len() > 0 && is_blank(bytes.last()) {
        trim_end(bytes.drop_last())
    } else {
        bytes
    }
}

/// The bytes of `rel=last`.
pub open spec fn rel_last() -> Seq<u8> {
    seq![114u8, 101u8, 108u8, 61u8, 108u8, 97u8, 115u8, 116u8]
}

/// The bytes of `rel="last"`.
pub open spec fn rel_last_quoted() -> Seq<u8> {
    seq![114u8, 101u8, 108u8, 61u8, 34u8, 108u8, 97u8, 115u8, 116u8, 34u8]
}

/// The bytes of `page=`.
pub open spec fn page_key() -> Seq<u8> {
    seq![112u8, 97u8, 103u8, 101u8, 61u8]
}

/// Whether one parameter of an entry, blanks around it aside, tags the entry
/// as the last page: `rel=last` or `rel="last"`.
pub open spec fn is_rel_last(parameter: Seq<u8>) -> bool {
    let name = trim_end(trim_start(parameter));
    name == rel_last() || name == rel_last_quoted()
}

/// Whether one of the parameters of `parameters` that start at or after
/// `from` tags its entry as the last page. Parameters are separated by `;`.
pub open spec fn has_rel_last(parameters: Seq<u8>, from: int) -> bool
    decreases parameters.len() - from,
{
    if from >= parameters.len() || from < 0 {
        false
    } else {
        let end = find_byte(parameters, 59, from);
        proof {
            lemma_find_byte(parameters, 59, from);
        }
        is_rel_last(parameters.subrange(from, end)) || (end < parameters.len() && has_rel_last(
            parameters,
            end + 1,
        ))
    }
}

/// The address of the first entry at or after `from` that is tagged as the
/// last page. An entry is an address between `<` and the next `>`, followed
/// by its parameters up to the next `,`.
pub open spec fn last_page_url(header: Seq<u8>, from: int) -> Option<Seq<u8>>
    decreases header.len() - from,
{
    let open = find_byte(header, 60, from);
    let close = find_byte(header, 62, open + 1);
    if from < 0 || open >= header.len() || close >= header.len() {
        None
    } else {
        let end = find_byte(header, 44, close + 1);
        proof {
            lemma_find_byte(header, 60, from);
            lemma_find_byte(header, 62, open + 1);
            lemma_find_byte(header, 44, close + 1);
        }
        if has_rel_last(header.subrange(close + 1, end), 0) {
            Some(header.subrange(open + 1, close))
        } else if end < header.len() {
            last_page_url(header, end + 1)
        } else {
            None
        }
    }
}

/// The value of the first `page` parameter among the parameters of a query
/// that start at or after `from`. Parameters are separated by `&`.
pub open spec fn query_page(url: Seq<u8>, from: int) -> Option<Seq<u8>>
    decreases url.len() - from,
{
    if from >= url.len() || from < 0 {
        None
    } else {
        let end = find_byte(url, 38, from);
        proof {
            lemma_find_byte(url, 38, from);
        }
        if from + 5 <= end && url.subrange(from, from + 5) == page_key() {
            Some(url.subrange(from + 5, end))
        } else if end < url.len() {
            query_page(url, end + 1)
        } else {
            None
        }
    }
}

/// The value of the `page` parameter of an address: of the first one in the
/// query, which starts after the first `?`.
pub open spec fn page_parameter(url: Seq<u8>) -> Option<Seq<u8>> {
    query_page(url, find_byte(url, 63, 0) + 1)
}

/// The number of pages that a `Link` header gives: the `page` parameter of
/// the address tagged as the last page, where it is a decimal number that
/// fits the machine's integers.
pub open spec fn header_page_count(header: Seq<u8>) -> Option<nat> {
    match last_page_url(header, 0) {
        None => None,
        Some(url) => match page_parameter(url) {
            None => None,
            Some(digits) => bounded_number(digits, usize::MAX as nat),
        },
    }
}

/// What the first page's `Link` header says of the number of pages. A
/// missing header, and one that does not give the number, are both a failure.
pub open spec fn page_count_of(link: Option<Seq<u8>>) -> Result<usize, CrawlError> {
    match link {
        None => Err(CrawlError::MissingPaginationMetadata),
        Some(header) => match header_page_count(header) {
            None => Err(CrawlError::MissingPaginationMetadata),
            Some(count) => Ok(count as usize),
        },
    }
}

/// `find_byte` stays within the text and stops at the byte it looks for.
pub proof fn lemma_find_byte(bytes: Seq<u8>, byte: u8, from: int)
    requires
        0 <= from,
    ensures
        from <= bytes.len() ==> from <= find_byte(bytes, byte, from),
        find_byte(bytes, byte, from) <= bytes.len(),
        find_byte(bytes, byte, from) < bytes.len() ==> bytes[find_byte(bytes, byte, from)] == byte,
        forall|k: int| from <= k < find_byte(bytes, byte, from) ==> bytes[k] != byte,
    decreases bytes.len() - from,
{
    if from < bytes.len() && bytes[from] != byte {
        lemma_find_byte(bytes, byte, from + 1);
    }
}

/// Finds the first `byte` in `bytes` at or after `from`.
pub fn find(bytes: &[u8], byte: u8, from: usize) -> (at: usize)
    ensures
        at == find_byte(bytes@, byte, from as int),
        at <= bytes@.len(),
        from <= bytes@.len() ==> from <= at,
{
    let mut at: usize = from;
    while at < bytes.len() && bytes[at] != byte
        invariant
            from <= at,
            find_byte(bytes@, byte, from as int) == find_byte(bytes@, byte, at as int),
        decreases bytes@.len() - at,
    {
        at += 1;
    }
    if at > bytes.len() {
        bytes.len()
    } else {
        at
    }
}

/// Whether `bytes` is exactly `pattern`.
fn equals(bytes: &[u8], pattern: &[u8]) -> (same: bool)
    ensures
        same == (bytes@ == pattern@),
{
    if bytes.len() != pattern.len() {
        return false;
    }
    let mut at: usize = 0;
    while at < bytes.len()
        invariant
            bytes@.len() == pattern@.len(),
            at <= bytes@.len(),
            forall|k: int| 0 <= k < at ==> bytes@[k] == pattern@[k],
        decreases bytes@.len() - at,
    {
        if bytes[at] != pattern[at] {
            return false;
        }
        at += 1;
    }
    assert(bytes@ =~= pattern@);
    true
}

/// Tells whether one parameter of an entry tags the entry as the last page.
pub fn tags_last(parameter: &[u8]) -> (tagged: bool)
    ensures
        tagged == is_rel_last(parameter@),
{
    let mut start: usize = 0;
    assert(parameter@.skip(0) =~= parameter@);
    while start < parameter.len() && (parameter[start] == 32 || parameter[start] == 9)
        invariant
            start <= parameter@.len(),
            trim_start(parameter@) == trim_start(parameter@.skip(start as int)),
        decreases parameter@.len() - start,
    {
        assert(parameter@.skip(start as int).drop_first() =~= parameter@.skip(start + 1));
        start += 1;
    }
    assert(trim_start(parameter@) == parameter@.skip(start as int));
    let mut end: usize = parameter.len();
    assert(parameter@.subrange(start as int, end as int) =~= parameter@.skip(start as int));
    while end > start && (parameter[end - 1] == 32 || parameter[end - 1] == 9)
        invariant
            start <= end <= parameter@.len(),
            trim_end(parameter@.skip(start as int)) == trim_end(
                parameter@.subrange(start as int, end as int),
            ),
        decreases end,
    {
        assert(parameter@.subrange(start as int, end as int).drop_last() =~= parameter@.subrange(
            start as int,
            end - 1,
        ));
        end -= 1;
    }
    let name = slice_subrange(parameter, start, end);
    let plain: [u8; 8] = [114, 101, 108, 61, 108, 97, 115, 116];
    let quoted: [u8; 10] = [114, 101, 108, 61, 34, 108, 97, 115, 116, 34];
    assert(plain@ =~= rel_last());
    assert(quoted@ =~= rel_last_quoted());
    equals(name, plain.as_slice()) || equals(name, quoted.as_slice())
}

/// Tells whether one of the parameters of an entry tags it as the last page.
pub fn entry_is_last(parameters: &[u8]) -> (tagged: bool)
    ensures
        tagged == has_rel_last(parameters@, 0),
{
    let mut from: usize = 0;
    while from < parameters.len()
        invariant
            has_rel_last(parameters@, 0) == has_rel_last(parameters@, from as int),
        decreases parameters@.len() - from,
    {
        let end = find(parameters, 59, from);
        if tags_last(slice_subrange(parameters, from, end)) {
            return true;
        }
        if end == parameters.len() {
            return false;
        }
        from = end + 1;
    }
    false
}

/// Finds the address of the entry that is tagged as the last page.
pub fn find_last_page_url(header: &[u8]) -> (url: Option<&[u8]>)
    ensures
        match last_page_url(header@, 0) {
            Some(address) => url matches Some(found) && found@ == address,
            None => url is None,
        },
{
    let mut from: usize = 0;
    while from < header.len()
        invariant
            last_page_url(header@, 0) == last_page_url(header@, from as int),
        decreases header@.len() - from,
    {
        let open = find(header, 60, from);
        if open >= header.len() {
            return None;
        }
        let close = find(header, 62, open + 1);
        if close >= header.len() {
            return None;
        }
        let end = find(header, 44, close + 1);
        if entry_is_last(slice_subrange(header, close + 1, end)) {
            return Some(slice_subrange(header, open + 1, close));
        }
        if end == header.len() {
            return None;
        }
        from = end + 1;
    }
    proof {
        lemma_find_byte(header@, 60, from as int);
    }
    None
}

/// Finds the value of the `page` parameter of an address.
pub fn find_page_parameter(url: &[u8]) -> (value: Option<&[u8]>)
    ensures
        match page_parameter(url@) {
            Some(digits) => value matches Some(found) && found@ == digits,
            None => value is None,
        },
{
    let question = find(url, 63, 0);
    if question >= url.len() {
        return None;
    }
    let key: [u8; 5] = [112, 97, 103, 101, 61];
    assert(key@ =~= page_key());
    let mut from: usize = question + 1;
    while from < url.len()
        invariant
            page_parameter(url@) == query_page(url@, from as int),
            key@ == page_key(),
        decreases url@.len() - from,
    {
        let end = find(url, 38, from);
        if end - from >= 5 && equals(slice_subrange(url, from, from + 5), key.as_slice()) {
            return Some(slice_subrange(url, from + 5, end));
        }
        if end == url.len() {
            return None;
        }
        from = end + 1;
    }
    None
}

/// Gets the number of pages of the collection from the `Link` header of its
/// first page, where the answer has that header.
pub fn get_page_count(link: Option<&[u8]>) -> (count: Result<usize, CrawlError>)
    ensures
        count == page_count_of(
            match link {
                Some(header) => Some(header@),
                None => None,
            },
        ),
{
    let header = match link {
        Some(header) => header,
        None => { return Err(CrawlError::MissingPaginationMetadata); },
    };
    let url = match find_last_page_url(header) {
        Some(url) => url,
        None => { return Err(CrawlError::MissingPaginationMetadata); },
    };
    let digits = match find_page_parameter(url) {
        Some(digits) => digits,
        None => { return Err(CrawlError::MissingPaginationMetadata); },
    };
    assert(digits@.subrange(0, digits@.len() as int) =~= digits@);
    match parse_number(digits, 0, digits.len(), usize::MAX as u64) {
        Some(number) => Ok(number as usize),
        None => Err(CrawlError::MissingPaginationMetadata),
    }
}

} // verus!
