//! What fetched pages say about the growth of a collection: the model of the
//! two ways of turning pages into records.
//!
//! A collection that fits the request budget is read whole and walked with a
//! stride, so that the series stays about as long as the budget. A larger
//! collection is sampled: each fetched page gives one record, taken from its
//! first entry.

use crate::date::{days_from_to, timestamp_date, ymd_parse, DayView};
use crate::error::CrawlError;
use crate::record::{counts_follow_dates, lemma_text_order_flip, lemma_text_order_zero, text_order, RecordView};
use vstd::prelude::*;

verus! {

/// One entry of the collection: when a star was given, as an ISO 8601
/// timestamp.
#[derive(Debug, Clone, PartialEq, Eq)]
pub struct Star {
    pub starred_at: String,
}

/// An answer to the request for one page: its status and its entries, or no
/// entries where the body could not be read as a list of them.
#[derive(Debug, Clone, PartialEq, Eq)]
pub struct PageResponse {
    pub status: u16,
    pub entries: Option<Vec<Star>>,
}

/// The timestamps of a page's entries, in the page's order.
pub open spec fn timestamps_of(entries: Seq<Star>) -> Seq<Seq<char>> {
    entries.map_values(|star: Star| star.starred_at@)
}

/// The outcome of steps taken in order: what they gave, or the failure of the
/// first step that failed.
pub open spec fn collect<T>(steps: Seq<Result<T, CrawlError>>) -> Result<Seq<T>, CrawlError>
    decreases steps.len(),
{
    if steps.len() == 0 {
        Ok(Seq::empty())
    } else {
        match collect(steps.drop_last()) {
            Err(error) => Err(error),
            Ok(earlier) => match steps.last() {
                Err(error) => Err(error),
                Ok(item) => Ok(earlier.push(item)),
            },
        }
    }
}

/// The items that are present, in their order.
pub open spec fn present<T>(items: Seq<Option<T>>) -> Seq<T>
    decreases items.len(),
{
    if items.len() == 0 {
        Seq::empty()
    } else {
        match items.last() {
            Some(item) => present(items.drop_last()).push(item),
            None => present(items.drop_last()),
        }
    }
}

/// What a page contributes when the whole collection is read: its
/// timestamps. A failed request, a status other than 200 and an unreadable
/// body each fail the page, in this order of precedence.
pub open spec fn page_timestamps(response: Result<PageResponse, CrawlError>) -> Result<
    Seq<Seq<char>>,
    CrawlError,
> {
    match response {
        Err(error) => Err(error),
        Ok(page) => if page.status != 200 {
            Err(CrawlError::Upstream { status: page.status })
        } else {
            match page.entries {
                None => Err(CrawlError::MalformedBody),
                Some(entries) => Ok(timestamps_of(entries@)),
            }
        },
    }
}

/// The parts of `parts` joined into one sequence, in their order.
pub open spec fn join<T>(parts: Seq<Seq<T>>) -> Seq<T>
    decreases parts.len(),
{
    if parts.len() == 0 {
        Seq::empty()
    } else {
        join(parts.drop_last()) + parts.last()
    }
}

/// The timestamps of all pages, joined in the order of the pages, or the
/// failure of the first page that failed.
pub open spec fn all_timestamps(responses: Seq<Result<PageResponse, CrawlError>>) -> Result<
    Seq<Seq<char>>,
    CrawlError,
> {
    match collect(
        responses.map_values(|response: Result<PageResponse, CrawlError>| page_timestamps(response)),
    ) {
        Err(error) => Err(error),
        Ok(pages) => Ok(join(pages)),
    }
}

/// The distance between visited entries when `total` entries are walked
/// under a budget of `max_requests`: the whole quotient once there are at
/// least as many entries as the budget, and one otherwise.
pub open spec fn stride(total: int, max_requests: int) -> int {
    if 0 < max_requests <= total {
        total / max_requests
    } else {
        1
    }
}

/// The number of entries visited when `total` entries are walked from the
/// first in steps of `stride`.
pub open spec fn visits(total: int, stride: int) -> nat {
    if total <= 0 {
        0
    } else {
        ((total - 1) / stride + 1) as nat
    }
}

/// The record for the entry at `index`, or for page `index`: the day of
/// `timestamp` and `per_page` times the index.
pub open spec fn record_at(timestamp: Seq<char>, index: int, per_page: int) -> Result<
    RecordView,
    CrawlError,
> {
    match timestamp_date(timestamp) {
        None => Err(CrawlError::InvalidTimestamp),
        Some(date) => if per_page * index > usize::MAX {
            Err(CrawlError::CountOverflow)
        } else {
            Ok(RecordView { date, count: (per_page * index) as nat })
        },
    }
}

/// The records of a walk over `timestamps` with the given stride, one for
/// each visited entry.
pub open spec fn strided_records(timestamps: Seq<Seq<char>>, stride: int, per_page: int) -> Seq<
    Result<RecordView, CrawlError>,
> {
    Seq::new(
        visits(timestamps.len() as int, stride),
        |k: int| record_at(timestamps[k * stride], k * stride, per_page),
    )
}

/// Reading the whole collection: every page must have arrived with status
/// 200 and a readable body; the joined entries are walked with the stride
/// that the budget gives, and each visited entry gives a record.
pub open spec fn exhaustive_records(
    responses: Seq<Result<PageResponse, CrawlError>>,
    max_requests: int,
    per_page: int,
) -> Result<Seq<RecordView>, CrawlError> {
    match all_timestamps(responses) {
        Err(error) => Err(error),
        Ok(timestamps) => collect(
            strided_records(timestamps, stride(timestamps.len() as int, max_requests), per_page),
        ),
    }
}

/// What one planned page contributes to a sampled series: a record from its
/// first entry; nothing where the request failed or the page is empty.
pub open spec fn page_sample(
    page: int,
    response: Result<PageResponse, CrawlError>,
    per_page: int,
) -> Result<Option<RecordView>, CrawlError> {
    match response {
        Err(_) => Ok(None),
        Ok(answer) => match answer.entries {
            None => Err(CrawlError::MalformedBody),
            Some(entries) => if entries@.len() == 0 {
                Ok(None)
            } else {
                match record_at(entries@[0].starred_at@, page, per_page) {
                    Err(error) => Err(error),
                    Ok(record) => Ok(Some(record)),
                }
            },
        },
    }
}

/// The contributions of the planned pages, each paired with the answer at its
/// position; pages and answers beyond the shorter of the two are left out.
pub open spec fn page_samples(
    pages: Seq<int>,
    responses: Seq<Result<PageResponse, CrawlError>>,
    per_page: int,
) -> Seq<Result<Option<RecordView>, CrawlError>> {
    Seq::new(
        if pages.len() <= responses.len() {
            pages.len()
        } else {
            responses.len()
        },
        |k: int| page_sample(pages[k], responses[k], per_page),
    )
}

/// Sampling the collection: the records of the planned pages that gave one,
/// in the order of the plan.
pub open spec fn sampled_records(
    pages: Seq<int>,
    responses: Seq<Result<PageResponse, CrawlError>>,
    per_page: int,
) -> Result<Seq<RecordView>, CrawlError> {
    match collect(page_samples(pages, responses, per_page)) {
        Err(error) => Err(error),
        Ok(found) => Ok(present(found)),
    }
}

/// Whether a series, in order, calls for the current total: it does when it
/// is empty, and when its last record is dated more than 90 days before
/// `today`. The date of the last record must be written as `YYYY-MM-DD`.
pub open spec fn is_stale(series: Seq<RecordView>, today: DayView) -> Result<bool, CrawlError> {
    if series.len() == 0 {
        Ok(true)
    } else {
        match ymd_parse(series.last().date) {
            None => Err(CrawlError::InvalidDate),
            Some(last) => Ok(days_from_to(last, today) > 90),
        }
    }
}

/// Taking one more step: the outcome of the first `k + 1` steps follows from
/// the outcome of the first `k` and from step `k`.
pub proof fn lemma_collect_step<T>(steps: Seq<Result<T, CrawlError>>, k: int)
    requires
        0 <= k < steps.len(),
    ensures
        collect(steps.take(k + 1)) == match collect(steps.take(k)) {
            Err(error) => Err(error),
            Ok(earlier) => match steps[k] {
                Err(error) => Err(error),
                Ok(item) => Ok(earlier.push(item)),
            },
        },
{
    assert(steps.take(k + 1).drop_last() =~= steps.take(k));
}

/// Once a step has failed, later steps do not change the outcome.
pub proof fn lemma_collect_failure_stays<T>(steps: Seq<Result<T, CrawlError>>, k: int)
    requires
        0 <= k <= steps.len(),
        collect(steps.take(k)) is Err,
    ensures
        collect(steps) == collect(steps.take(k)),
    decreases steps.len() - k,
{
    if k < steps.len() {
        lemma_collect_step(steps, k);
        lemma_collect_failure_stays(steps, k + 1);
    } else {
        assert(steps.take(k) =~= steps);
    }
}

/// Steps that all succeed give one item each, in the order of the steps; and
/// steps of which one fails give the failure of the first that fails.
pub proof fn lemma_collect_outcome<T>(steps: Seq<Result<T, CrawlError>>)
    ensures
        match collect(steps) {
            Ok(items) => {
                &&& items.len() == steps.len()
                &&& forall|k: int| 0 <= k < steps.len() ==> steps[k] == Ok::<T, CrawlError>(items[k])
            },
            Err(error) => exists|k: int|
                {
                    &&& 0 <= k < steps.len()
                    &&& steps[k] == Err::<T, CrawlError>(error)
                    &&& forall|j: int| 0 <= j < k ==> (#[trigger] steps[j]) is Ok
                },
        },
    decreases steps.len(),
{
    if steps.len() > 0 {
        let earlier = steps.drop_last();
        lemma_collect_outcome(earlier);
        match collect(earlier) {
            Ok(items) => {
                match steps.last() {
                    Ok(item) => {
                        let all = items.push(item);
                        assert forall|k: int| 0 <= k < steps.len() implies steps[k] == Ok::<
                            T,
                            CrawlError,
                        >(all[k]) by {
                            if k < earlier.len() {
                                assert(steps[k] == earlier[k]);
                            }
                        }
                    },
                    Err(error) => {
                        let k = steps.len() - 1;
                        assert forall|j: int| 0 <= j < k implies (#[trigger] steps[j]) is Ok by {
                            assert(steps[j] == earlier[j]);
                        }
                        assert(steps[k] == Err::<T, CrawlError>(error));
                    },
                }
            },
            Err(error) => {
                let k = choose|k: int|
                    {
                        &&& 0 <= k < earlier.len()
                        &&& earlier[k] == Err::<T, CrawlError>(error)
                        &&& forall|j: int| 0 <= j < k ==> (#[trigger] earlier[j]) is Ok
                    };
                assert(steps[k] == earlier[k]);
                assert forall|j: int| 0 <= j < k implies (#[trigger] steps[j]) is Ok by {
                    assert(steps[j] == earlier[j]);
                }
            },
        }
    }
}

/// A walk visits entry `k` times the stride exactly for the `k` below the
/// number of visits.
pub proof fn lemma_visits(total: int, stride: int, k: int)
    requires
        0 <= total,
        1 <= stride,
        0 <= k,
    ensures
        k * stride < total <==> k < visits(total, stride),
{
    if total > 0 {
        let last = (total - 1) / stride;
        assert(k * stride <= total - 1 <==> k <= last) by (nonlinear_arith)
            requires
                last == (total - 1) / stride,
                1 <= stride,
                0 <= k,
                0 <= total - 1,
        ;
    } else {
        assert(k * stride >= 0) by (nonlinear_arith)
            requires
                0 <= k,
                1 <= stride,
        ;
    }
}

/// One step of a walk: from a visited entry to the next, or past the end.
pub proof fn lemma_walk_step(total: int, stride: int, visited: int, index: int)
    requires
        1 <= stride,
        0 <= visited,
        index == visited * stride,
        index < total,
    ensures
        visited < visits(total, stride),
        (visited + 1) * stride == index + stride,
        index + stride < total <==> visited + 1 < visits(total, stride),
{
    lemma_visits(total, stride, visited);
    lemma_visits(total, stride, visited + 1);
    assert((visited + 1) * stride == index + stride) by (nonlinear_arith)
        requires
            index == visited * stride,
    ;
}

/// Whether the entries that can be dated stand in the order of their dates.
pub open spec fn in_order_of_time(timestamps: Seq<Seq<char>>) -> bool {
    forall|i: int, j: int|
        0 <= i <= j < timestamps.len() ==> match (
            timestamp_date(#[trigger] timestamps[i]),
            timestamp_date(#[trigger] timestamps[j]),
        ) {
            (Some(earlier), Some(later)) => text_order(earlier, later) <= 0,
            _ => true,
        }
}

/// The date of the first entry of a page, where the page arrived with
/// entries and the first of them can be dated.
pub open spec fn first_date(response: Result<PageResponse, CrawlError>) -> Option<Seq<char>> {
    match response {
        Ok(PageResponse { status: _, entries: Some(entries) }) => if entries@.len() > 0 {
            timestamp_date(entries@[0].starred_at@)
        } else {
            None
        },
        _ => None,
    }
}

/// Whether the first entries of the answered pages are dated in the order of
/// the pages' numbers.
pub open spec fn pages_in_order_of_time(
    pages: Seq<int>,
    responses: Seq<Result<PageResponse, CrawlError>>,
) -> bool {
    forall|k: int, l: int|
        0 <= k < pages.len() && 0 <= k < responses.len() && 0 <= l < pages.len() && 0 <= l
            < responses.len() && pages[k] <= pages[l] ==> match (
            first_date(#[trigger] responses[k]),
            first_date(#[trigger] responses[l]),
        ) {
            (Some(earlier), Some(later)) => text_order(earlier, later) <= 0,
            _ => true,
        }
}

/// Each item of `present(items)` is an item that `items` holds, and items
/// keep their order.
pub proof fn lemma_present_origin<T>(items: Seq<Option<T>>, i: int) -> (origin: int)
    requires
        0 <= i < present(items).len(),
    ensures
        0 <= origin < items.len(),
        items[origin] == Some(present(items)[i]),
    decreases items.len(),
{
    let earlier = present(items.drop_last());
    if items.last() is Some && i == earlier.len() {
        items.len() - 1
    } else {
        lemma_present_origin(items.drop_last(), i)
    }
}

/// A walk over entries that stand in the order of their dates gives records
/// whose counts go with their dates.
pub proof fn lemma_walk_counts_follow_dates(
    timestamps: Seq<Seq<char>>,
    stride: int,
    per_page: int,
)
    requires
        1 <= stride,
        0 <= per_page,
        in_order_of_time(timestamps),
        collect(strided_records(timestamps, stride, per_page)) is Ok,
    ensures
        counts_follow_dates(collect(strided_records(timestamps, stride, per_page))->Ok_0),
{
    let steps = strided_records(timestamps, stride, per_page);
    let series = collect(steps)->Ok_0;
    lemma_collect_outcome(steps);
    assert forall|i: int, j: int|
        0 <= i < series.len() && 0 <= j < series.len() && text_order(
            #[trigger] series[i].date,
            #[trigger] series[j].date,
        ) < 0 implies series[i].count <= series[j].count by {
        lemma_visits(timestamps.len() as int, stride, i);
        lemma_visits(timestamps.len() as int, stride, j);
        assert(steps[i] == Ok::<RecordView, CrawlError>(series[i]));
        assert(steps[j] == Ok::<RecordView, CrawlError>(series[j]));
        assert(0 <= i * stride && 0 <= j * stride) by (nonlinear_arith)
            requires
                0 <= i,
                0 <= j,
                1 <= stride,
        ;
        if j <= i {
            assert(j * stride <= i * stride) by (nonlinear_arith)
                requires
                    j <= i,
                    1 <= stride,
            ;
            assert(timestamp_date(timestamps[j * stride]) == Some(series[j].date));
            assert(timestamp_date(timestamps[i * stride]) == Some(series[i].date));
            lemma_text_order_flip(series[i].date, series[j].date);
        } else {
            assert(0 <= per_page * (i * stride) <= per_page * (j * stride)) by (nonlinear_arith)
                requires
                    0 <= i < j,
                    1 <= stride,
                    0 <= per_page,
            ;
            assert(series[i].count == per_page * (i * stride));
            assert(series[j].count == per_page * (j * stride));
        }
    }
}

/// Sampling pages whose first entries are dated in the order of the pages'
/// numbers gives records whose counts go with their dates.
pub proof fn lemma_samples_counts_follow_dates(
    pages: Seq<int>,
    responses: Seq<Result<PageResponse, CrawlError>>,
    per_page: int,
)
    requires
        0 <= per_page,
        forall|k: int| 0 <= k < pages.len() ==> 0 <= #[trigger] pages[k],
        pages_in_order_of_time(pages, responses),
        sampled_records(pages, responses, per_page) is Ok,
    ensures
        counts_follow_dates(sampled_records(pages, responses, per_page)->Ok_0),
{
    let steps = page_samples(pages, responses, per_page);
    let found = collect(steps)->Ok_0;
    let series = present(found);
    lemma_collect_outcome(steps);
    assert forall|i: int, j: int|
        0 <= i < series.len() && 0 <= j < series.len() && text_order(
            #[trigger] series[i].date,
            #[trigger] series[j].date,
        ) < 0 implies series[i].count <= series[j].count by {
        let k = lemma_present_origin(found, i);
        let l = lemma_present_origin(found, j);
        assert(steps[k] == Ok::<Option<RecordView>, CrawlError>(found[k]));
        assert(steps[l] == Ok::<Option<RecordView>, CrawlError>(found[l]));
        assert(first_date(responses[k]) == Some(series[i].date));
        assert(first_date(responses[l]) == Some(series[j].date));
        if pages[l] <= pages[k] {
            lemma_text_order_flip(series[i].date, series[j].date);
        } else {
            assert(0 <= per_page * pages[k] <= per_page * pages[l]) by (nonlinear_arith)
                requires
                    0 <= pages[k] < pages[l],
                    0 <= per_page,
            ;
            assert(series[i].count == per_page * pages[k]);
            assert(series[j].count == per_page * pages[l]);
        }
    }
}

/// Steps that all succeed give what each of them gave.
pub proof fn lemma_collect_all_ok<T>(steps: Seq<Result<T, CrawlError>>)
    requires
        forall|k: int| 0 <= k < steps.len() ==> (#[trigger] steps[k]) is Ok,
    ensures
        collect(steps) is Ok,
        collect(steps)->Ok_0.len() == steps.len(),
        forall|k: int| 0 <= k < steps.len() ==> collect(steps)->Ok_0[k] == (#[trigger] steps[k])->Ok_0,
    decreases steps.len(),
{
    if steps.len() > 0 {
        let earlier = steps.drop_last();
        assert forall|k: int| 0 <= k < earlier.len() implies (#[trigger] earlier[k]) is Ok by {
            assert(earlier[k] == steps[k]);
        }
        lemma_collect_all_ok(earlier);
        assert forall|k: int| 0 <= k < steps.len() implies collect(steps)->Ok_0[k] == (
        #[trigger] steps[k])->Ok_0 by {
            if k < earlier.len() {
                assert(earlier[k] == steps[k]);
            }
        }
    }
}

/// Where every item but the one at `missing` is present, all items but one
/// are kept.
pub proof fn lemma_present_but_one<T>(items: Seq<Option<T>>, missing: int)
    requires
        forall|k: int| 0 <= k < items.len() && k != missing ==> (#[trigger] items[k]) is Some,
        0 <= missing < items.len() ==> items[missing] is None,
    ensures
        present(items).len() == if 0 <= missing < items.len() {
            items.len() - 1
        } else {
            items.len() as int
        },
    decreases items.len(),
{
    if items.len() > 0 {
        let earlier = items.drop_last();
        assert forall|k: int| 0 <= k < earlier.len() && k != missing implies (
        #[trigger] earlier[k]) is Some by {
            assert(earlier[k] == items[k]);
        }
        if 0 <= missing < earlier.len() {
            assert(earlier[missing] == items[missing]);
        }
        lemma_present_but_one(earlier, missing);
    }
}

/// A sample of which one page failed, while every other page gave a record,
/// is a series with one record fewer than the plan has pages: the failure
/// does not end the run.
pub proof fn lemma_failed_page_drops_one_record(
    pages: Seq<int>,
    responses: Seq<Result<PageResponse, CrawlError>>,
    per_page: int,
    failed: int,
)
    requires
        pages.len() == responses.len(),
        0 <= failed < pages.len(),
        responses[failed] is Err,
        forall|k: int|
            0 <= k < pages.len() && k != failed ==> page_sample(
                pages[k],
                #[trigger] responses[k],
                per_page,
            ) matches Ok(Some(_)),
    ensures
        sampled_records(pages, responses, per_page) is Ok,
        sampled_records(pages, responses, per_page)->Ok_0.len() == pages.len() - 1,
{
    let steps = page_samples(pages, responses, per_page);
    assert forall|k: int| 0 <= k < steps.len() implies (#[trigger] steps[k]) is Ok by {
        if k != failed {
            assert(page_sample(pages[k], responses[k], per_page) matches Ok(Some(_)));
        }
    }
    lemma_collect_all_ok(steps);
    let found = collect(steps)->Ok_0;
    assert forall|k: int| 0 <= k < found.len() && k != failed implies (#[trigger] found[k])
        is Some by {
        assert(found[k] == steps[k]->Ok_0);
        assert(page_sample(pages[k], responses[k], per_page) matches Ok(Some(_)));
    }
    assert(found[failed] == steps[failed]->Ok_0);
    lemma_present_but_one(found, failed);
}

} // verus!
