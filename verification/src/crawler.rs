//! Sampling one repository: the decisions between the requests.
//!
//! A [`Crawler`] does not send requests. It says which request comes next and
//! takes the answer; see [`Crawler::stars`].

use crate::date::{
    days_between, format_ymd, is_calendar_date, iso8601_to_ymd, parse_ymd, today_utc, ymd_text,
    CalendarDay, DayView,
};
use crate::error::CrawlError;
use crate::github::{
    accept_text, authorization_text, user_agent_text, ApiRequest, Github, STARGAZERS_PER_PAGE,
};
use crate::link::{get_page_count, page_count_of};
use crate::plan::{get_request_pages, pages_view, plan_pages};
use crate::record::{
    counts_never_fall, is_sorted, lemma_sorted_counts_never_fall, lemma_sorting_exists,
    series_view, sort_records, sorted_series, RecordView, StarRecord,
};
use crate::sample::{
    all_timestamps, collect, exhaustive_records, in_order_of_time, is_stale, join,
    lemma_collect_failure_stays, lemma_collect_step, lemma_samples_counts_follow_dates,
    lemma_visits, lemma_walk_counts_follow_dates, lemma_walk_step, page_sample, page_samples,
    page_timestamps, pages_in_order_of_time, present, record_at, sampled_records, stride,
    strided_records, timestamps_of, visits, PageResponse,
};
use vstd::prelude::*;

verus! {

/// Samples the stargazers of one repository with a bounded number of
/// requests.
#[derive(Debug, Clone)]
pub struct Crawler {
    pub github: Github,
    pub max_request_count: usize,
}

/// The answer to the request for the first page: the page, and the value of
/// its `Link` header where it has one.
#[derive(Debug, Clone)]
pub struct FirstPage {
    pub link: Option<Vec<u8>>,
    pub page: PageResponse,
}

/// What came back for the requests that a run asked for.
#[derive(Debug)]
pub enum Answer {
    /// The first page, or why it could not be had.
    FirstPage(Result<FirstPage, CrawlError>),
    /// The planned pages, in the order of the plan, each with its own outcome.
    Pages(Vec<Result<PageResponse, CrawlError>>),
    /// The current total of the collection, or why it could not be had.
    Total(Result<usize, CrawlError>),
}

/// Where a sampling run stands.
#[derive(Debug)]
pub enum Sampling {
    /// The first page is awaited.
    FirstPage,
    /// The pages of the plan are awaited.
    Pages(Vec<usize>),
    /// The series is built but stale on the given day: the current total is
    /// awaited.
    Total(Vec<StarRecord>, CalendarDay),
    /// The run has ended with this series.
    Finished(Vec<StarRecord>),
    /// The run has ended without a series.
    Failed(CrawlError),
}

/// What a [`Sampling`] stands for.
pub ghost enum SamplingView {
    FirstPage,
    Pages(Seq<int>),
    Total(Seq<RecordView>, DayView),
    Finished(Seq<RecordView>),
    Failed(CrawlError),
}

impl View for Sampling {
    type V = SamplingView;

    open spec fn view(&self) -> SamplingView {
        match self {
            Sampling::FirstPage => SamplingView::FirstPage,
            Sampling::Pages(plan) => SamplingView::Pages(pages_view(plan@)),
            Sampling::Total(series, today) => SamplingView::Total(series_view(series@), today@),
            Sampling::Finished(series) => SamplingView::Finished(series_view(series@)),
            Sampling::Failed(error) => SamplingView::Failed(*error),
        }
    }
}

/// The bytes of a `Link` header, where the answer has one.
pub open spec fn link_view(link: Option<Vec<u8>>) -> Option<Seq<u8>> {
    match link {
        Some(header) => Some(header@),
        None => None,
    }
}

/// Where a run stands once the first page has been answered.
///
/// The answer must have arrived, with status 200, a `Link` header that
/// gives the number of pages, and a readable body, in this order of
/// precedence. A collection of one page without entries has no stargazers:
/// the run ends with an empty series. For any other the pages are planned.
pub open spec fn after_first_page(max_requests: int, answer: Result<FirstPage, CrawlError>) -> SamplingView {
    match answer {
        Err(error) => SamplingView::Failed(error),
        Ok(first) => if first.page.status != 200 {
            SamplingView::Failed(CrawlError::Upstream { status: first.page.status })
        } else {
            match page_count_of(link_view(first.link)) {
                Err(error) => SamplingView::Failed(error),
                Ok(page_count) => match first.page.entries {
                    None => SamplingView::Failed(CrawlError::MalformedBody),
                    Some(entries) => if page_count == 1 && entries@.len() == 0 {
                        SamplingView::Finished(Seq::empty())
                    } else {
                        SamplingView::Pages(plan_pages(page_count as int, max_requests))
                    },
                },
            }
        },
    }
}

/// The records that the answers to a plan give, before they are put in
/// order: those of the whole collection where the plan is shorter than the
/// budget, and those of the sampled pages otherwise.
pub open spec fn reconstruction(
    max_requests: int,
    plan: Seq<int>,
    responses: Seq<Result<PageResponse, CrawlError>>,
) -> Result<Seq<RecordView>, CrawlError> {
    if plan.len() < max_requests {
        exhaustive_records(responses, max_requests, STARGAZERS_PER_PAGE as int)
    } else {
        sampled_records(plan, responses, STARGAZERS_PER_PAGE as int)
    }
}

/// Where a run stands with a series in order on the day `today`: at its end
/// where the series is fresh, and waiting for the current total where it is
/// stale.
pub open spec fn settled(series: Seq<RecordView>, today: DayView) -> SamplingView {
    match is_stale(series, today) {
        Err(error) => SamplingView::Failed(error),
        Ok(true) => SamplingView::Total(series, today),
        Ok(false) => SamplingView::Finished(series),
    }
}

/// Where a run stands once the planned pages have been answered.
pub open spec fn after_pages(
    max_requests: int,
    plan: Seq<int>,
    responses: Seq<Result<PageResponse, CrawlError>>,
    today: DayView,
) -> SamplingView {
    match reconstruction(max_requests, plan, responses) {
        Err(error) => SamplingView::Failed(error),
        Ok(records) => settled(sorted_series(records), today),
    }
}

/// Where a run stands once the current total has been answered: at its end,
/// with one more record, dated `today`, that holds the total.
pub open spec fn after_total(
    series: Seq<RecordView>,
    today: DayView,
    answer: Result<usize, CrawlError>,
) -> SamplingView {
    match answer {
        Err(error) => SamplingView::Failed(error),
        Ok(count) => SamplingView::Finished(
            series.push(RecordView { date: ymd_text(today), count: count as nat }),
        ),
    }
}

/// Where a run that stands at `state` stands after `answer`, on the day
/// `today`. An answer that the state does not wait for changes nothing.
pub open spec fn next_state(
    max_requests: int,
    state: SamplingView,
    answer: Answer,
    today: DayView,
) -> SamplingView {
    match (state, answer) {
        (SamplingView::FirstPage, Answer::FirstPage(first)) => after_first_page(
            max_requests,
            first,
        ),
        (SamplingView::Pages(plan), Answer::Pages(responses)) => after_pages(
            max_requests,
            plan,
            responses@,
            today,
        ),
        (SamplingView::Total(series, day), Answer::Total(total)) => after_total(
            series,
            day,
            total,
        ),
        _ => state,
    }
}

/// The addresses that a run asks for while it stands at `state`: the first
/// page, the pages of the plan in their order, or the repository's
/// description. A run that has ended asks for nothing.
pub open spec fn wanted_urls(owner: Seq<char>, repo: Seq<char>, state: SamplingView) -> Seq<
    Seq<char>,
> {
    match state {
        SamplingView::FirstPage => seq![
            crate::github::stargazers_url(owner, repo, STARGAZERS_PER_PAGE as nat, None),
        ],
        SamplingView::Pages(plan) => Seq::new(
            plan.len(),
            |k: int|
                crate::github::stargazers_url(
                    owner,
                    repo,
                    STARGAZERS_PER_PAGE as nat,
                    Some(plan[k] as nat),
                ),
        ),
        SamplingView::Total(_, _) => seq![crate::github::repo_url(owner, repo)],
        _ => Seq::empty(),
    }
}

/// The texts of a sequence of string slices.
pub open spec fn texts(slices: Seq<&str>) -> Seq<Seq<char>> {
    slices.map_values(|text: &str| text@)
}

/// Whether `result` is the series, or the failure, that `expected` names.
pub open spec fn gives_series(
    result: Result<Vec<StarRecord>, CrawlError>,
    expected: Result<Seq<RecordView>, CrawlError>,
) -> bool {
    match expected {
        Ok(series) => result matches Ok(records) && series_view(records@) == series,
        Err(error) => result matches Err(found) && found == error,
    }
}

/// Joins the timestamps of all pages in the order of the pages, or gives the
/// failure of the first page that failed.
fn gather_timestamps<'a>(responses: &'a Vec<Result<PageResponse, CrawlError>>) -> (gathered:
    Result<Vec<&'a str>, CrawlError>)
    ensures
        match all_timestamps(responses@) {
            Ok(timestamps) => gathered matches Ok(found) && texts(found@) == timestamps,
            Err(error) => gathered matches Err(found) && found == error,
        },
{
    let ghost steps = responses@.map_values(
        |response: Result<PageResponse, CrawlError>| page_timestamps(response),
    );
    let ghost mut pages: Seq<Seq<Seq<char>>> = Seq::empty();
    let mut gathered: Vec<&'a str> = Vec::new();
    let mut at: usize = 0;
    assert(steps.take(0) =~= Seq::empty());
    assert(texts(gathered@) =~= join(pages));
    while at < responses.len()
        invariant
            at <= responses@.len(),
            steps == responses@.map_values(
                |response: Result<PageResponse, CrawlError>| page_timestamps(response),
            ),
            collect(steps.take(at as int)) == Ok::<Seq<Seq<Seq<char>>>, CrawlError>(pages),
            texts(gathered@) == join(pages),
        decreases responses@.len() - at,
    {
        proof {
            lemma_collect_step(steps, at as int);
            assert(steps[at as int] == page_timestamps(responses@[at as int]));
        }
        let entries = match &responses[at] {
            Err(error) => {
                proof {
                    lemma_collect_failure_stays(steps, at + 1);
                }
                return Err(*error);
            },
            Ok(page) => {
                if page.status != 200 {
                    proof {
                        lemma_collect_failure_stays(steps, at + 1);
                    }
                    return Err(CrawlError::Upstream { status: page.status });
                }
                match &page.entries {
                    None => {
                        proof {
                            lemma_collect_failure_stays(steps, at + 1);
                        }
                        return Err(CrawlError::MalformedBody);
                    },
                    Some(entries) => entries,
                }
            },
        };
        let ghost before = texts(gathered@);
        let mut entry: usize = 0;
        assert(timestamps_of(entries@).take(0) =~= Seq::empty());
        assert(before + Seq::<Seq<char>>::empty() =~= before);
        while entry < entries.len()
            invariant
                entry <= entries@.len(),
                texts(gathered@) == before + timestamps_of(entries@).take(entry as int),
            decreases entries@.len() - entry,
        {
            let ghost prior = gathered@;
            let timestamp = entries[entry].starred_at.as_str();
            gathered.push(timestamp);
            proof {
                let seen = timestamps_of(entries@).take(entry as int);
                let next = timestamps_of(entries@).take(entry + 1);
                assert(next =~= seen.push(timestamp@));
                assert(texts(gathered@) =~= texts(prior).push(timestamp@));
                assert(texts(gathered@) =~= before + next);
            }
            entry += 1;
        }
        proof {
            assert(timestamps_of(entries@).take(entry as int) =~= timestamps_of(entries@));
            let more = pages.push(timestamps_of(entries@));
            assert(more.drop_last() =~= pages);
            pages = more;
        }
        at += 1;
    }
    assert(steps.take(at as int) =~= steps);
    Ok(gathered)
}

/// The record for the entry at `index`, or for page `index`: the day of
/// `timestamp`, and the page size times the index.
fn make_record(timestamp: &str, index: usize) -> (made: Result<StarRecord, CrawlError>)
    ensures
        match record_at(timestamp@, index as int, STARGAZERS_PER_PAGE as int) {
            Ok(record) => made matches Ok(found) && found@ == record,
            Err(error) => made matches Err(found) && found == error,
        },
{
    let date = match iso8601_to_ymd(timestamp) {
        Ok(date) => date,
        Err(error) => { return Err(error); },
    };
    match STARGAZERS_PER_PAGE.checked_mul(index) {
        Some(count) => Ok(StarRecord { date, count }),
        None => Err(CrawlError::CountOverflow),
    }
}

/// Tells whether a series, in order, calls for the current total on the day
/// `today`.
pub fn needs_current_total(series: &Vec<StarRecord>, today: CalendarDay) -> (stale: Result<
    bool,
    CrawlError,
>)
    ensures
        stale == is_stale(series_view(series@), today@),
{
    if series.len() == 0 {
        return Ok(true);
    }
    let last = &series[series.len() - 1];
    assert(series_view(series@).last() == last@);
    match parse_ymd(last.date.as_str()) {
        Err(error) => Err(error),
        Ok(day) => Ok(days_between(day, today) > 90),
    }
}

impl Crawler {
    /// A crawler for the repository `owner`/`repo`, asked about with `token`,
    /// that spends at most `max_request_count` requests on sampling pages.
    pub fn new(owner: String, repo: String, token: String, max_request_count: usize) -> (crawler:
        Crawler)
        ensures
            crawler.github.owner == owner,
            crawler.github.repo == repo,
            crawler.github.token == token,
            crawler.max_request_count == max_request_count,
    {
        Crawler { github: Github::new(owner, repo, token), max_request_count }
    }

    /// Reconstructs the series of a collection that was fetched whole.
    ///
    /// Every page must have arrived with status 200 and a readable body;
    /// the first page that did not fails the reconstruction with its error.
    /// The entries of all pages, in the order of the pages, are walked from
    /// the first with the stride that the budget gives; each visited entry
    /// gives a record of its day and of the page size times its index.
    pub fn parse_all_star_responses(
        &self,
        responses: &Vec<Result<PageResponse, CrawlError>>,
    ) -> (series: Result<Vec<StarRecord>, CrawlError>)
        ensures
            gives_series(
                series,
                exhaustive_records(
                    responses@,
                    self.max_request_count as int,
                    STARGAZERS_PER_PAGE as int,
                ),
            ),
    {
        let timestamps = match gather_timestamps(responses) {
            Ok(timestamps) => timestamps,
            Err(error) => { return Err(error); },
        };
        let total = timestamps.len();
        let step: usize = if self.max_request_count > 0 && total >= self.max_request_count {
            total / self.max_request_count
        } else {
            1
        };
        assert(step >= 1) by {
            if 0 < self.max_request_count <= total {
                vstd::arithmetic::div_mod::lemma_div_non_zero(
                    total as int,
                    self.max_request_count as int,
                );
            }
        }
        let ghost steps = strided_records(
            texts(timestamps@),
            step as int,
            STARGAZERS_PER_PAGE as int,
        );
        let mut records: Vec<StarRecord> = Vec::new();
        let mut index: usize = 0;
        let ghost mut visited: int = 0;
        proof {
            lemma_visits(total as int, step as int, 0);
            assert(steps.take(0) =~= Seq::empty());
            assert(series_view(records@) =~= Seq::empty());
        }
        while index < total
            invariant
                total == timestamps@.len(),
                step >= 1,
                step == stride(total as int, self.max_request_count as int),
                all_timestamps(responses@) == Ok::<Seq<Seq<char>>, CrawlError>(
                    texts(timestamps@),
                ),
                steps == strided_records(
                    texts(timestamps@),
                    step as int,
                    STARGAZERS_PER_PAGE as int,
                ),
                0 <= visited <= visits(total as int, step as int),
                index < total ==> index == visited * step,
                index >= total ==> visited == visits(total as int, step as int),
                collect(steps.take(visited)) == Ok::<Seq<RecordView>, CrawlError>(
                    series_view(records@),
                ),
            decreases total - index,
        {
            proof {
                lemma_walk_step(total as int, step as int, visited, index as int);
                lemma_collect_step(steps, visited);
                assert(texts(timestamps@)[index as int] == timestamps@[index as int]@);
                assert(steps[visited] == record_at(
                    timestamps@[index as int]@,
                    index as int,
                    STARGAZERS_PER_PAGE as int,
                ));
            }
            let record = match make_record(timestamps[index], index) {
                Ok(record) => record,
                Err(error) => {
                    proof {
                        lemma_collect_failure_stays(steps, visited + 1);
                    }
                    return Err(error);
                },
            };
            let ghost earlier = series_view(records@);
            records.push(record);
            proof {
                assert(series_view(records@) =~= earlier.push(record@));
                visited = visited + 1;
            }
            if total - index <= step {
                index = total;
            } else {
                index += step;
            }
        }
        assert(steps.take(visited) =~= steps);
        Ok(records)
    }

    /// Builds the series of a collection that was sampled.
    ///
    /// Each planned page is paired with the answer at its position. A page
    /// whose request failed, and a page without entries, give nothing. Any
    /// other page gives a record of the day of its first entry and of the
    /// page size times the page's number. A body that cannot be read and a
    /// timestamp that cannot be read fail the whole series.
    pub fn sample_star_responses(
        &self,
        request_pages: &Vec<usize>,
        responses: &Vec<Result<PageResponse, CrawlError>>,
    ) -> (series: Result<Vec<StarRecord>, CrawlError>)
        ensures
            gives_series(
                series,
                sampled_records(
                    pages_view(request_pages@),
                    responses@,
                    STARGAZERS_PER_PAGE as int,
                ),
            ),
    {
        let ghost steps = page_samples(
            pages_view(request_pages@),
            responses@,
            STARGAZERS_PER_PAGE as int,
        );
        let pairs: usize = if request_pages.len() <= responses.len() {
            request_pages.len()
        } else {
            responses.len()
        };
        let ghost mut found: Seq<Option<RecordView>> = Seq::empty();
        let mut records: Vec<StarRecord> = Vec::new();
        let mut at: usize = 0;
        proof {
            assert(steps.take(0) =~= Seq::empty());
            assert(series_view(records@) =~= present(found));
        }
        while at < pairs
            invariant
                at <= pairs,
                pairs == steps.len(),
                pairs <= request_pages@.len(),
                pairs <= responses@.len(),
                steps == page_samples(
                    pages_view(request_pages@),
                    responses@,
                    STARGAZERS_PER_PAGE as int,
                ),
                collect(steps.take(at as int)) == Ok::<Seq<Option<RecordView>>, CrawlError>(found),
                series_view(records@) == present(found),
            decreases pairs - at,
        {
            proof {
                lemma_collect_step(steps, at as int);
                assert(steps[at as int] == page_sample(
                    request_pages@[at as int] as int,
                    responses@[at as int],
                    STARGAZERS_PER_PAGE as int,
                ));
            }
            let page = request_pages[at];
            let mut sample: Option<StarRecord> = None;
            match &responses[at] {
                Err(_) => {},
                Ok(answer) => match &answer.entries {
                    None => {
                        proof {
                            lemma_collect_failure_stays(steps, at + 1);
                        }
                        return Err(CrawlError::MalformedBody);
                    },
                    Some(entries) => {
                        if entries.len() > 0 {
                            match make_record(entries[0].starred_at.as_str(), page) {
                                Ok(record) => {
                                    sample = Some(record);
                                },
                                Err(error) => {
                                    proof {
                                        lemma_collect_failure_stays(steps, at + 1);
                                    }
                                    return Err(error);
                                },
                            }
                        }
                    },
                },
            }
            let ghost earlier = series_view(records@);
            let ghost mut item: Option<RecordView> = None;
            if let Some(record) = sample {
                proof {
                    item = Some(record@);
                }
                records.push(record);
                assert(series_view(records@) =~= earlier.push(record@));
            }
            proof {
                let more = found.push(item);
                assert(more.drop_last() =~= found);
                found = more;
            }
            at += 1;
        }
        assert(steps.take(at as int) =~= steps);
        Ok(records)
    }

    /// The requests that a run asks for while it stands at `state`, in the
    /// order in which their answers are expected.
    pub fn requests(&self, state: &Sampling) -> (wanted: Vec<ApiRequest>)
        ensures
            wanted@.map_values(|request: ApiRequest| request.url@) == wanted_urls(
                self.github.owner@,
                self.github.repo@,
                state@,
            ),
            forall|k: int|
                0 <= k < wanted@.len() ==> {
                    &&& (#[trigger] wanted@[k]).accept@ == accept_text()
                    &&& wanted@[k].user_agent@ == user_agent_text()
                    &&& wanted@[k].authorization@ == authorization_text(self.github.token@)
                },
    {
        let mut wanted: Vec<ApiRequest> = Vec::new();
        let ghost urls = wanted_urls(self.github.owner@, self.github.repo@, state@);
        match state {
            Sampling::FirstPage => {
                wanted.push(self.github.stargazers(None));
            },
            Sampling::Pages(plan) => {
                let mut at: usize = 0;
                while at < plan.len()
                    invariant
                        at <= plan@.len(),
                        urls == wanted_urls(self.github.owner@, self.github.repo@, state@),
                        state@ == SamplingView::Pages(pages_view(plan@)),
                        wanted@.len() == at,
                        forall|k: int|
                            0 <= k < at ==> {
                                &&& (#[trigger] wanted@[k]).url@ == urls[k]
                                &&& wanted@[k].accept@ == accept_text()
                                &&& wanted@[k].user_agent@ == user_agent_text()
                                &&& wanted@[k].authorization@ == authorization_text(
                                    self.github.token@,
                                )
                            },
                    decreases plan@.len() - at,
                {
                    wanted.push(self.github.stargazers(Some(plan[at])));
                    at += 1;
                }
            },
            Sampling::Total(_, _) => {
                wanted.push(self.github.star_count());
            },
            _ => {},
        }
        assert(wanted@.map_values(|request: ApiRequest| request.url@) =~= urls);
        wanted
    }

    /// Takes a run one step further: from where it stands and the answer to
    /// what it asked for, on the day `today`, to where it stands next.
    pub fn stars_on(&self, state: Sampling, answer: Answer, today: CalendarDay) -> (next: Sampling)
        ensures
            next@ == next_state(self.max_request_count as int, state@, answer, today@),
    {
        match (state, answer) {
            (Sampling::FirstPage, Answer::FirstPage(first)) => self.plan(first),
            (Sampling::Pages(plan), Answer::Pages(responses)) => self.reconstruct(
                plan,
                responses,
                today,
            ),
            (Sampling::Total(series, day), Answer::Total(total)) => match total {
                Err(error) => Sampling::Failed(error),
                Ok(count) => {
                    let mut series = series;
                    let ghost earlier = series_view(series@);
                    let record = StarRecord { date: format_ymd(day), count };
                    series.push(record);
                    assert(series_view(series@) =~= earlier.push(record@));
                    Sampling::Finished(series)
                },
            },
            (state, _) => state,
        }
    }

    /// Takes a run one step further on the current day in UTC.
    ///
    /// The day plays a part only where the answers to the planned pages
    /// arrive: there it decides whether the series is stale. Every other step
    /// is the same on every day.
    pub fn stars(&self, state: Sampling, answer: Answer) -> (next: Sampling)
        ensures
            exists|today: DayView|
                is_calendar_date(today) && next@ == #[trigger] next_state(
                    self.max_request_count as int,
                    state@,
                    answer,
                    today,
                ),
            !(state@ is Pages && answer is Pages) ==> forall|today: DayView|
                next@ == #[trigger] next_state(
                    self.max_request_count as int,
                    state@,
                    answer,
                    today,
                ),
    {
        let today = today_utc();
        self.stars_on(state, answer, today)
    }

    /// The name under which the crawler goes: the owner of its repository.
    pub fn label(&self) -> (text: String)
        ensures
            text@ == self.github.owner@,
    {
        self.github.owner.clone()
    }

    /// Decides, from the answer to the first page, whether there is
    /// anything to sample, and which pages to ask for.
    pub fn plan(&self, answer: Result<FirstPage, CrawlError>) -> (next: Sampling)
        ensures
            next@ == after_first_page(self.max_request_count as int, answer),
    {
        let first = match answer {
            Ok(first) => first,
            Err(error) => { return Sampling::Failed(error); },
        };
        if first.page.status != 200 {
            return Sampling::Failed(CrawlError::Upstream { status: first.page.status });
        }
        let counted = match &first.link {
            Some(header) => get_page_count(Some(header.as_slice())),
            None => get_page_count(None),
        };
        let page_count = match counted {
            Ok(page_count) => page_count,
            Err(error) => { return Sampling::Failed(error); },
        };
        match &first.page.entries {
            None => Sampling::Failed(CrawlError::MalformedBody),
            Some(entries) => {
                if page_count == 1 && entries.len() == 0 {
                    let empty: Vec<StarRecord> = Vec::new();
                    assert(series_view(empty@) =~= Seq::empty());
                    Sampling::Finished(empty)
                } else {
                    Sampling::Pages(get_request_pages(page_count, self.max_request_count))
                }
            },
        }
    }

    /// Builds the series from the answers to the planned pages, puts it in
    /// order, and decides on the day `today` whether the current total is
    /// needed.
    pub fn reconstruct(
        &self,
        plan: Vec<usize>,
        responses: Vec<Result<PageResponse, CrawlError>>,
        today: CalendarDay,
    ) -> (next: Sampling)
        ensures
            next@ == after_pages(
                self.max_request_count as int,
                pages_view(plan@),
                responses@,
                today@,
            ),
    {
        let built = if plan.len() < self.max_request_count {
            self.parse_all_star_responses(&responses)
        } else {
            self.sample_star_responses(&plan, &responses)
        };
        let mut series = match built {
            Ok(series) => series,
            Err(error) => { return Sampling::Failed(error); },
        };
        sort_records(&mut series);
        match needs_current_total(&series, today) {
            Err(error) => Sampling::Failed(error),
            Ok(true) => Sampling::Total(series, today),
            Ok(false) => Sampling::Finished(series),
        }
    }
}

/// The series that a run holds, where it holds one.
pub open spec fn series_of(state: SamplingView) -> Option<Seq<RecordView>> {
    match state {
        SamplingView::Total(series, _) => Some(series),
        SamplingView::Finished(series) => Some(series),
        _ => None,
    }
}

/// Whether the answers to a plan are in the order of time, as far as the
/// reconstruction reads them: all entries where the whole collection is
/// read, and the first entries of the pages where it is sampled.
pub open spec fn answers_in_order_of_time(
    max_requests: int,
    plan: Seq<int>,
    responses: Seq<Result<PageResponse, CrawlError>>,
) -> bool {
    if plan.len() < max_requests {
        match all_timestamps(responses) {
            Ok(timestamps) => in_order_of_time(timestamps),
            Err(_) => true,
        }
    } else {
        pages_in_order_of_time(plan, responses)
    }
}

/// The series that a run holds once the planned pages are answered is in
/// order, whichever way it was reconstructed; and where the answers are in
/// the order of time, its counts never fall.
pub proof fn lemma_series_is_in_order(
    max_requests: int,
    plan: Seq<int>,
    responses: Seq<Result<PageResponse, CrawlError>>,
    today: DayView,
)
    requires
        forall|k: int| 0 <= k < plan.len() ==> 0 <= #[trigger] plan[k],
    ensures
        match series_of(after_pages(max_requests, plan, responses, today)) {
            Some(series) => {
                &&& is_sorted(series)
                &&& answers_in_order_of_time(max_requests, plan, responses) ==> counts_never_fall(
                    series,
                )
            },
            None => true,
        },
{
    match reconstruction(max_requests, plan, responses) {
        Err(_) => {},
        Ok(records) => {
            lemma_sorting_exists(records);
            if answers_in_order_of_time(max_requests, plan, responses) {
                if plan.len() < max_requests {
                    let timestamps = all_timestamps(responses)->Ok_0;
                    let total = timestamps.len() as int;
                    if 0 < max_requests <= total {
                        vstd::arithmetic::div_mod::lemma_div_non_zero(total, max_requests);
                    }
                    lemma_walk_counts_follow_dates(
                        timestamps,
                        stride(total, max_requests),
                        STARGAZERS_PER_PAGE as int,
                    );
                } else {
                    lemma_samples_counts_follow_dates(plan, responses, STARGAZERS_PER_PAGE as int);
                }
                lemma_sorted_counts_never_fall(sorted_series(records), records);
            }
        },
    }
}

} // verus!
