//! Choosing which pages of a paginated collection to fetch under a request
//! budget.

use vstd::prelude::*;

verus! {

/// The page sampled at position `i` (counted from one) when `max_requests`
/// positions are spread evenly over `page_count` pages.
pub open spec fn spaced_page(i: int, page_count: int, max_requests: int) -> int {
    i * page_count / max_requests - 1
}

/// The `max_requests` evenly spaced pages, in increasing position.
pub open spec fn spaced_pages(page_count: int, max_requests: int) -> Seq<int> {
    Seq::new(max_requests as nat, |k: int| spaced_page(k + 1, page_count, max_requests))
}

/// The pages `1, 2, .., page_count - 1`.
pub open spec fn leading_pages(page_count: int) -> Seq<int> {
    if page_count <= 1 {
        Seq::empty()
    } else {
        Seq::new((page_count - 1) as nat, |k: int| k + 1)
    }
}

/// The plan for a collection of `page_count` pages and a budget of
/// `max_requests` requests.
///
/// A collection with fewer pages than the budget is read page by page, its
/// last page left out. Any other collection is sampled at evenly spaced pages,
/// with page one put in front when the samples miss it.
pub open spec fn plan_pages(page_count: int, max_requests: int) -> Seq<int> {
    if page_count < max_requests {
        leading_pages(page_count)
    } else {
        let spaced = spaced_pages(page_count, max_requests);
        if spaced.contains(1) {
            spaced
        } else {
            seq![1int] + spaced
        }
    }
}

/// A plan held in machine integers, read as mathematical page numbers.
pub open spec fn pages_view(plan: Seq<usize>) -> Seq<int> {
    plan.map_values(|page: usize| page as int)
}

/// Whether a plan asks for fewer pages than the budget allows, which is the
/// sign that the whole collection is being read.
pub open spec fn reads_everything(page_count: int, max_requests: int) -> bool {
    plan_pages(page_count, max_requests).len() < max_requests
}

proof fn lemma_spaced_page_bounds(i: int, page_count: int, max_requests: int)
    requires
        1 <= i <= max_requests,
        max_requests <= page_count,
    ensures
        0 <= spaced_page(i, page_count, max_requests) < page_count,
{
    assert(i * page_count >= max_requests) by (nonlinear_arith)
        requires
            1 <= i,
            1 <= max_requests <= page_count,
    ;
    assert(i * page_count <= max_requests * page_count) by (nonlinear_arith)
        requires
            i <= max_requests,
            0 <= page_count,
    ;
    assert(i * page_count / max_requests >= 1) by (nonlinear_arith)
        requires
            i * page_count >= max_requests,
            max_requests >= 1,
    ;
    assert(i * page_count / max_requests <= page_count) by (nonlinear_arith)
        requires
            i * page_count <= max_requests * page_count,
            max_requests >= 1,
    ;
}

proof fn lemma_spaced_page_step(i: int, page_count: int, max_requests: int)
    requires
        1 <= i,
        1 <= max_requests <= page_count,
    ensures
        spaced_page(i, page_count, max_requests) < spaced_page(i + 1, page_count, max_requests),
{
    assert((i + 1) * page_count / max_requests >= i * page_count / max_requests + 1)
        by (nonlinear_arith)
        requires
            1 <= i,
            1 <= max_requests <= page_count,
    ;
}

/// Evenly spaced pages grow strictly with their position.
pub proof fn lemma_spaced_pages_increase(i: int, j: int, page_count: int, max_requests: int)
    requires
        1 <= i < j,
        1 <= max_requests <= page_count,
    ensures
        spaced_page(i, page_count, max_requests) < spaced_page(j, page_count, max_requests),
    decreases j - i,
{
    lemma_spaced_page_step(j - 1, page_count, max_requests);
    if i < j - 1 {
        lemma_spaced_pages_increase(i, j - 1, page_count, max_requests);
    }
}

/// A plan holds page one, and so is not empty, whenever the collection has at
/// least two pages or at least as many pages as the budget.
pub proof fn lemma_plan_holds_first_page(page_count: int, max_requests: int)
    requires
        0 <= page_count,
        0 <= max_requests,
        page_count >= 2 || page_count >= max_requests,
    ensures
        plan_pages(page_count, max_requests).len() > 0,
        plan_pages(page_count, max_requests).contains(1),
{
    let plan = plan_pages(page_count, max_requests);
    if page_count < max_requests {
        assert(plan[0] == 1);
    } else {
        let spaced = spaced_pages(page_count, max_requests);
        if !spaced.contains(1) {
            assert(plan[0] == 1);
        }
    }
}

/// A plan is empty exactly when the collection has at most one page and the
/// budget exceeds the page count.
pub proof fn lemma_plan_empty(page_count: int, max_requests: int)
    requires
        0 <= page_count,
        0 <= max_requests,
    ensures
        plan_pages(page_count, max_requests).len() == 0 <==> page_count <= 1 && page_count
            < max_requests,
{
}

/// A plan is shorter than the budget exactly when the collection has fewer
/// pages than the budget.
pub proof fn lemma_plan_length(page_count: int, max_requests: int)
    requires
        0 <= page_count,
        0 <= max_requests,
    ensures
        reads_everything(page_count, max_requests) <==> page_count < max_requests,
        plan_pages(page_count, max_requests).len() <= max_requests + 1,
{
}

/// No page occurs twice in a plan.
pub proof fn lemma_plan_distinct(page_count: int, max_requests: int)
    requires
        0 <= page_count,
        0 <= max_requests,
    ensures
        plan_pages(page_count, max_requests).no_duplicates(),
{
    let plan = plan_pages(page_count, max_requests);
    if page_count >= max_requests {
        let spaced = spaced_pages(page_count, max_requests);
        assert forall|a: int, b: int| 0 <= a < b < spaced.len() implies spaced[a] < spaced[b] by {
            lemma_spaced_pages_increase(a + 1, b + 1, page_count, max_requests);
        }
        if !spaced.contains(1) {
            assert forall|a: int, b: int| 0 <= a < plan.len() && 0 <= b < plan.len() && a != b
                implies plan[a] != plan[b] by {
                if a >= 1 {
                    assert(plan[a] == spaced[a - 1]);
                }
                if b >= 1 {
                    assert(plan[b] == spaced[b - 1]);
                }
            }
        }
    }
}

/// Every page of a plan lies below the page count, except that page one is
/// planned for a collection of a single page when the budget is at most one.
pub proof fn lemma_plan_within_collection(page_count: int, max_requests: int, k: int)
    requires
        0 <= page_count,
        0 <= max_requests,
        0 <= k < plan_pages(page_count, max_requests).len(),
    ensures
        0 <= plan_pages(page_count, max_requests)[k],
        plan_pages(page_count, max_requests)[k] < page_count || plan_pages(
            page_count,
            max_requests,
        )[k] == 1,
{
    if page_count >= max_requests {
        let spaced = spaced_pages(page_count, max_requests);
        if spaced.contains(1) {
            lemma_spaced_page_bounds(k + 1, page_count, max_requests);
        } else if k >= 1 {
            lemma_spaced_page_bounds(k, page_count, max_requests);
        }
    }
}

/// Maps out the pages to request for a collection of `page_count` pages when
/// at most `max_requests_count` requests may be spent on sampling it.
pub fn get_request_pages(page_count: usize, max_requests_count: usize) -> (plan: Vec<usize>)
    ensures
        pages_view(plan@) == plan_pages(page_count as int, max_requests_count as int),
        (page_count >= 2 || page_count >= max_requests_count) ==> plan@.len() > 0
            && plan@.contains(1usize),
        plan@.len() < max_requests_count <==> page_count < max_requests_count,
{
    let mut plan: Vec<usize> = Vec::new();
    if page_count < max_requests_count {
        let mut page: usize = 1;
        while page < page_count
            invariant
                1 <= page,
                page <= page_count || page == 1,
                plan@.len() == page - 1,
                forall|k: int| 0 <= k < plan@.len() ==> plan@[k] == k + 1,
            decreases page_count - page,
        {
            plan.push(page);
            page += 1;
        }
        proof {
            let leading = leading_pages(page_count as int);
            assert(pages_view(plan@).len() == plan@.len());
            assert(leading.len() == plan@.len());
            assert forall|k: int| 0 <= k < plan@.len() implies pages_view(plan@)[k]
                == leading[k] by {
                assert(plan@[k] == k + 1);
            }
            assert(pages_view(plan@) =~= leading);
        }
    } else {
        let mut holds_first = false;
        let mut k: usize = 0;
        while k < max_requests_count
            invariant
                k <= max_requests_count <= page_count,
                plan@.len() == k,
                forall|j: int|
                    0 <= j < k ==> plan@[j] as int == spaced_page(
                        j + 1,
                        page_count as int,
                        max_requests_count as int,
                    ),
                holds_first <==> exists|j: int| 0 <= j < k && plan@[j] == 1usize,
            decreases max_requests_count - k,
        {
            let ghost earlier = plan@;
            let position: usize = k + 1;
            proof {
                lemma_spaced_page_bounds(
                    position as int,
                    page_count as int,
                    max_requests_count as int,
                );
                assert(position * page_count <= u128::MAX) by (nonlinear_arith)
                    requires
                        0 <= position <= 0xffff_ffff_ffff_ffff,
                        0 <= page_count <= 0xffff_ffff_ffff_ffff,
                ;
            }
            let product: u128 = (position as u128) * (page_count as u128);
            let page: usize = (product / (max_requests_count as u128) - 1) as usize;
            if page == 1 {
                holds_first = true;
            }
            plan.push(page);
            k += 1;
            proof {
                if page == 1 {
                    assert(plan@[k - 1] == 1usize);
                } else if holds_first {
                    let j = choose|j: int| 0 <= j < k - 1 && earlier[j] == 1usize;
                    assert(plan@[j] == 1usize);
                } else {
                    assert forall|j: int| 0 <= j < k implies plan@[j] != 1usize by {
                        if j < k - 1 {
                            assert(earlier[j] != 1usize);
                        }
                    }
                }
            }
        }
        let ghost spaced = spaced_pages(page_count as int, max_requests_count as int);
        assert(pages_view(plan@) =~= spaced);
        proof {
            if holds_first {
                let j = choose|j: int| 0 <= j < plan@.len() && plan@[j] == 1usize;
                assert(spaced[j] == 1);
            } else if spaced.contains(1) {
                let j = choose|j: int| 0 <= j < spaced.len() && spaced[j] == 1;
                assert(plan@[j] == 1usize);
            }
        }
        if !holds_first {
            plan.insert(0, 1);
            assert(pages_view(plan@) =~= seq![1int] + spaced);
        }
    }
    proof {
        lemma_plan_length(page_count as int, max_requests_count as int);
        assert(pages_view(plan@).len() == plan@.len());
        if page_count >= 2 || page_count >= max_requests_count {
            lemma_plan_holds_first_page(page_count as int, max_requests_count as int);
            let j = choose|j: int|
                0 <= j < pages_view(plan@).len() && pages_view(plan@)[j] == 1;
            assert(plan@[j] == 1usize);
        }
    }
    plan
}

} // verus!
