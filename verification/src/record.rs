//! Points of a growth curve and the order in which a series holds them.

use vstd::prelude::*;
use vstd::relations::{sorted_by, total_ordering};
use vstd::seq_lib::*;

verus! {

/// One point of a reconstructed growth curve: on `date`, written
/// `YYYY-MM-DD`, the collection held about `count` entries.
#[derive(Debug, Clone, PartialEq, Eq, PartialOrd, Ord)]
pub struct StarRecord {
    pub date: String,
    pub count: usize,
}

/// What a [`StarRecord`] stands for: the characters of its date and its count.
pub ghost struct RecordView {
    pub date: Seq<char>,
    pub count: nat,
}

impl View for StarRecord {
    type V = RecordView;

    open spec fn view(&self) -> RecordView {
        RecordView { date: self.date@, count: self.count as nat }
    }
}

/// The views of a sequence of records, in the same order.
pub open spec fn series_view(records: Seq<StarRecord>) -> Seq<RecordView> {
    records.map_values(|record: StarRecord| record@)
}

/// Compares two texts character by character, by code point: negative when
/// `a` comes first, zero when the texts are equal, positive when `b` comes
/// first. A text comes before every longer text that starts with it.
pub open spec fn text_order(a: Seq<char>, b: Seq<char>) -> int
    decreases a.len(),
{
    if a.len() == 0 {
        if b.len() == 0 {
            0
        } else {
            -1
        }
    } else if b.len() == 0 {
        1
    } else if (a[0] as int) < (b[0] as int) {
        -1
    } else if (a[0] as int) > (b[0] as int) {
        1
    } else {
        text_order(a.drop_first(), b.drop_first())
    }
}

/// The order of records: by date, and by count among records of one date.
pub open spec fn record_le(a: RecordView, b: RecordView) -> bool {
    text_order(a.date, b.date) < 0 || (text_order(a.date, b.date) == 0 && a.count <= b.count)
}

/// Whether every record of a series is followed only by records that do not
/// come before it.
pub open spec fn is_sorted(series: Seq<RecordView>) -> bool {
    forall|i: int, j: int| 0 <= i < j < series.len() ==> record_le(series[i], series[j])
}

/// Whether `sorted` holds the records of `series`, each as often as `series`
/// does, in order.
pub open spec fn is_sorting_of(sorted: Seq<RecordView>, series: Seq<RecordView>) -> bool {
    is_sorted(sorted) && sorted.to_multiset() == series.to_multiset()
}

/// Two texts compare as equal exactly when they are the same text.
pub proof fn lemma_text_order_zero(a: Seq<char>, b: Seq<char>)
    ensures
        text_order(a, b) == 0 <==> a == b,
    decreases a.len(),
{
    if a.len() > 0 && b.len() > 0 {
        lemma_text_order_zero(a.drop_first(), b.drop_first());
        if a[0] == b[0] && a.drop_first() == b.drop_first() {
            assert(a =~= seq![a[0]] + a.drop_first());
            assert(b =~= seq![b[0]] + b.drop_first());
        }
    } else if a.len() == 0 && b.len() == 0 {
        assert(a =~= b);
    }
}

/// Swapping the two texts flips the sign of their comparison.
pub proof fn lemma_text_order_flip(a: Seq<char>, b: Seq<char>)
    ensures
        text_order(b, a) == -text_order(a, b),
        -1 <= text_order(a, b) <= 1,
    decreases a.len(),
{
    if a.len() > 0 && b.len() > 0 {
        lemma_text_order_flip(a.drop_first(), b.drop_first());
    }
}

/// If `a` does not come after `b`, and `b` does not come after `c`, then `a`
/// does not come after `c`; and `a` comes strictly before `c` when either step
/// is strict.
pub proof fn lemma_text_order_chain(a: Seq<char>, b: Seq<char>, c: Seq<char>)
    requires
        text_order(a, b) <= 0,
        text_order(b, c) <= 0,
    ensures
        text_order(a, c) <= 0,
        text_order(a, b) < 0 || text_order(b, c) < 0 ==> text_order(a, c) < 0,
    decreases a.len(),
{
    lemma_text_order_flip(a, b);
    lemma_text_order_flip(b, c);
    lemma_text_order_flip(a, c);
    if a.len() > 0 && b.len() > 0 && c.len() > 0 {
        if a[0] == b[0] && b[0] == c[0] {
            lemma_text_order_chain(a.drop_first(), b.drop_first(), c.drop_first());
        }
    }
}

/// Of two records, one does not come after the other.
pub proof fn lemma_record_le_total(a: RecordView, b: RecordView)
    ensures
        record_le(a, b) || record_le(b, a),
{
    lemma_text_order_flip(a.date, b.date);
}

/// The order of records is transitive.
pub proof fn lemma_record_le_transitive(a: RecordView, b: RecordView, c: RecordView)
    requires
        record_le(a, b),
        record_le(b, c),
    ensures
        record_le(a, c),
{
    lemma_text_order_chain(a.date, b.date, c.date);
}

/// Two records that do not come after each other are the same record.
pub proof fn lemma_record_le_antisymmetric(a: RecordView, b: RecordView)
    requires
        record_le(a, b),
        record_le(b, a),
    ensures
        a == b,
{
    lemma_text_order_flip(a.date, b.date);
    lemma_text_order_zero(a.date, b.date);
}

/// The order of records is a total order.
pub proof fn lemma_record_le_is_total_ordering()
    ensures
        total_ordering(|x: RecordView, y: RecordView| record_le(x, y)),
{
    let le = |x: RecordView, y: RecordView| record_le(x, y);
    assert forall|x: RecordView| #[trigger] le(x, x) by {
        lemma_text_order_zero(x.date, x.date);
    }
    assert forall|x: RecordView, y: RecordView| #[trigger] le(x, y) && #[trigger] le(y, x)
        implies x == y by {
        lemma_record_le_antisymmetric(x, y);
    }
    assert forall|x: RecordView, y: RecordView, z: RecordView| #[trigger]
        le(x, y) && #[trigger] le(y, z) implies le(x, z) by {
        lemma_record_le_transitive(x, y, z);
    }
    assert forall|x: RecordView, y: RecordView| #[trigger] le(x, y) || #[trigger] le(y, x) by {
        lemma_record_le_total(x, y);
    }
}

/// A series has one sorting: two sequences that both hold its records in
/// order are the same sequence.
pub proof fn lemma_sorting_is_unique(a: Seq<RecordView>, b: Seq<RecordView>, series: Seq<RecordView>)
    requires
        is_sorting_of(a, series),
        is_sorting_of(b, series),
    ensures
        a == b,
{
    let le = |x: RecordView, y: RecordView| record_le(x, y);
    lemma_record_le_is_total_ordering();
    assert(sorted_by(a, le));
    assert(sorted_by(b, le));
    lemma_sorted_unique(a, b, le);
}

/// Every series has a sorting, and [`sorted_series`] is it.
pub proof fn lemma_sorting_exists(series: Seq<RecordView>)
    ensures
        is_sorting_of(sorted_series(series), series),
{
    let le = |x: RecordView, y: RecordView| record_le(x, y);
    lemma_record_le_is_total_ordering();
    series.lemma_sort_by_ensures(le);
    let sorted = series.sort_by(le);
    assert(is_sorted(sorted)) by {
        assert forall|i: int, j: int| 0 <= i < j < sorted.len() implies record_le(
            sorted[i],
            sorted[j],
        ) by {
            assert(le(sorted[i], sorted[j]));
        }
    }
    assert(is_sorting_of(sorted, series));
}

/// Whether the counts of a series go with its dates: a record with an
/// earlier date never has a greater count than a record with a later date,
/// wherever the two stand.
pub open spec fn counts_follow_dates(series: Seq<RecordView>) -> bool {
    forall|i: int, j: int|
        0 <= i < series.len() && 0 <= j < series.len() && text_order(
            #[trigger] series[i].date,
            #[trigger] series[j].date,
        ) < 0 ==> series[i].count <= series[j].count
}

/// Whether the counts of a series never fall from one record to the next.
pub open spec fn counts_never_fall(series: Seq<RecordView>) -> bool {
    forall|i: int, j: int|
        0 <= i < j < series.len() ==> (#[trigger] series[i]).count <= (#[trigger] series[j]).count
}

/// Sorting a series whose counts go with its dates gives a series whose
/// counts never fall.
pub proof fn lemma_sorted_counts_never_fall(sorted: Seq<RecordView>, series: Seq<RecordView>)
    requires
        is_sorting_of(sorted, series),
        counts_follow_dates(series),
    ensures
        counts_never_fall(sorted),
{
    assert forall|i: int, j: int| 0 <= i < j < sorted.len() implies (#[trigger] sorted[i]).count
        <= (#[trigger] sorted[j]).count by {
        to_multiset_contains(sorted, sorted[i]);
        to_multiset_contains(sorted, sorted[j]);
        to_multiset_contains(series, sorted[i]);
        to_multiset_contains(series, sorted[j]);
        assert(sorted.contains(sorted[i]));
        assert(sorted.contains(sorted[j]));
        let p = choose|p: int| 0 <= p < series.len() && series[p] == sorted[i];
        let q = choose|q: int| 0 <= q < series.len() && series[q] == sorted[j];
        assert(record_le(sorted[i], sorted[j]));
        if text_order(sorted[i].date, sorted[j].date) < 0 {
            assert(text_order(series[p].date, series[q].date) < 0);
        }
    }
}

/// The sorting of a series: the sequence that holds its records, each as
/// often as the series does, in order.
pub open spec fn sorted_series(series: Seq<RecordView>) -> Seq<RecordView> {
    choose|sorted: Seq<RecordView>| is_sorting_of(sorted, series)
}

/// Compares two texts as [`text_order`] does.
pub fn compare_text(a: &str, b: &str) -> (order: i8)
    ensures
        order as int == text_order(a@, b@),
{
    let a_len = a.unicode_len();
    let b_len = b.unicode_len();
    let mut i: usize = 0;
    assert(a@.skip(0) =~= a@ && b@.skip(0) =~= b@);
    while i < a_len && i < b_len
        invariant
            a_len == a@.len(),
            b_len == b@.len(),
            i <= a_len,
            i <= b_len,
            text_order(a@, b@) == text_order(a@.skip(i as int), b@.skip(i as int)),
        decreases a_len - i,
    {
        let x = a.get_char(i);
        let y = b.get_char(i);
        proof {
            assert(a@.skip(i as int)[0] == x);
            assert(b@.skip(i as int)[0] == y);
            assert(a@.skip(i as int).drop_first() =~= a@.skip(i + 1));
            assert(b@.skip(i as int).drop_first() =~= b@.skip(i + 1));
        }
        if (x as u32) < (y as u32) {
            return -1;
        }
        if (x as u32) > (y as u32) {
            return 1;
        }
        i += 1;
    }
    if i < b_len {
        -1
    } else if i < a_len {
        1
    } else {
        0
    }
}

impl StarRecord {
    /// A record for `count` entries on `date`.
    pub fn new(date: String, count: usize) -> (record: StarRecord)
        ensures
            record.date == date,
            record.count == count,
    {
        StarRecord { date, count }
    }

    /// Whether this record does not come after `other` in a series.
    pub fn precedes(&self, other: &StarRecord) -> (answer: bool)
        ensures
            answer == record_le(self@, other@),
    {
        let order = compare_text(self.date.as_str(), other.date.as_str());
        order < 0 || (order == 0 && self.count <= other.count)
    }
}

/// Puts a series in order: by date, and by count among records of one date.
/// The records themselves are kept, none added and none lost.
pub fn sort_records(records: &mut Vec<StarRecord>)
    ensures
        is_sorting_of(series_view(final(records)@), series_view(old(records)@)),
        series_view(final(records)@) == sorted_series(series_view(old(records)@)),
        final(records)@.to_multiset() == old(records)@.to_multiset(),
{
    let mut placed: usize = 0;
    while placed < records.len()
        invariant
            placed <= records@.len(),
            records@.to_multiset() == old(records)@.to_multiset(),
            series_view(records@).to_multiset() == series_view(old(records)@).to_multiset(),
            is_sorted(series_view(records@.take(placed as int))),
        decreases records@.len() - placed,
    {
        let ghost before = records@;
        let record = records.remove(placed);
        let ghost rest = records@;
        let mut slot: usize = 0;
        while slot < placed && records[slot].precedes(&record)
            invariant
                slot <= placed <= rest.len(),
                records@ == rest,
                forall|k: int| 0 <= k < slot ==> record_le(rest[k]@, record@),
            decreases placed - slot,
        {
            slot += 1;
        }
        records.insert(slot, record);
        placed += 1;
        proof {
            to_multiset_remove(before, placed - 1);
            to_multiset_insert(rest, slot as int, record);
            assert(before.to_multiset().count(record) > 0) by {
                to_multiset_contains(before, record);
                assert(before[placed - 1] == record);
            }
            assert(records@.to_multiset() =~= before.to_multiset());
            assert(series_view(rest) =~= series_view(before).remove(placed - 1));
            assert(series_view(records@) =~= series_view(rest).insert(slot as int, record@));
            to_multiset_remove(series_view(before), placed - 1);
            to_multiset_insert(series_view(rest), slot as int, record@);
            assert(series_view(before).to_multiset().count(record@) > 0) by {
                to_multiset_contains(series_view(before), record@);
                assert(series_view(before)[placed - 1] == record@);
            }
            assert(series_view(records@).to_multiset() =~= series_view(before).to_multiset());
            let sorted_before = series_view(before.take(placed - 1));
            let sorted_now = series_view(records@.take(placed as int));
            assert forall|i: int, j: int| 0 <= i < j < sorted_now.len() implies record_le(
                sorted_now[i],
                sorted_now[j],
            ) by {
                if j < slot {
                    assert(sorted_now[i] == sorted_before[i]);
                    assert(sorted_now[j] == sorted_before[j]);
                } else if j == slot {
                    assert(sorted_now[i] == rest[i]@);
                } else {
                    assert(sorted_now[j] == sorted_before[j - 1]);
                    if i < slot {
                        assert(sorted_now[i] == sorted_before[i]);
                    } else if i == slot {
                        // The record at `slot` before the insertion comes after `record`,
                        // and everything later in the sorted part comes after that one.
                        assert(sorted_before[slot as int] == rest[slot as int]@);
                        lemma_record_le_total(rest[slot as int]@, record@);
                        if j - 1 > slot {
                            lemma_record_le_transitive(
                                record@,
                                sorted_before[slot as int],
                                sorted_before[j - 1],
                            );
                        }
                    } else {
                        assert(sorted_now[i] == sorted_before[i - 1]);
                    }
                }
            }
        }
    }
    assert(records@.take(placed as int) =~= records@);
    proof {
        lemma_sorting_is_unique(
            series_view(records@),
            sorted_series(series_view(old(records)@)),
            series_view(old(records)@),
        );
    }
}

} // verus!
