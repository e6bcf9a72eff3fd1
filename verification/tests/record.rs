use star_history::record::{compare_text, sort_records, StarRecord};

fn record(date: &str, count: usize) -> StarRecord {
    StarRecord::new(date.to_owned(), count)
}

fn pairs(records: &[StarRecord]) -> Vec<(String, usize)> {
    records
        .iter()
        .map(|record| (record.date.clone(), record.count))
        .collect()
}

#[test]
fn compare_text_orders_by_the_first_difference() {
    assert_eq!(compare_text("2020-01-01", "2020-01-02"), -1);
    assert_eq!(compare_text("2020-01-02", "2020-01-01"), 1);
    assert_eq!(compare_text("2020-01-01", "2020-01-01"), 0);
    assert_eq!(compare_text("2019-12-31", "2020-01-01"), -1);
    assert_eq!(compare_text("b", "abc"), 1);
}

#[test]
fn compare_text_puts_a_text_before_its_extensions() {
    assert_eq!(compare_text("", ""), 0);
    assert_eq!(compare_text("", "a"), -1);
    assert_eq!(compare_text("a", ""), 1);
    assert_eq!(compare_text("2020", "2020-01"), -1);
    assert_eq!(compare_text("2020-01", "2020"), 1);
}

#[test]
fn compare_text_agrees_with_the_order_of_strings() {
    let texts = ["", "-0001-01-01", "0", "2020-01-01", "2020-01-10", "9", "a", "é", "日", "😀", "~"];
    for a in texts {
        for b in texts {
            let expected = if a < b {
                -1
            } else if a == b {
                0
            } else {
                1
            };
            assert_eq!(compare_text(a, b), expected, "{:?} {:?}", a, b);
        }
    }
}

#[test]
fn precedes_goes_by_date_and_then_by_count() {
    assert!(record("2020-01-01", 30).precedes(&record("2020-01-02", 0)));
    assert!(!record("2020-01-02", 0).precedes(&record("2020-01-01", 30)));
    assert!(record("2020-01-01", 30).precedes(&record("2020-01-01", 60)));
    assert!(!record("2020-01-01", 60).precedes(&record("2020-01-01", 30)));
    assert!(record("2020-01-01", 30).precedes(&record("2020-01-01", 30)));
}

#[test]
fn new_record_holds_what_it_was_given() {
    let made = record("2021-05-06", 7);
    assert_eq!(made.date, "2021-05-06");
    assert_eq!(made.count, 7);
}

#[test]
fn sort_records_orders_by_date_then_count() {
    let mut records = vec![
        record("2020-03-01", 90),
        record("2020-01-01", 60),
        record("2020-02-01", 0),
        record("2020-01-01", 30),
        record("2019-12-31", 300),
    ];
    sort_records(&mut records);
    assert_eq!(
        pairs(&records),
        vec![
            ("2019-12-31".to_owned(), 300),
            ("2020-01-01".to_owned(), 30),
            ("2020-01-01".to_owned(), 60),
            ("2020-02-01".to_owned(), 0),
            ("2020-03-01".to_owned(), 90),
        ]
    );
}

#[test]
fn sort_records_keeps_repeated_records() {
    let mut records = vec![
        record("2020-01-02", 1),
        record("2020-01-01", 1),
        record("2020-01-02", 1),
        record("2020-01-01", 1),
    ];
    sort_records(&mut records);
    assert_eq!(
        pairs(&records),
        vec![
            ("2020-01-01".to_owned(), 1),
            ("2020-01-01".to_owned(), 1),
            ("2020-01-02".to_owned(), 1),
            ("2020-01-02".to_owned(), 1),
        ]
    );
}

#[test]
fn sort_records_leaves_short_series_alone() {
    let mut none: Vec<StarRecord> = Vec::new();
    sort_records(&mut none);
    assert!(none.is_empty());
    let mut one = vec![record("2020-01-01", 3)];
    sort_records(&mut one);
    assert_eq!(pairs(&one), vec![("2020-01-01".to_owned(), 3)]);
}

#[test]
fn sort_records_agrees_with_the_order_of_pairs() {
    let mut seed: u64 = 12345;
    for length in 0..40usize {
        let mut records = Vec::new();
        for _ in 0..length {
            seed = seed.wrapping_mul(6364136223846793005).wrapping_add(1442695040888963407);
            let day = (seed >> 33) % 5 + 1;
            let count = ((seed >> 20) % 4) as usize * 30;
            records.push(record(&format!("2020-01-0{}", day), count));
        }
        let mut expected = pairs(&records);
        expected.sort();
        sort_records(&mut records);
        assert_eq!(pairs(&records), expected);
    }
}

#[test]
fn precedes_agrees_with_the_order_of_records() {
    let records = [
        record("", 0),
        record("2019-12-31", 300),
        record("2020-01-01", 0),
        record("2020-01-01", 30),
        record("2020-01-02", 0),
        record("2020-01-10", 0),
        record("9", 1),
    ];
    for a in &records {
        for b in &records {
            assert_eq!(a.precedes(b), a <= b);
        }
    }
}
