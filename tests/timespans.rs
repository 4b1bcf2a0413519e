use std::cmp::Ordering;
use time::OffsetDateTime;
use time_tz::timezone_impl::{internal_tz_new, FixedTimespan, FixedTimespanSet, Span, Tz};

const DST_START_2022: i64 = 1_647_154_800;

fn record(utc_offset: i64, dst_offset: i64, name: &'static str) -> FixedTimespan {
    FixedTimespan { utc_offset, dst_offset, name }
}

fn leak_set(name: &'static str, first: FixedTimespan, others: Vec<(i64, FixedTimespan)>) -> &'static FixedTimespanSet {
    let others: &'static [(i64, FixedTimespan)] = Box::leak(others.into_boxed_slice());
    Box::leak(Box::new(FixedTimespanSet { name, first, others }))
}

fn new_york() -> Tz {
    let set = leak_set("America/New_York", record(-18000, 0, "EST"), vec![(DST_START_2022, record(-14400, 3600, "EDT"))]);
    assert!(set.is_valid());
    internal_tz_new(set)
}

fn linear_scan(set: &FixedTimespanSet, t: i64) -> usize {
    let mut index = 0;
    for (k, (start, _)) in set.others.iter().enumerate() {
        if *start <= t {
            index = k + 1;
        }
    }
    index
}

#[test]
fn est_to_edt_scenario() {
    let tz = new_york();
    let before = OffsetDateTime::from_unix_timestamp(DST_START_2022 - 1).unwrap();
    let at = OffsetDateTime::from_unix_timestamp(DST_START_2022).unwrap();
    assert_eq!((before.year(), before.month() as u8, before.day()), (2022, 3, 13));
    assert_eq!((before.hour(), before.minute(), before.second()), (6, 59, 59));
    assert_eq!((at.hour(), at.minute(), at.second()), (7, 0, 0));
    let a = tz.get_offset_utc(&before);
    assert_eq!(a.name(), "EST");
    assert_eq!(a.to_utc().whole_seconds(), -18000);
    let b = tz.get_offset_utc(&at);
    assert_eq!(b.name(), "EDT");
    assert_eq!(b.to_utc().whole_seconds(), -14400);
}

#[test]
fn boundary_is_exact() {
    let set = leak_set(
        "Test/Boundaries",
        record(0, 0, "A"),
        vec![(-100, record(3600, 0, "B")), (0, record(7200, 3600, "C")), (500, record(-3600, 0, "D"))],
    );
    let tz = internal_tz_new(set);
    assert_eq!(tz.get_offset_at_timestamp(-101).name(), "A");
    assert_eq!(tz.get_offset_at_timestamp(-100).name(), "B");
    assert_eq!(tz.get_offset_at_timestamp(-1).name(), "B");
    assert_eq!(tz.get_offset_at_timestamp(0).name(), "C");
    assert_eq!(tz.get_offset_at_timestamp(499).name(), "C");
    assert_eq!(tz.get_offset_at_timestamp(500).name(), "D");
    assert_eq!(tz.get_offset_at_timestamp(500).to_utc().whole_seconds(), -3600);
}

#[test]
fn unbounded_ends() {
    let tz = new_york();
    assert_eq!(tz.get_offset_at_timestamp(i64::MIN).name(), "EST");
    assert_eq!(tz.get_offset_at_timestamp(i64::MAX).name(), "EDT");
}

#[test]
fn singleton_zone() {
    let set = leak_set("Etc/UTC", record(0, 0, "UTC"), vec![]);
    assert!(set.is_valid());
    let tz = internal_tz_new(set);
    for t in [i64::MIN, -1, 0, 1, i64::MAX] {
        let offset = tz.get_offset_at_timestamp(t);
        assert_eq!(offset.name(), "UTC");
        assert_eq!(offset.to_utc().whole_seconds(), 0);
    }
    assert_eq!(tz.name(), "Etc/UTC");
}

#[test]
fn search_matches_linear_scan() {
    let mut seed: u64 = 0x2545_f491_4f6c_dd1d;
    let mut next = move || {
        seed ^= seed << 13;
        seed ^= seed >> 7;
        seed ^= seed << 17;
        seed
    };
    let names: [&'static str; 5] = ["R0", "R1", "R2", "R3", "R4"];
    for round in 0..200 {
        let count = (next() % 12) as usize;
        let mut stamps: Vec<i64> = (0..count).map(|_| (next() % 2000) as i64 - 1000).collect();
        stamps.sort();
        stamps.dedup();
        let others: Vec<(i64, FixedTimespan)> = stamps
            .iter()
            .enumerate()
            .map(|(k, s)| (*s, record((k as i64 + 1) * 60, 0, names[(k + 1) % 5])))
            .collect();
        let set = leak_set("Test/Random", record(0, 0, names[0]), others);
        assert!(set.is_valid());
        let tz = internal_tz_new(set);
        for _ in 0..50 {
            let t = (next() % 2400) as i64 - 1200 + round % 3;
            let expected = linear_scan(set, t);
            let found = tz.get_offset_at_timestamp(t);
            assert_eq!(found.to_utc().whole_seconds() as i64, expected as i64 * 60);
        }
    }
}

#[test]
fn span_comparison() {
    let both = Span { start: Some(10), end: Some(20) };
    assert_eq!(both.cmp(9), Ordering::Greater);
    assert_eq!(both.cmp(10), Ordering::Equal);
    assert_eq!(both.cmp(19), Ordering::Equal);
    assert_eq!(both.cmp(20), Ordering::Less);
    let last = Span { start: Some(10), end: None };
    assert_eq!(last.cmp(9), Ordering::Greater);
    assert_eq!(last.cmp(i64::MAX), Ordering::Equal);
    let first = Span { start: None, end: Some(10) };
    assert_eq!(first.cmp(i64::MIN), Ordering::Equal);
    assert_eq!(first.cmp(10), Ordering::Less);
    let whole = Span { start: None, end: None };
    assert_eq!(whole.cmp(i64::MIN), Ordering::Equal);
    assert_eq!(whole.cmp(i64::MAX), Ordering::Equal);
}

#[test]
fn spans_and_records_of_a_set() {
    let set = leak_set("Test/Spans", record(0, 0, "A"), vec![(5, record(60, 0, "B")), (9, record(120, 0, "C"))]);
    assert_eq!(set.len(), 3);
    let s0 = set.span_utc(0);
    assert_eq!((s0.start, s0.end), (None, Some(5)));
    let s1 = set.span_utc(1);
    assert_eq!((s1.start, s1.end), (Some(5), Some(9)));
    let s2 = set.span_utc(2);
    assert_eq!((s2.start, s2.end), (Some(9), None));
    assert_eq!(set.index(0).name, "A");
    assert_eq!(set.index(2), &record(120, 0, "C"));
}

#[test]
fn invalid_sets_are_detected() {
    let unordered = leak_set("Test/Unordered", record(0, 0, "A"), vec![(9, record(0, 0, "B")), (5, record(0, 0, "C"))]);
    assert!(!unordered.is_valid());
    let repeated = leak_set("Test/Repeated", record(0, 0, "A"), vec![(5, record(0, 0, "B")), (5, record(0, 0, "C"))]);
    assert!(!repeated.is_valid());
    let far = leak_set("Test/Far", record(93600, 0, "A"), vec![]);
    assert!(!far.is_valid());
    let far_later = leak_set("Test/FarLater", record(0, 0, "A"), vec![(5, record(-93600, 0, "B"))]);
    assert!(!far_later.is_valid());
    let edge = leak_set("Test/Edge", record(93599, 0, "A"), vec![(5, record(-93599, 0, "B"))]);
    assert!(edge.is_valid());
    let tz = internal_tz_new(edge);
    assert_eq!(tz.get_offset_at_timestamp(0).to_utc().whole_seconds(), 93599);
    assert_eq!(tz.get_offset_at_timestamp(5).to_utc().whole_seconds(), -93599);
}
