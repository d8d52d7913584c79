use std::sync::mpsc::channel;
use std::time::Duration;

use http_benchmarks::hist::{nanos, nanos_checked, Entry, HistLog};

const SECOND: u64 = 1_000_000_000;

#[test]
fn nanos_of_duration() {
    assert_eq!(nanos(Duration::new(2, 500)), 2_000_000_500);
    assert_eq!(nanos(Duration::from_millis(5)), 5_000_000);
    assert_eq!(nanos(Duration::from_secs(0)), 0);
}

#[test]
fn nanos_checked_guards_the_range() {
    assert_eq!(nanos_checked(Duration::new(2, 500)), Some(2_000_000_500));
    assert_eq!(nanos_checked(Duration::from_secs(u64::MAX)), None);
    // The largest representable whole-second duration.
    assert_eq!(
        nanos_checked(Duration::from_secs(18_446_744_072)),
        Some(18_446_744_072_000_000_000),
    );
}

#[test]
fn record_counts_samples() {
    let (tx, _rx) = channel::<Option<Entry>>();
    let mut log = HistLog::new("series", "tag", SECOND, tx, 0);
    assert_eq!(log.sample_len(), 0);
    log.record(5_000_000);
    log.record(5_000_000);
    log.record(7);
    assert_eq!(log.sample_len(), 3);
    assert_eq!(log.sample_count_at(5_000_000), 2);
    assert_eq!(log.sample_count_at(7), 1);
}

#[test]
fn check_send_before_interval_keeps_samples() {
    let (tx, rx) = channel::<Option<Entry>>();
    let mut log = HistLog::new("series", "tag", SECOND, tx, 0);
    log.record(1_000);
    log.check_send(SECOND / 2, 5 * SECOND);
    // No flush: the active histogram still holds the sample and nothing
    // was handed to the writer.
    assert_eq!(log.sample_len(), 1);
    assert!(rx.try_recv().is_err());
}

#[test]
fn check_send_after_interval_flushes_exactly_once() {
    let (tx, rx) = channel::<Option<Entry>>();
    let mut log = HistLog::new("series", "tag", SECOND, tx, 0);
    log.record(1_000);
    log.record(2_000);
    log.check_send(2 * SECOND, 5 * SECOND);
    // The active histogram is now empty.
    assert_eq!(log.sample_len(), 0);
    // Exactly one entry was enqueued, carrying both samples, with a
    // consistent time range.
    let entry = rx.try_recv().expect("one entry").expect("not the sentinel");
    assert_eq!(entry.tag, "tag");
    assert_eq!(entry.end, 5 * SECOND);
    assert_eq!(entry.start, 3 * SECOND);
    assert!(entry.end >= entry.start);
    assert_eq!(entry.hist.h.len(), 2);
    assert!(rx.try_recv().is_err());
    // Immediately re-checking at the same instant flushes nothing more.
    log.check_send(2 * SECOND, 5 * SECOND);
    assert!(rx.try_recv().is_err());
}

#[test]
fn check_send_requires_time_to_advance() {
    let (tx, rx) = channel::<Option<Entry>>();
    let mut log = HistLog::new("series", "tag", 0, tx, 7);
    log.record(1);
    // Interval zero, but the clock has not moved past the last flush.
    log.check_send(7, SECOND);
    assert!(rx.try_recv().is_err());
    log.check_send(8, SECOND);
    assert!(rx.try_recv().is_ok());
}

#[test]
fn reset_discards_samples() {
    let (tx, rx) = channel::<Option<Entry>>();
    let mut log = HistLog::new("series", "tag", SECOND, tx, 0);
    log.record(1_000);
    log.reset(10 * SECOND);
    assert_eq!(log.sample_len(), 0);
    // The flush clock restarted: one interval after the reset is needed.
    log.check_send(10 * SECOND + SECOND / 2, SECOND);
    assert!(rx.try_recv().is_err());
}

#[test]
fn clone_with_tag_shares_the_writer() {
    let (tx, rx) = channel::<Option<Entry>>();
    let master = HistLog::new("series", "master", SECOND, tx, 0);
    let mut clone = master.clone_with_tag("raw-tcp", 0);
    clone.record(42);
    clone.check_send(2 * SECOND, 9 * SECOND);
    // The clone's entry arrives on the master's channel, under the
    // clone's tag.
    let entry = rx.try_recv().expect("one entry").expect("not the sentinel");
    assert_eq!(entry.tag, "raw-tcp");
    assert_eq!(entry.hist.h.len(), 1);
}

#[test]
fn clone_with_tag_and_freq_sets_interval() {
    let (tx, rx) = channel::<Option<Entry>>();
    let master = HistLog::new("series", "master", 60 * SECOND, tx, 0);
    let mut fast = master.clone_with_tag_and_freq("raw-tcp", SECOND, 0);
    fast.record(1);
    fast.check_send(2 * SECOND, SECOND);
    assert!(rx.try_recv().is_ok());
}

#[test]
fn new_with_tag_uses_a_fresh_channel() {
    let (tx, rx) = channel::<Option<Entry>>();
    let master = HistLog::new("series", "master", SECOND, tx, 0);
    let (tx2, rx2) = channel::<Option<Entry>>();
    let mut other = master.new_with_tag("raw-tcp", tx2, 0);
    other.record(1);
    other.check_send(2 * SECOND, SECOND);
    assert!(rx.try_recv().is_err());
    assert!(rx2.try_recv().is_ok());
}

#[test]
fn close_flushes_unflushed_samples_then_signals() {
    let (tx, rx) = channel::<Option<Entry>>();
    let mut log = HistLog::new("series", "tag", 60 * SECOND, tx, 0);
    log.record(11);
    log.record(12);
    log.record(13);
    // Well before the interval: the samples are unflushed when the last
    // handle shuts down.
    log.close(SECOND, 4 * SECOND, true);
    // A final entry carrying those samples comes first...
    let entry = rx.try_recv().expect("final entry").expect("an entry, not the sentinel");
    assert_eq!(entry.hist.h.len(), 3);
    assert!(entry.end >= entry.start);
    // ...then the termination sentinel, and nothing after it.
    let sentinel = rx.try_recv().expect("sentinel");
    assert!(sentinel.is_none());
    assert!(rx.try_recv().is_err());
}

#[test]
fn close_of_empty_log_only_signals() {
    let (tx, rx) = channel::<Option<Entry>>();
    let mut log = HistLog::new("series", "tag", SECOND, tx, 0);
    log.close(SECOND, SECOND, true);
    let sentinel = rx.try_recv().expect("sentinel");
    assert!(sentinel.is_none());
    assert!(rx.try_recv().is_err());
}

#[test]
fn close_of_non_last_handle_sends_no_sentinel() {
    let (tx, rx) = channel::<Option<Entry>>();
    let mut log = HistLog::new("series", "tag", SECOND, tx, 0);
    log.record(1);
    log.close(SECOND, SECOND, false);
    let entry = rx.try_recv().expect("final entry");
    assert!(entry.is_some());
    assert!(rx.try_recv().is_err());
}
