use sailfish::client::tracker::{ReplyTracker, Tag, PARTIAL_REPLY_TIMEOUT};

fn tag(n: u8) -> Tag {
    Tag([n; 9])
}

#[test]
fn quorum_of_six_completes_once() {
    let mut tracker = ReplyTracker::new(2, 6);
    let now: u64 = 1_000;
    let completions: Vec<bool> = (0..6).map(|r| tracker.record(tag(1), 1 << r, now)).collect();
    assert_eq!(completions, [false, true, false, false, false, false]);
    assert!(tracker.is_empty());
}

#[test]
fn duplicate_replier_ignored() {
    let mut tracker = ReplyTracker::new(2, 6);
    let now: u64 = 1_000;
    assert!(!tracker.record(tag(1), 1, now));
    assert!(!tracker.record(tag(1), 1, now));
    assert!(tracker.record(tag(1), 2, now));
    assert!(!tracker.record(tag(1), 2, now));
}

#[test]
fn timed_out_incomplete_is_abandoned() {
    let mut tracker = ReplyTracker::new(2, 6);
    let now: u64 = 1_000;
    tracker.record(tag(1), 1, now);
    assert_eq!(tracker.sweep(now), 0);
    assert_eq!(tracker.sweep(now + PARTIAL_REPLY_TIMEOUT), 1);
    assert!(tracker.is_empty());
}

#[test]
fn timed_out_done_is_not_abandoned() {
    let mut tracker = ReplyTracker::new(2, 6);
    let now: u64 = 1_000;
    tracker.record(tag(1), 1, now);
    assert!(tracker.record(tag(1), 2, now));
    assert_eq!(tracker.sweep(now + PARTIAL_REPLY_TIMEOUT), 0);
    assert!(tracker.is_empty());
}

#[test]
fn quorum_one_of_many_completes_on_first() {
    let mut tracker = ReplyTracker::new(1, 3);
    let now: u64 = 1_000;
    assert!(tracker.record(tag(1), 1, now));
    assert!(!tracker.record(tag(1), 2, now));
    assert!(!tracker.record(tag(1), 4, now));
    assert!(tracker.is_empty());
}

#[test]
fn tags_are_tracked_separately() {
    let mut tracker = ReplyTracker::new(2, 3);
    assert!(!tracker.record(tag(1), 1, 0));
    assert!(!tracker.record(tag(2), 1, 0));
    assert!(tracker.record(tag(2), 2, 0));
    assert!(tracker.record(tag(1), 4, 0));
}
