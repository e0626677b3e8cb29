use forever_perfmon::tailscale::TailscaleTotalState;

#[test]
fn handles_counter_reset() {
    let mut state = TailscaleTotalState::new();
    assert_eq!(state.update(Some(100)).latest_bytes, Some(0));
    assert_eq!(state.update(Some(150)).delta_bytes, Some(50));
    assert_eq!(state.update(Some(20)).latest_bytes, Some(50));
    assert_eq!(state.update(Some(30)).delta_bytes, Some(10));
}

#[test]
fn missing_readings_report_nothing() {
    let mut state = TailscaleTotalState::new();
    let u = state.update(None);
    assert_eq!(u.delta_bytes, None);
    assert_eq!(u.latest_bytes, None);
    let u = state.update(Some(7));
    assert_eq!((u.delta_bytes, u.latest_bytes), (Some(0), Some(0)));
    let u = state.update(None);
    assert_eq!((u.delta_bytes, u.latest_bytes), (None, None));
    let u = state.update(Some(10));
    assert_eq!((u.delta_bytes, u.latest_bytes), (Some(3), Some(3)));
}

#[test]
fn resumes_from_a_snapshot_baseline() {
    let mut state = TailscaleTotalState::from_absolute(Some(1_000));
    let u = state.update(Some(1_250));
    assert_eq!((u.delta_bytes, u.latest_bytes), (Some(250), Some(250)));
    // the counter restarted below the baseline
    let u = state.update(Some(40));
    assert_eq!((u.delta_bytes, u.latest_bytes), (Some(0), Some(250)));
    let u = state.update(Some(100));
    assert_eq!((u.delta_bytes, u.latest_bytes), (Some(60), Some(310)));

    let mut empty = TailscaleTotalState::from_absolute(None);
    let u = empty.update(Some(5));
    assert_eq!((u.delta_bytes, u.latest_bytes), (Some(0), Some(0)));
}

#[test]
fn deltas_add_up_to_the_latest_total() {
    let mut state = TailscaleTotalState::new();
    let readings = [Some(10), Some(30), None, Some(5), Some(25), Some(25), Some(1), Some(2)];
    let mut sum = 0u64;
    let mut latest = None;
    for r in readings {
        let u = state.update(r);
        sum += u.delta_bytes.unwrap_or(0);
        if u.latest_bytes.is_some() {
            latest = u.latest_bytes;
        }
    }
    assert_eq!(latest, Some(sum));
    assert_eq!(sum, 20 + 20 + 1);
}

#[test]
fn total_saturates() {
    let mut state = TailscaleTotalState::from_absolute(Some(0));
    assert_eq!(state.update(Some(u64::MAX)).latest_bytes, Some(u64::MAX));
    let u = state.update(Some(0));
    assert_eq!((u.delta_bytes, u.latest_bytes), (Some(0), Some(u64::MAX)));
    let u = state.update(Some(10));
    assert_eq!((u.delta_bytes, u.latest_bytes), (Some(0), Some(u64::MAX)));
}

use forever_perfmon::tailscale::TailscaleTracker;
use forever_perfmon::types::IfTotals;

fn totals(received_bytes: u64, sent_bytes: u64) -> Option<IfTotals> {
    Some(IfTotals { received_bytes, sent_bytes })
}

#[test]
fn tracker_without_snapshot_shows_counters() {
    let mut tracker = TailscaleTracker::start(None);
    let r = tracker.observe(totals(100, 200));
    assert_eq!((r.received_delta, r.sent_delta), (Some(0), Some(0)));
    assert_eq!((r.received_latest, r.sent_latest), (Some(100), Some(200)));
    assert_eq!((r.received_absolute, r.sent_absolute), (Some(100), Some(200)));
    let r = tracker.observe(totals(150, 260));
    assert_eq!((r.received_delta, r.sent_delta), (Some(50), Some(60)));
    assert_eq!((r.received_latest, r.sent_latest), (Some(150), Some(260)));
    let r = tracker.observe(None);
    assert_eq!((r.received_delta, r.received_latest, r.received_absolute), (None, None, None));
}

#[test]
fn tracker_resumed_counts_from_snapshot() {
    let mut tracker = TailscaleTracker::start(Some((Some(1_000), None)));
    let r = tracker.observe(totals(1_300, 50));
    assert_eq!(r.received_latest, Some(300));
    assert_eq!(r.sent_latest, Some(50));
    assert_eq!(r.received_delta, Some(0));
    let r = tracker.observe(totals(20, 70));
    assert_eq!(r.received_latest, Some(300));
    assert_eq!(r.received_delta, Some(0));
    let r = tracker.observe(totals(45, 90));
    assert_eq!(r.received_latest, Some(325));
    assert_eq!(r.received_delta, Some(25));
    assert_eq!(r.sent_delta, Some(20));
}
