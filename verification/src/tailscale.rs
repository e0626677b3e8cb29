//! Running byte totals for the Tailscale adapter.
//!
//! The adapter's counters restart from a lower value when the adapter is
//! re-created; the state keeps what was counted before such a restart in
//! `carry_bytes`, so the reported total keeps growing across restarts.
use vstd::prelude::*;
use crate::types::IfTotals;

verus! {

pub struct TailscaleTotalState {
    base_bytes: Option<u64>,
    carry_bytes: u64,
    last_bytes: Option<u64>,
}

/// What one reading of the adapter's counter reports.
pub struct TailscaleUpdate {
    pub delta_bytes: Option<u64>,
    pub latest_bytes: Option<u64>,
}

/// The contents of a `TailscaleTotalState`.
pub struct TailscaleTotalView {
    /// The counter value from which the current run of the counter is measured.
    pub base_bytes: Option<u64>,
    /// Bytes counted in earlier runs of the counter, before it restarted.
    pub carry_bytes: u64,
    /// The last counter value read.
    pub last_bytes: Option<u64>,
}

impl View for TailscaleTotalState {
    type V = TailscaleTotalView;

    closed spec fn view(&self) -> TailscaleTotalView {
        TailscaleTotalView {
            base_bytes: self.base_bytes,
            carry_bytes: self.carry_bytes,
            last_bytes: self.last_bytes,
        }
    }
}

impl TailscaleTotalView {
    /// A baseline and a last reading are present together, the last reading
    /// is not below the baseline, and nothing is carried before a baseline.
    pub open spec fn wf(self) -> bool {
        &&& self.base_bytes is Some <==> self.last_bytes is Some
        &&& self.base_bytes is None ==> self.carry_bytes == 0
        &&& self.base_bytes is Some ==> self.base_bytes->0 <= self.last_bytes->0
    }

    /// Bytes counted since the baseline was first set.
    pub open spec fn total(self) -> Option<u64> {
        match (self.base_bytes, self.last_bytes) {
            (Some(base), Some(last)) => Some(self.carry_bytes.saturating_add(last.saturating_sub(base))),
            _ => None,
        }
    }

    /// Whether reading `absolute` means that the counter restarted.
    pub open spec fn is_reset(self, absolute: u64) -> bool {
        match (self.last_bytes, self.base_bytes) {
            (Some(last), Some(_)) => absolute < last,
            _ => false,
        }
    }

    /// The state after reading `absolute_bytes`.
    pub open spec fn next(self, absolute_bytes: Option<u64>) -> TailscaleTotalView {
        match absolute_bytes {
            None => self,
            Some(absolute) => if self.base_bytes is None {
                TailscaleTotalView {
                    base_bytes: Some(absolute),
                    carry_bytes: self.carry_bytes,
                    last_bytes: Some(absolute),
                }
            } else if self.is_reset(absolute) {
                TailscaleTotalView {
                    base_bytes: Some(absolute),
                    carry_bytes: self.carry_bytes.saturating_add(
                        self.last_bytes->0.saturating_sub(self.base_bytes->0),
                    ),
                    last_bytes: Some(absolute),
                }
            } else {
                TailscaleTotalView {
                    base_bytes: self.base_bytes,
                    carry_bytes: self.carry_bytes,
                    last_bytes: Some(absolute),
                }
            },
        }
    }

    /// The report for reading `absolute_bytes`.
    pub open spec fn report(self, absolute_bytes: Option<u64>) -> TailscaleUpdate {
        match absolute_bytes {
            None => TailscaleUpdate { delta_bytes: None, latest_bytes: None },
            Some(_) => if self.base_bytes is None {
                TailscaleUpdate { delta_bytes: Some(0), latest_bytes: Some(0) }
            } else {
                let after = self.next(absolute_bytes);
                TailscaleUpdate {
                    delta_bytes: match (self.total(), after.total()) {
                        (Some(previous), Some(current)) => Some(current.saturating_sub(previous)),
                        _ => Some(0),
                    },
                    latest_bytes: after.total(),
                }
            },
        }
    }
}

impl TailscaleTotalState {
    /// A state with no baseline: the first reading sets it.
    pub fn new() -> (res: Self)
        ensures
            res@ == (TailscaleTotalView { base_bytes: None, carry_bytes: 0, last_bytes: None }),
            res@.wf(),
    {
        TailscaleTotalState { base_bytes: None, carry_bytes: 0, last_bytes: None }
    }

    /// A state whose baseline is `value`, counted from zero.
    pub fn from_absolute(value: Option<u64>) -> (res: Self)
        ensures
            res@ == (TailscaleTotalView { base_bytes: value, carry_bytes: 0, last_bytes: value }),
            res@.wf(),
    {
        TailscaleTotalState { base_bytes: value, carry_bytes: 0, last_bytes: value }
    }

    fn total(&self) -> (res: Option<u64>)
        ensures
            res == self@.total(),
    {
        let base = match self.base_bytes {
            Some(b) => b,
            None => return None,
        };
        let last = match self.last_bytes {
            Some(l) => l,
            None => return None,
        };
        Some(self.carry_bytes.saturating_add(last.saturating_sub(base)))
    }

    /// Reads the adapter counter's value, if it could be read.
    pub fn update(&mut self, absolute_bytes: Option<u64>) -> (res: TailscaleUpdate)
        ensures
            final(self)@ == old(self)@.next(absolute_bytes),
            res == old(self)@.report(absolute_bytes),
            old(self)@.wf() ==> final(self)@.wf(),
    {
        let absolute = match absolute_bytes {
            Some(a) => a,
            None => {
                return TailscaleUpdate { delta_bytes: None, latest_bytes: None };
            },
        };
        let previous_total = self.total();
        if self.base_bytes.is_none() {
            *self = TailscaleTotalState {
                base_bytes: Some(absolute),
                carry_bytes: self.carry_bytes,
                last_bytes: Some(absolute),
            };
            return TailscaleUpdate { delta_bytes: Some(0), latest_bytes: Some(0) };
        }
        let mut base_bytes = self.base_bytes;
        let mut carry_bytes = self.carry_bytes;
        if let (Some(last), Some(base)) = (self.last_bytes, self.base_bytes) {
            if absolute < last {
                carry_bytes = carry_bytes.saturating_add(last.saturating_sub(base));
                base_bytes = Some(absolute);
            }
        }
        *self = TailscaleTotalState { base_bytes, carry_bytes, last_bytes: Some(absolute) };
        let current_total = self.total();
        let delta = match (previous_total, current_total) {
            (Some(previous), Some(current)) => Some(current.saturating_sub(previous)),
            _ => Some(0),
        };
        TailscaleUpdate { delta_bytes: delta, latest_bytes: current_total }
    }
}

/// The Tailscale figures of one sampling tick.
pub struct TailscaleReport {
    /// Bytes received since the previous tick.
    pub received_delta: Option<u64>,
    /// Bytes sent since the previous tick.
    pub sent_delta: Option<u64>,
    /// Bytes received since the snapshot's reading, or the adapter's counter
    /// when there is no snapshot reading to count from.
    pub received_latest: Option<u64>,
    /// Bytes sent since the snapshot's reading, or the adapter's counter.
    pub sent_latest: Option<u64>,
    /// The adapter's received counter.
    pub received_absolute: Option<u64>,
    /// The adapter's sent counter.
    pub sent_absolute: Option<u64>,
}

/// Per-tick Tailscale bookkeeping of the monitor: deltas since the previous
/// tick, and totals since the snapshot when the monitor resumed from one.
pub struct TailscaleTracker {
    received_delta: TailscaleTotalState,
    sent_delta: TailscaleTotalState,
    received_latest: TailscaleTotalState,
    sent_latest: TailscaleTotalState,
    received_from_snapshot: bool,
    sent_from_snapshot: bool,
}

pub struct TailscaleTrackerView {
    pub received_delta: TailscaleTotalView,
    pub sent_delta: TailscaleTotalView,
    pub received_latest: TailscaleTotalView,
    pub sent_latest: TailscaleTotalView,
    pub received_from_snapshot: bool,
    pub sent_from_snapshot: bool,
}

impl View for TailscaleTracker {
    type V = TailscaleTrackerView;

    closed spec fn view(&self) -> TailscaleTrackerView {
        TailscaleTrackerView {
            received_delta: self.received_delta@,
            sent_delta: self.sent_delta@,
            received_latest: self.received_latest@,
            sent_latest: self.sent_latest@,
            received_from_snapshot: self.received_from_snapshot,
            sent_from_snapshot: self.sent_from_snapshot,
        }
    }
}

pub open spec fn empty_view() -> TailscaleTotalView {
    TailscaleTotalView { base_bytes: None, carry_bytes: 0, last_bytes: None }
}

pub open spec fn baseline_view(value: Option<u64>) -> TailscaleTotalView {
    TailscaleTotalView { base_bytes: value, carry_bytes: 0, last_bytes: value }
}

/// The figure shown as "latest": the total since the snapshot when counting
/// from one, the counter itself otherwise.
pub open spec fn latest_of(
    state: TailscaleTotalView,
    from_snapshot: bool,
    absolute: Option<u64>,
) -> Option<u64> {
    if from_snapshot {
        state.report(absolute).latest_bytes
    } else {
        absolute
    }
}

impl TailscaleTracker {
    /// Bookkeeping for a run. When the run continues a snapshot, the
    /// snapshot's counter readings are the baselines of the latest totals;
    /// a direction without a reading shows its counter instead.
    pub fn start(snapshot: Option<(Option<u64>, Option<u64>)>) -> (res: Self)
        ensures
            res@.received_delta == empty_view(),
            res@.sent_delta == empty_view(),
            match snapshot {
                Some((received, sent)) => {
                    &&& res@.received_latest == baseline_view(received)
                    &&& res@.sent_latest == baseline_view(sent)
                    &&& res@.received_from_snapshot == received is Some
                    &&& res@.sent_from_snapshot == sent is Some
                },
                None => {
                    &&& res@.received_latest == empty_view()
                    &&& res@.sent_latest == empty_view()
                    &&& !res@.received_from_snapshot
                    &&& !res@.sent_from_snapshot
                },
            },
    {
        match snapshot {
            Some((received, sent)) => TailscaleTracker {
                received_delta: TailscaleTotalState::new(),
                sent_delta: TailscaleTotalState::new(),
                received_latest: TailscaleTotalState::from_absolute(received),
                sent_latest: TailscaleTotalState::from_absolute(sent),
                received_from_snapshot: received.is_some(),
                sent_from_snapshot: sent.is_some(),
            },
            None => TailscaleTracker {
                received_delta: TailscaleTotalState::new(),
                sent_delta: TailscaleTotalState::new(),
                received_latest: TailscaleTotalState::new(),
                sent_latest: TailscaleTotalState::new(),
                received_from_snapshot: false,
                sent_from_snapshot: false,
            },
        }
    }

    /// Takes one tick's adapter counters, if the adapter was found.
    pub fn observe(&mut self, totals: Option<IfTotals>) -> (res: TailscaleReport)
        ensures
            ({
                let received = match totals {
                    Some(t) => Some(t.received_bytes),
                    None => None,
                };
                let sent = match totals {
                    Some(t) => Some(t.sent_bytes),
                    None => None,
                };
                let before = old(self)@;
                let after = final(self)@;
                &&& after.received_delta == before.received_delta.next(received)
                &&& after.sent_delta == before.sent_delta.next(sent)
                &&& after.received_latest == if before.received_from_snapshot {
                    before.received_latest.next(received)
                } else {
                    before.received_latest
                }
                &&& after.sent_latest == if before.sent_from_snapshot {
                    before.sent_latest.next(sent)
                } else {
                    before.sent_latest
                }
                &&& after.received_from_snapshot == before.received_from_snapshot
                &&& after.sent_from_snapshot == before.sent_from_snapshot
                &&& res.received_delta == before.received_delta.report(received).delta_bytes
                &&& res.sent_delta == before.sent_delta.report(sent).delta_bytes
                &&& res.received_latest == latest_of(
                    before.received_latest,
                    before.received_from_snapshot,
                    received,
                )
                &&& res.sent_latest == latest_of(before.sent_latest, before.sent_from_snapshot, sent)
                &&& res.received_absolute == received
                &&& res.sent_absolute == sent
            }),
    {
        let received = match totals {
            Some(t) => Some(t.received_bytes),
            None => None,
        };
        let sent = match totals {
            Some(t) => Some(t.sent_bytes),
            None => None,
        };
        let received_delta = self.received_delta.update(received).delta_bytes;
        let sent_delta = self.sent_delta.update(sent).delta_bytes;
        let received_latest = if self.received_from_snapshot {
            self.received_latest.update(received).latest_bytes
        } else {
            received
        };
        let sent_latest = if self.sent_from_snapshot {
            self.sent_latest.update(sent).latest_bytes
        } else {
            sent
        };
        TailscaleReport {
            received_delta,
            sent_delta,
            received_latest,
            sent_latest,
            received_absolute: received,
            sent_absolute: sent,
        }
    }
}

/// A reading never lowers the total, and a counter restart keeps it as it was.
pub proof fn lemma_total_never_decreases(m: TailscaleTotalView, absolute: u64)
    requires
        m.wf(),
        m.total() is Some,
    ensures
        m.next(Some(absolute)).total() is Some,
        m.total()->0 <= m.next(Some(absolute)).total()->0,
        m.is_reset(absolute) ==> m.next(Some(absolute)).total() == m.total(),
{
}

/// The delta a reading reports is what it adds to the total, and its latest
/// value is the new total.
pub proof fn lemma_delta_is_growth(m: TailscaleTotalView, absolute: u64)
    requires
        m.wf(),
    ensures
        m.report(Some(absolute)).latest_bytes == m.next(Some(absolute)).total(),
        m.report(Some(absolute)).delta_bytes is Some,
        m.next(Some(absolute)).total()->0 == m.total().unwrap_or(0) + m.report(
            Some(absolute),
        ).delta_bytes->0,
{
}

/// Without a counter restart and below saturation, the total grows by what
/// the counter grew.
pub proof fn lemma_growth_matches_counter(m: TailscaleTotalView, absolute: u64)
    requires
        m.wf(),
        m.total() is Some,
        !m.is_reset(absolute),
        m.carry_bytes + (absolute - m.base_bytes->0) <= u64::MAX,
    ensures
        m.next(Some(absolute)).total()->0 == m.total()->0 + (absolute - m.last_bytes->0),
{
}

/// A missing reading changes nothing and reports nothing.
pub proof fn lemma_missing_reading(m: TailscaleTotalView)
    ensures
        m.next(None) == m,
        m.report(None) == (TailscaleUpdate { delta_bytes: None, latest_bytes: None }),
{
}

/// Every reading keeps the state well formed.
pub proof fn lemma_next_wf(m: TailscaleTotalView, absolute_bytes: Option<u64>)
    requires
        m.wf(),
    ensures
        m.next(absolute_bytes).wf(),
{
}

/// The state after a series of readings.
pub open spec fn replay(m: TailscaleTotalView, readings: Seq<Option<u64>>) -> TailscaleTotalView
    decreases readings.len(),
{
    if readings.len() == 0 {
        m
    } else {
        replay(m.next(readings[0]), readings.drop_first())
    }
}

/// The sum of the deltas reported over a series of readings.
pub open spec fn delta_sum(m: TailscaleTotalView, readings: Seq<Option<u64>>) -> int
    decreases readings.len(),
{
    if readings.len() == 0 {
        0
    } else {
        m.report(readings[0]).delta_bytes.unwrap_or(0) + delta_sum(
            m.next(readings[0]),
            readings.drop_first(),
        )
    }
}

/// Over any series of readings, the reported deltas add up to the growth of
/// the total: the latest total is the earlier total plus every delta.
pub proof fn lemma_deltas_add_up(m: TailscaleTotalView, readings: Seq<Option<u64>>)
    requires
        m.wf(),
        replay(m, readings).total() is Some,
    ensures
        replay(m, readings).total()->0 == m.total().unwrap_or(0) + delta_sum(m, readings),
    decreases readings.len(),
{
    if readings.len() > 0 {
        let n = m.next(readings[0]);
        lemma_next_wf(m, readings[0]);
        match readings[0] {
            Some(a) => {
                lemma_delta_is_growth(m, a);
            },
            None => {},
        }
        lemma_deltas_add_up(n, readings.drop_first());
        if n.total() is None {
            assert(readings[0] is None);
        }
    }
}

} // verus!
