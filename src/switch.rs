use vstd::prelude::*;

verus! {

/// What the controller holds, as mathematical values: levels in millidecibels
/// and times in milliseconds of a monotonic clock.
pub ghost struct SwitchState {
    pub threshold: int,
    pub timeout: int,
    pub last_trigger: int,
    pub on: bool,
}

/// One reading handed to the controller: a level and the time it was taken.
pub ghost struct Reading {
    pub level: int,
    pub now: int,
}

/// The event a single reading produces: `Some(true)` to turn on,
/// `Some(false)` to turn off, `None` for no transition.
pub open spec fn step_event(s: SwitchState, r: Reading) -> Option<bool> {
    if r.level >= s.threshold {
        if s.on { None } else { Some(true) }
    } else if s.on && r.now - s.last_trigger > s.timeout {
        Some(false)
    } else {
        None
    }
}

/// The state after a single reading.
pub open spec fn step_state(s: SwitchState, r: Reading) -> SwitchState {
    if r.level >= s.threshold {
        SwitchState { last_trigger: r.now, on: true, ..s }
    } else if s.on && r.now - s.last_trigger > s.timeout {
        SwitchState { on: false, ..s }
    } else {
        s
    }
}

/// The state after a sequence of readings, fed in order.
pub open spec fn run(s: SwitchState, rs: Seq<Reading>) -> SwitchState
    decreases rs.len(),
{
    if rs.len() == 0 {
        s
    } else {
        step_state(run(s, rs.drop_last()), rs.last())
    }
}

/// Index in `rs` where the trailing run of readings below `threshold` starts:
/// one past the last reading at or above it, or 0 when there is none.
pub open spec fn quiet_start(threshold: int, rs: Seq<Reading>) -> int
    decreases rs.len(),
{
    if rs.len() == 0 {
        0
    } else if rs.last().level >= threshold {
        rs.len() as int
    } else {
        quiet_start(threshold, rs.drop_last())
    }
}

proof fn lemma_run_tracks_trigger(s0: SwitchState, rs: Seq<Reading>)
    ensures
        run(s0, rs).threshold == s0.threshold,
        run(s0, rs).timeout == s0.timeout,
        0 <= quiet_start(s0.threshold, rs) <= rs.len(),
        forall|j: int|
            quiet_start(s0.threshold, rs) <= j < rs.len() ==> #[trigger] rs[j].level < s0.threshold,
        quiet_start(s0.threshold, rs) > 0 ==> rs[quiet_start(s0.threshold, rs) - 1].level
            >= s0.threshold,
        run(s0, rs).last_trigger == if quiet_start(s0.threshold, rs) == 0 {
            s0.last_trigger
        } else {
            rs[quiet_start(s0.threshold, rs) - 1].now
        },
    decreases rs.len(),
{
    if rs.len() > 0 {
        let pre = rs.drop_last();
        lemma_run_tracks_trigger(s0, pre);
        assert forall|j: int| 0 <= j < pre.len() implies pre[j] == rs[j] by {}
    }
}

/// Readings `i..=k` of `rs` are all below the threshold, and more than the
/// timeout has passed at reading `k` since the trigger that precedes them:
/// reading `i - 1`, at or above the threshold, or the starting trigger time
/// when `i` is 0.
pub open spec fn quiet_span_expired(s0: SwitchState, rs: Seq<Reading>, i: int, k: int) -> bool {
    &&& 0 <= i <= k < rs.len()
    &&& forall|j: int| i <= j <= k ==> #[trigger] rs[j].level < s0.threshold
    &&& if i == 0 {
        rs[k].now - s0.last_trigger > s0.timeout
    } else {
        rs[i - 1].level >= s0.threshold && rs[k].now - rs[i - 1].now > s0.timeout
    }
}

/// An off event only ever follows a contiguous span of readings all below
/// the threshold, reaching back to the last reading at or above it (or to
/// the starting trigger time when there was none), and that span lasts longer
/// than the timeout. A reading at or above the threshold therefore restarts
/// the span.
pub proof fn lemma_off_only_after_quiet_span(s0: SwitchState, rs: Seq<Reading>, k: int)
    requires
        0 <= k < rs.len(),
        step_event(run(s0, rs.take(k)), rs[k]) == Some(false),
    ensures
        exists|i: int| #[trigger] quiet_span_expired(s0, rs, i, k),
{
    let pre = rs.take(k);
    lemma_run_tracks_trigger(s0, pre);
    let i = quiet_start(s0.threshold, pre);
    assert forall|j: int| i <= j <= k implies #[trigger] rs[j].level < s0.threshold by {
        if j < k {
            assert(pre[j] == rs[j]);
        }
    }
    if i > 0 {
        assert(pre[i - 1] == rs[i - 1]);
    }
    assert(quiet_span_expired(s0, rs, i, k));
}

/// Readings at or above the threshold while the controller is on cause no
/// event; they only move the trigger time to the latest of them.
pub proof fn lemma_on_stays_silent(s: SwitchState, rs: Seq<Reading>)
    requires
        s.on,
        rs.len() > 0,
        forall|j: int| 0 <= j < rs.len() ==> #[trigger] rs[j].level >= s.threshold,
    ensures
        forall|k: int| 0 <= k < rs.len() ==> step_event(#[trigger] run(s, rs.take(k)), rs[k]) is None,
        run(s, rs) == (SwitchState { last_trigger: rs.last().now, ..s }),
    decreases rs.len(),
{
    assert forall|k: int| 0 <= k < rs.len() implies step_event(
        #[trigger] run(s, rs.take(k)),
        rs[k],
    ) is None by {
        lemma_run_stays_on(s, rs.take(k));
    }
    assert(rs.take(rs.len() as int) == rs);
    lemma_run_stays_on(s, rs.drop_last());
}

proof fn lemma_run_stays_on(s: SwitchState, rs: Seq<Reading>)
    requires
        s.on,
        forall|j: int| 0 <= j < rs.len() ==> #[trigger] rs[j].level >= s.threshold,
    ensures
        run(s, rs).on,
        run(s, rs).threshold == s.threshold,
        run(s, rs).timeout == s.timeout,
        rs.len() == 0 ==> run(s, rs) == s,
    decreases rs.len(),
{
    if rs.len() > 0 {
        let pre = rs.drop_last();
        assert forall|j: int| 0 <= j < pre.len() implies #[trigger] pre[j].level >= s.threshold by {
            assert(pre[j] == rs[j]);
        }
        lemma_run_stays_on(s, pre);
    }
}

/// Hysteresis controller: turns on as soon as a level reaches the threshold,
/// and off only once no level has reached it for longer than the timeout.
pub struct SwitchStatus {
    threshold_db: i32,
    timeout_ms: u64,
    on_trigger_last: u64,
    is_on: bool,
}

impl View for SwitchStatus {
    type V = SwitchState;

    closed spec fn view(&self) -> SwitchState {
        SwitchState {
            threshold: self.threshold_db as int,
            timeout: self.timeout_ms as int,
            last_trigger: self.on_trigger_last as int,
            on: self.is_on,
        }
    }
}

impl SwitchStatus {
    /// A controller in the off state, with its timer armed at `now_ms`.
    /// `threshold_db` is in millidecibels, `timeout_s` in seconds.
    pub fn new(threshold_db: i32, timeout_s: u64, now_ms: u64) -> (r: SwitchStatus)
        requires
            timeout_s <= u64::MAX / 1000,
        ensures
            r@ == (SwitchState {
                threshold: threshold_db as int,
                timeout: timeout_s * 1000,
                last_trigger: now_ms as int,
                on: false,
            }),
    {
        SwitchStatus {
            threshold_db,
            timeout_ms: timeout_s * 1000,
            on_trigger_last: now_ms,
            is_on: false,
        }
    }

    /// Whether the controller is on.
    pub fn is_on(&self) -> (r: bool)
        ensures
            r == self@.on,
    {
        self.is_on
    }

    /// The time, in milliseconds, at which a level last reached the threshold.
    pub fn last_trigger(&self) -> (r: u64)
        ensures
            r == self@.last_trigger,
    {
        self.on_trigger_last
    }

    fn turn_on(&mut self)
        ensures
            *final(self) == (SwitchStatus { is_on: true, ..*old(self) }),
    {
        self.is_on = true;
    }

    fn turn_off(&mut self)
        ensures
            *final(self) == (SwitchStatus { is_on: false, ..*old(self) }),
    {
        self.is_on = false;
    }

    /// Feeds one level reading (millidecibels) taken at `now_ms`, and returns
    /// the transition it causes, if any. A time earlier than the last trigger
    /// counts as no time elapsed.
    pub fn update_level(&mut self, level: i32, now_ms: u64) -> (r: Option<bool>)
        ensures
            final(self)@ == step_state(old(self)@, Reading { level: level as int, now: now_ms as int }),
            r == step_event(old(self)@, Reading { level: level as int, now: now_ms as int }),
    {
        if level >= self.threshold_db {
            self.on_trigger_last = now_ms;
            if !self.is_on {
                self.turn_on();
                Some(true)
            } else {
                None
            }
        } else if self.is_on && now_ms > self.on_trigger_last && now_ms - self.on_trigger_last
            > self.timeout_ms {
            self.turn_off();
            Some(false)
        } else {
            None
        }
    }
}

} // verus!
