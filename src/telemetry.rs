use vstd::prelude::*;

use crate::decode::{decode_leds, decode_spec, DecodeError, Leds};

verus! {

/// Why the telemetry loop stopped for good.
#[derive(Clone, Copy, Debug, PartialEq, Eq, Structural)]
pub enum TelemetryError {
    /// The one-time read failed.
    Fetch,
    /// The one-time read returned a payload that does not decode.
    Decode(DecodeError),
    /// A publish failed.
    Publish,
    /// An event arrived that does not answer the pending action.
    UnexpectedEvent,
}

/// Where the loop stands.
#[derive(Clone, Copy, Debug, PartialEq, Eq, Structural)]
pub enum Phase {
    /// Waiting for the one-time read.
    Fetching,
    /// Waiting for the publish of the current counter value.
    Publishing,
    /// Waiting out the pause after a publish.
    Sleeping,
    /// The iteration cap, or the counter's range, is exhausted.
    Stopped,
    /// A read, decode or publish failed: nothing more happens.
    Failed(TelemetryError),
}

/// What the caller must do next.
#[derive(Clone, Copy, Debug, PartialEq, Eq, Structural)]
pub enum TelemetryAction {
    /// Read the remote value once.
    Fetch,
    /// Publish this counter value.
    Publish(u64),
    /// Suspend for this many milliseconds, then report how long it took.
    Sleep(u32),
    /// The loop is over without error.
    Stop,
    /// The loop is over on this fatal error.
    Halt(TelemetryError),
}

/// What the caller reports back after performing an action.
#[derive(Debug, PartialEq, Eq)]
pub enum TelemetryEvent {
    /// The read returned this payload.
    Fetched(Vec<u8>),
    /// The read failed.
    FetchFailed,
    /// The publish succeeded.
    Published,
    /// The publish failed.
    PublishFailed,
    /// The suspension ended after this many milliseconds.
    Slept(u32),
}

/// Abstract state of the loop. `counter` is the value being or last
/// published, `slept` the time waited since the last publish, `remaining`
/// what is left of the current pause.
pub struct TelemetryModel {
    pub phase: Phase,
    pub counter: nat,
    pub remaining: nat,
    pub slept: nat,
    pub interval: nat,
    pub limit: Option<nat>,
    pub reading: Option<u32>,
}

/// The state a loop starts in.
pub open spec fn telemetry_start(interval: nat, limit: Option<nat>) -> TelemetryModel {
    TelemetryModel {
        phase: Phase::Fetching,
        counter: 0,
        remaining: 0,
        slept: 0,
        interval,
        limit,
        reading: None,
    }
}

/// The loop's invariant. Its last clause is the pacing guarantee: a publish
/// after the first comes only once the full interval has been waited since
/// the one before.
pub open spec fn telemetry_wf(m: TelemetryModel) -> bool {
    &&& m.counter <= u64::MAX
    &&& m.interval <= u32::MAX
    &&& m.remaining <= m.interval
    &&& m.slept <= 2 * (u32::MAX as nat)
    &&& (m.limit matches Some(l) ==> l <= u64::MAX)
    &&& (m.phase is Fetching ==> m.counter == 0)
    &&& (m.phase is Sleeping ==> m.slept + m.remaining == m.interval)
    &&& (m.phase is Publishing || m.phase is Sleeping) ==> (m.limit matches Some(l) ==> m.counter < l)
    &&& (m.phase is Publishing && m.counter > 0 ==> m.slept >= m.interval)
}

/// The action owed in state `m`.
pub open spec fn telemetry_action(m: TelemetryModel) -> TelemetryAction {
    match m.phase {
        Phase::Fetching => TelemetryAction::Fetch,
        Phase::Publishing => TelemetryAction::Publish(m.counter as u64),
        Phase::Sleeping => TelemetryAction::Sleep(m.remaining as u32),
        Phase::Stopped => TelemetryAction::Stop,
        Phase::Failed(e) => TelemetryAction::Halt(e),
    }
}

pub open spec fn failed_with(m: TelemetryModel, e: TelemetryError) -> TelemetryModel {
    TelemetryModel { phase: Phase::Failed(e), ..m }
}

/// Whether the value after `counter` is still to be published.
pub open spec fn has_next(counter: nat, limit: Option<nat>) -> bool {
    &&& counter < u64::MAX
    &&& (limit matches Some(l) ==> counter + 1 < l)
}

/// The state after event `e` in state `m`; a loop that is over does not move.
pub open spec fn telemetry_step(m: TelemetryModel, e: TelemetryEvent) -> TelemetryModel {
    match m.phase {
        Phase::Fetching => match e {
            TelemetryEvent::Fetched(p) => match decode_spec(p@) {
                Ok(v) => TelemetryModel {
                    phase: if m.limit == Some(0nat) {
                        Phase::Stopped
                    } else {
                        Phase::Publishing
                    },
                    reading: Some(v),
                    ..m
                },
                Err(de) => failed_with(m, TelemetryError::Decode(de)),
            },
            TelemetryEvent::FetchFailed => failed_with(m, TelemetryError::Fetch),
            _ => failed_with(m, TelemetryError::UnexpectedEvent),
        },
        Phase::Publishing => match e {
            TelemetryEvent::Published => TelemetryModel {
                phase: Phase::Sleeping,
                slept: 0,
                remaining: m.interval,
                ..m
            },
            TelemetryEvent::PublishFailed => failed_with(m, TelemetryError::Publish),
            _ => failed_with(m, TelemetryError::UnexpectedEvent),
        },
        Phase::Sleeping => match e {
            TelemetryEvent::Slept(d) => if d >= m.remaining {
                if has_next(m.counter, m.limit) {
                    TelemetryModel {
                        phase: Phase::Publishing,
                        counter: m.counter + 1,
                        slept: m.slept + d as nat,
                        remaining: 0,
                        ..m
                    }
                } else {
                    TelemetryModel {
                        phase: Phase::Stopped,
                        slept: m.slept + d as nat,
                        remaining: 0,
                        ..m
                    }
                }
            } else {
                TelemetryModel {
                    slept: m.slept + d as nat,
                    remaining: (m.remaining - d) as nat,
                    ..m
                }
            },
            _ => failed_with(m, TelemetryError::UnexpectedEvent),
        },
        _ => m,
    }
}

/// The actions issued from state `m` when the caller answers with `events`
/// in turn; it ends at the first action that ends the loop, or where the
/// events run out.
pub open spec fn telemetry_trace(m: TelemetryModel, events: Seq<TelemetryEvent>) -> Seq<
    TelemetryAction,
>
    decreases events.len(),
{
    let a = telemetry_action(m);
    if (a is Fetch || a is Publish || a is Sleep) && events.len() > 0 {
        seq![a] + telemetry_trace(telemetry_step(m, events[0]), events.drop_first())
    } else {
        seq![a]
    }
}

/// Every event keeps the loop's invariant. In particular the pauses that
/// separate two publishes add up to at least the configured interval,
/// however long the publish itself took and however early a suspension was
/// woken.
pub proof fn lemma_step_keeps_invariant(m: TelemetryModel, e: TelemetryEvent)
    requires
        telemetry_wf(m),
    ensures
        telemetry_wf(telemetry_step(m, e)),
        telemetry_step(m, e).phase is Publishing && telemetry_step(m, e).counter > 0
            ==> telemetry_step(m, e).slept >= telemetry_step(m, e).interval,
{
}

/// The smallest value that a publish from state `m` on may carry.
pub open spec fn next_value(m: TelemetryModel) -> nat {
    match m.phase {
        Phase::Fetching => 0,
        Phase::Publishing => m.counter,
        _ => m.counter + 1,
    }
}

pub open spec fn published_value(a: TelemetryAction) -> nat {
    match a {
        TelemetryAction::Publish(v) => v as nat,
        _ => 0,
    }
}

proof fn lemma_trace_shape_from(m: TelemetryModel, events: Seq<TelemetryEvent>)
    requires
        telemetry_wf(m),
    ensures
        telemetry_trace(m, events).len() >= 1,
        telemetry_trace(m, events)[0] == telemetry_action(m),
        forall|k: int|
            0 < k < telemetry_trace(m, events).len() ==> !(#[trigger] telemetry_trace(
                m,
                events,
            )[k] is Fetch),
        forall|k: int|
            0 < k < telemetry_trace(m, events).len() && (#[trigger] telemetry_trace(m, events)[k])
                is Publish ==> telemetry_trace(m, events)[k - 1] is Fetch || telemetry_trace(
                m,
                events,
            )[k - 1] is Sleep,
        forall|k: int|
            0 < k < telemetry_trace(m, events).len() && (#[trigger] telemetry_trace(m, events)[k])
                is Sleep ==> telemetry_trace(m, events)[k - 1] is Publish || telemetry_trace(
                m,
                events,
            )[k - 1] is Sleep,
        forall|k: int|
            0 <= k < telemetry_trace(m, events).len() && (#[trigger] telemetry_trace(m, events)[k])
                is Publish ==> published_value(telemetry_trace(m, events)[k]) >= next_value(m),
        forall|i: int, j: int|
            0 <= i < j < telemetry_trace(m, events).len() && (#[trigger] telemetry_trace(
                m,
                events,
            )[i]) is Publish && (#[trigger] telemetry_trace(m, events)[j]) is Publish
                ==> published_value(telemetry_trace(m, events)[i]) < published_value(
                telemetry_trace(m, events)[j],
            ),
        forall|k: int|
            0 <= k < telemetry_trace(m, events).len() && (#[trigger] telemetry_trace(m, events)[k])
                is Publish && published_value(telemetry_trace(m, events)[k]) > next_value(m)
                ==> exists|i: int|
                0 <= i < k && telemetry_trace(m, events)[i] is Publish && published_value(
                    #[trigger] telemetry_trace(m, events)[i],
                ) + 1 == published_value(telemetry_trace(m, events)[k]),
    decreases events.len(),
{
    let t = telemetry_trace(m, events);
    let a = telemetry_action(m);
    if (a is Fetch || a is Publish || a is Sleep) && events.len() > 0 {
        let m2 = telemetry_step(m, events[0]);
        let rest = events.drop_first();
        let t2 = telemetry_trace(m2, rest);
        lemma_step_keeps_invariant(m, events[0]);
        lemma_trace_shape_from(m2, rest);
        assert(t == seq![a] + t2);
        assert(next_value(m2) >= next_value(m));
        assert(a is Publish ==> next_value(m2) > published_value(a));
        assert forall|k: int| 0 < k < t.len() implies #[trigger] t[k] == t2[k - 1] by {}
        assert forall|i: int, j: int|
            0 <= i < j < t.len() && (#[trigger] t[i]) is Publish && (#[trigger] t[j]) is Publish
                implies published_value(t[i]) < published_value(t[j]) by {
            assert(t[j] == t2[j - 1]);
            if i > 0 {
                assert(t[i] == t2[i - 1]);
            }
        }
        assert forall|k: int|
            0 <= k < t.len() && (#[trigger] t[k]) is Publish && published_value(t[k])
                > next_value(m) implies exists|i: int|
            0 <= i < k && t[i] is Publish && published_value(#[trigger] t[i]) + 1
                == published_value(t[k]) by {
            assert(k > 0);
            assert(t[k] == t2[k - 1]);
            if published_value(t[k]) > next_value(m2) {
                let i2 = choose|i2: int|
                    0 <= i2 < k - 1 && t2[i2] is Publish && published_value(#[trigger] t2[i2]) + 1
                        == published_value(t2[k - 1]);
                assert(t[i2 + 1] == t2[i2]);
            } else {
                assert(t[0] == a);
            }
        }
    }
}

/// The telemetry loop reads exactly once, first, and never again; after it
/// come publishes, each after the read or after a pause, and pauses, each
/// after a publish or a pause; the first value published is 0, every value
/// above 0 comes after its predecessor was published, and every value
/// published is greater than each one before it, so none repeats or
/// decreases: the values run 0, 1, 2, ...
pub proof fn lemma_telemetry_order(interval: nat, limit: Option<nat>, events: Seq<TelemetryEvent>)
    requires
        interval <= u32::MAX,
        limit matches Some(l) ==> l <= u64::MAX,
    ensures
        telemetry_trace(telemetry_start(interval, limit), events)[0] == TelemetryAction::Fetch,
        forall|k: int|
            0 < k < telemetry_trace(telemetry_start(interval, limit), events).len() ==> !(
            #[trigger] telemetry_trace(telemetry_start(interval, limit), events)[k] is Fetch),
        forall|k: int|
            0 < k < telemetry_trace(telemetry_start(interval, limit), events).len() && (
            #[trigger] telemetry_trace(telemetry_start(interval, limit), events)[k]) is Publish
                ==> telemetry_trace(telemetry_start(interval, limit), events)[k - 1] is Fetch
                || telemetry_trace(telemetry_start(interval, limit), events)[k - 1] is Sleep,
        forall|k: int|
            0 < k < telemetry_trace(telemetry_start(interval, limit), events).len() && (
            #[trigger] telemetry_trace(telemetry_start(interval, limit), events)[k]) is Sleep
                ==> telemetry_trace(telemetry_start(interval, limit), events)[k - 1] is Publish
                || telemetry_trace(telemetry_start(interval, limit), events)[k - 1] is Sleep,
        telemetry_trace(telemetry_start(interval, limit), events).len() > 1 && telemetry_trace(
            telemetry_start(interval, limit),
            events,
        )[1] is Publish ==> telemetry_trace(telemetry_start(interval, limit), events)[1]
            == TelemetryAction::Publish(0),
        forall|i: int, j: int|
            0 <= i < j < telemetry_trace(telemetry_start(interval, limit), events).len() && (
            #[trigger] telemetry_trace(telemetry_start(interval, limit), events)[i]) is Publish && (
            #[trigger] telemetry_trace(telemetry_start(interval, limit), events)[j]) is Publish
                ==> published_value(telemetry_trace(telemetry_start(interval, limit), events)[i])
                < published_value(telemetry_trace(telemetry_start(interval, limit), events)[j]),
        forall|k: int|
            0 <= k < telemetry_trace(telemetry_start(interval, limit), events).len() && (
            #[trigger] telemetry_trace(telemetry_start(interval, limit), events)[k]) is Publish
                && published_value(telemetry_trace(telemetry_start(interval, limit), events)[k]) > 0
                ==> exists|i: int|
                0 <= i < k && telemetry_trace(telemetry_start(interval, limit), events)[i] is Publish
                    && published_value(
                    #[trigger] telemetry_trace(telemetry_start(interval, limit), events)[i],
                ) + 1 == published_value(
                    telemetry_trace(telemetry_start(interval, limit), events)[k],
                ),
{
    let m = telemetry_start(interval, limit);
    lemma_trace_shape_from(m, events);
    if events.len() > 0 {
        let m2 = telemetry_step(m, events[0]);
        let t2 = telemetry_trace(m2, events.drop_first());
        lemma_step_keeps_invariant(m, events[0]);
        lemma_trace_shape_from(m2, events.drop_first());
        assert(telemetry_trace(m, events) == seq![TelemetryAction::Fetch] + t2);
        assert(telemetry_trace(m, events)[1] == t2[0]);
    }
}

/// A failed loop is over for good: it issues its halt once and no event
/// moves it again. In particular, once a publish has failed, no further
/// iteration begins.
pub proof fn lemma_failure_is_final(m: TelemetryModel, events: Seq<TelemetryEvent>)
    requires
        m.phase is Publishing,
    ensures
        telemetry_step(m, TelemetryEvent::PublishFailed).phase == Phase::Failed(
            TelemetryError::Publish,
        ),
        telemetry_trace(telemetry_step(m, TelemetryEvent::PublishFailed), events) == seq![
            TelemetryAction::Halt(TelemetryError::Publish),
        ],
        forall|e: TelemetryEvent|
            #[trigger] telemetry_step(telemetry_step(m, TelemetryEvent::PublishFailed), e)
                == telemetry_step(m, TelemetryEvent::PublishFailed),
{
}

/// The telemetry loop: one read, then publish, pause, publish, pause, ...
pub struct TelemetryLoop {
    phase: Phase,
    counter: u64,
    remaining: u32,
    slept: u64,
    interval_ms: u32,
    limit: Option<u64>,
    reading: Option<u32>,
}

pub open spec fn limit_view(limit: Option<u64>) -> Option<nat> {
    match limit {
        Some(l) => Some(l as nat),
        None => None,
    }
}

impl View for TelemetryLoop {
    type V = TelemetryModel;

    closed spec fn view(&self) -> TelemetryModel {
        TelemetryModel {
            phase: self.phase,
            counter: self.counter as nat,
            remaining: self.remaining as nat,
            slept: self.slept as nat,
            interval: self.interval_ms as nat,
            limit: limit_view(self.limit),
            reading: self.reading,
        }
    }
}

impl TelemetryLoop {
    pub open spec fn wf(&self) -> bool {
        telemetry_wf(self@)
    }

    /// A loop that pauses `interval_ms` after each publish and stops after
    /// `max_iterations` publishes, or never when that is `None`.
    pub fn new(interval_ms: u32, max_iterations: Option<u64>) -> (r: TelemetryLoop)
        ensures
            r@ == telemetry_start(interval_ms as nat, limit_view(max_iterations)),
            r.wf(),
    {
        TelemetryLoop {
            phase: Phase::Fetching,
            counter: 0,
            remaining: 0,
            slept: 0,
            interval_ms,
            limit: max_iterations,
            reading: None,
        }
    }

    /// The action the caller owes next.
    pub fn next_action(&self) -> (r: TelemetryAction)
        requires
            self.wf(),
        ensures
            r == telemetry_action(self@),
    {
        match self.phase {
            Phase::Fetching => TelemetryAction::Fetch,
            Phase::Publishing => TelemetryAction::Publish(self.counter),
            Phase::Sleeping => TelemetryAction::Sleep(self.remaining),
            Phase::Stopped => TelemetryAction::Stop,
            Phase::Failed(e) => TelemetryAction::Halt(e),
        }
    }

    /// The value the one-time read decoded to, once it has arrived.
    pub fn reading(&self) -> (r: Option<Leds>)
        ensures
            r == (match self@.reading {
                Some(v) => Some(Leds { led0: v }),
                None => None,
            }),
    {
        match self.reading {
            Some(v) => Some(Leds { led0: v }),
            None => None,
        }
    }

    /// Where the loop stands.
    pub fn phase(&self) -> (r: Phase)
        ensures
            r == self@.phase,
    {
        self.phase
    }

    fn fail(&mut self, e: TelemetryError)
        ensures
            final(self)@ == failed_with(old(self)@, e),
    {
        self.phase = Phase::Failed(e);
    }

    /// Records the answer to the pending action.
    pub fn on_event(&mut self, e: TelemetryEvent)
        requires
            old(self).wf(),
        ensures
            final(self)@ == telemetry_step(old(self)@, e),
            final(self).wf(),
    {
        proof {
            lemma_step_keeps_invariant(self@, e);
        }
        match self.phase {
            Phase::Fetching => match e {
                TelemetryEvent::Fetched(p) => match decode_leds(p.as_slice()) {
                    Ok(leds) => {
                        self.reading = Some(leds.led0);
                        if self.limit == Some(0u64) {
                            self.phase = Phase::Stopped;
                        } else {
                            self.phase = Phase::Publishing;
                        }
                    },
                    Err(de) => self.fail(TelemetryError::Decode(de)),
                },
                TelemetryEvent::FetchFailed => self.fail(TelemetryError::Fetch),
                _ => self.fail(TelemetryError::UnexpectedEvent),
            },
            Phase::Publishing => match e {
                TelemetryEvent::Published => {
                    self.phase = Phase::Sleeping;
                    self.slept = 0;
                    self.remaining = self.interval_ms;
                },
                TelemetryEvent::PublishFailed => self.fail(TelemetryError::Publish),
                _ => self.fail(TelemetryError::UnexpectedEvent),
            },
            Phase::Sleeping => match e {
                TelemetryEvent::Slept(d) => {
                    self.slept = self.slept + d as u64;
                    if d >= self.remaining {
                        self.remaining = 0;
                        let more = self.counter < u64::MAX && match self.limit {
                            Some(l) => self.counter + 1 < l,
                            None => true,
                        };
                        if more {
                            self.counter = self.counter + 1;
                            self.phase = Phase::Publishing;
                        } else {
                            self.phase = Phase::Stopped;
                        }
                    } else {
                        self.remaining = self.remaining - d;
                    }
                },
                _ => self.fail(TelemetryError::UnexpectedEvent),
            },
            _ => {},
        }
    }
}

} // verus!
