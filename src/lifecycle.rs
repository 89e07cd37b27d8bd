use vstd::prelude::*;

verus! {

/// The five modem transitions of a boot, in the only order they may run.
#[derive(Clone, Copy, Debug, PartialEq, Eq, Structural)]
pub enum BootStep {
    /// Start the modem firmware subsystem.
    Init,
    /// Disable every radio function before credentials are touched.
    FlightMode,
    /// Write the pre-shared key and its identifier into secure storage.
    Credentials,
    /// Re-enable the radio now that credentials are present.
    PowerOn,
    /// Block until the device holds an active cellular data connection.
    WaitForAttach,
}

/// Number of transitions in a boot.
pub const BOOT_STEPS: usize = 5;

/// The transition that runs in position `i` of a boot.
pub open spec fn step_at(i: int) -> BootStep {
    if i <= 0 {
        BootStep::Init
    } else if i == 1 {
        BootStep::FlightMode
    } else if i == 2 {
        BootStep::Credentials
    } else if i == 3 {
        BootStep::PowerOn
    } else {
        BootStep::WaitForAttach
    }
}

/// What the caller must do next while bringing the device up.
#[derive(Clone, Copy, Debug, PartialEq, Eq, Structural)]
pub enum BootAction {
    /// Perform this transition and report whether it succeeded.
    Run(BootStep),
    /// Every transition succeeded: hand over to the telemetry loop.
    StartTelemetry,
    /// This transition failed: report it and halt.
    Halt(BootStep),
}

/// A boot that stopped because one transition failed.
#[derive(Clone, Copy, Debug, PartialEq, Eq, Structural)]
pub struct BootError {
    pub step: BootStep,
}

/// Abstract state of a boot: how many transitions have completed, and
/// whether the next one failed.
pub struct BootModel {
    pub completed: nat,
    pub failed: bool,
}

/// The state in which every boot starts.
pub open spec fn boot_start() -> BootModel {
    BootModel { completed: 0, failed: false }
}

pub open spec fn boot_wf(m: BootModel) -> bool {
    &&& m.completed <= BOOT_STEPS
    &&& m.failed ==> m.completed < BOOT_STEPS
}

/// The action owed in state `m`.
pub open spec fn boot_action(m: BootModel) -> BootAction {
    if m.failed {
        BootAction::Halt(step_at(m.completed as int))
    } else if m.completed < BOOT_STEPS {
        BootAction::Run(step_at(m.completed as int))
    } else {
        BootAction::StartTelemetry
    }
}

/// The state after the pending transition reported `ok`; a boot that is
/// over does not move.
pub open spec fn boot_advance(m: BootModel, ok: bool) -> BootModel {
    if m.failed || m.completed >= BOOT_STEPS {
        m
    } else if ok {
        BootModel { completed: m.completed + 1, failed: m.failed }
    } else {
        BootModel { completed: m.completed, failed: true }
    }
}

/// The actions issued from state `m` when the transitions report `results`
/// in turn; it ends at the first action that is not a transition, or where
/// the results run out.
pub open spec fn boot_trace(m: BootModel, results: Seq<bool>) -> Seq<BootAction>
    decreases results.len(),
{
    let a = boot_action(m);
    if a is Run && results.len() > 0 {
        seq![a] + boot_trace(boot_advance(m, results[0]), results.drop_first())
    } else {
        seq![a]
    }
}

proof fn lemma_trace_in_order_from(m: BootModel, results: Seq<bool>)
    requires
        boot_wf(m),
        !m.failed,
    ensures
        boot_trace(m, results).len() <= results.len() + 1,
        forall|k: int|
            0 <= k < boot_trace(m, results).len() && (#[trigger] boot_trace(m, results)[k]) is Run
                ==> boot_trace(m, results)[k] == BootAction::Run(step_at(m.completed + k))
                && forall|i: int| 0 <= i < k ==> results[i],
    decreases results.len(),
{
    let t = boot_trace(m, results);
    let a = boot_action(m);
    if a is Run && results.len() > 0 {
        let m2 = boot_advance(m, results[0]);
        let rest = results.drop_first();
        let t2 = boot_trace(m2, rest);
        assert(t == seq![a] + t2);
        if results[0] {
            lemma_trace_in_order_from(m2, rest);
            assert forall|k: int| 0 <= k < t.len() && (#[trigger] t[k]) is Run implies t[k]
                == BootAction::Run(step_at(m.completed + k)) && forall|i: int|
                0 <= i < k ==> results[i] by {
                if k > 0 {
                    assert(t[k] == t2[k - 1]);
                    assert forall|i: int| 0 <= i < k implies results[i] by {
                        if i > 0 {
                            assert(results[i] == rest[i - 1]);
                        }
                    }
                }
            }
        } else {
            assert(t2 == seq![boot_action(m2)]);
        }
    }
}

/// Transitions run in the fixed order Init, FlightMode, Credentials,
/// PowerOn, WaitForAttach: the transition issued in position `k` of a boot
/// is `step_at(k)`, and it is issued only after each one before it reported
/// success. When all five succeed, the boot hands over to telemetry.
pub proof fn lemma_boot_order(results: Seq<bool>)
    ensures
        boot_trace(boot_start(), results).len() <= results.len() + 1,
        forall|k: int|
            0 <= k < boot_trace(boot_start(), results).len()
                && (#[trigger] boot_trace(boot_start(), results)[k]) is Run
                ==> boot_trace(boot_start(), results)[k] == BootAction::Run(step_at(k))
                && forall|i: int| 0 <= i < k ==> results[i],
        results.len() >= BOOT_STEPS && (forall|i: int| 0 <= i < BOOT_STEPS ==> results[i])
            ==> boot_trace(boot_start(), results) == seq![
                BootAction::Run(BootStep::Init),
                BootAction::Run(BootStep::FlightMode),
                BootAction::Run(BootStep::Credentials),
                BootAction::Run(BootStep::PowerOn),
                BootAction::Run(BootStep::WaitForAttach),
                BootAction::StartTelemetry,
            ],
{
    lemma_trace_in_order_from(boot_start(), results);
    if results.len() >= BOOT_STEPS && (forall|i: int| 0 <= i < BOOT_STEPS ==> results[i]) {
        let r1 = results.drop_first();
        let r2 = r1.drop_first();
        let r3 = r2.drop_first();
        let r4 = r3.drop_first();
        let r5 = r4.drop_first();
        assert(r1[0] == results[1]);
        assert(r2[0] == results[2]);
        assert(r3[0] == results[3]);
        assert(r4[0] == results[4]);
        let m1 = BootModel { completed: 1, failed: false };
        let m2 = BootModel { completed: 2, failed: false };
        let m3 = BootModel { completed: 3, failed: false };
        let m4 = BootModel { completed: 4, failed: false };
        let m5 = BootModel { completed: 5, failed: false };
        assert(boot_trace(m5, r5) == seq![BootAction::StartTelemetry]);
        assert(boot_trace(m4, r4) == seq![BootAction::Run(BootStep::WaitForAttach)]
            + boot_trace(m5, r5));
        assert(boot_trace(m3, r3) == seq![BootAction::Run(BootStep::PowerOn)] + boot_trace(
            m4,
            r4,
        ));
        assert(boot_trace(m2, r2) == seq![BootAction::Run(BootStep::Credentials)]
            + boot_trace(m3, r3));
        assert(boot_trace(m1, r1) == seq![BootAction::Run(BootStep::FlightMode)]
            + boot_trace(m2, r2));
        assert(boot_trace(boot_start(), results) == seq![BootAction::Run(BootStep::Init)]
            + boot_trace(m1, r1));
        assert(boot_trace(boot_start(), results) =~= seq![
            BootAction::Run(BootStep::Init),
            BootAction::Run(BootStep::FlightMode),
            BootAction::Run(BootStep::Credentials),
            BootAction::Run(BootStep::PowerOn),
            BootAction::Run(BootStep::WaitForAttach),
            BootAction::StartTelemetry,
        ]);
    }
}

proof fn lemma_fail_fast_from(m: BootModel, results: Seq<bool>, j: int)
    requires
        boot_wf(m),
        !m.failed,
        0 <= j,
        m.completed + j < BOOT_STEPS,
        j < results.len(),
        !results[j],
        forall|i: int| 0 <= i < j ==> results[i],
    ensures
        boot_trace(m, results).len() == j + 2,
        boot_trace(m, results)[j + 1] == BootAction::Halt(step_at(m.completed + j)),
        forall|k: int|
            0 <= k <= j ==> #[trigger] boot_trace(m, results)[k] == BootAction::Run(
                step_at(m.completed + k),
            ),
    decreases j,
{
    let t = boot_trace(m, results);
    let m2 = boot_advance(m, results[0]);
    let rest = results.drop_first();
    let t2 = boot_trace(m2, rest);
    assert(t == seq![boot_action(m)] + t2);
    if j == 0 {
        assert(t2 == seq![boot_action(m2)]);
    } else {
        assert forall|i: int| 0 <= i < j - 1 implies rest[i] by {
            assert(rest[i] == results[i + 1]);
        }
        lemma_fail_fast_from(m2, rest, j - 1);
        assert forall|k: int| 0 <= k <= j implies #[trigger] t[k] == BootAction::Run(
            step_at(m.completed + k),
        ) by {
            if k > 0 {
                assert(t[k] == t2[k - 1]);
            }
        }
    }
}

/// A boot fails fast: when transition `j` is the first to fail, the
/// transitions before it ran in order, none after it runs, the boot never
/// hands over to telemetry, and the halt is issued exactly once, as the
/// last action.
pub proof fn lemma_boot_fail_fast(results: Seq<bool>, j: int)
    requires
        0 <= j < BOOT_STEPS,
        j < results.len(),
        !results[j],
        forall|i: int| 0 <= i < j ==> results[i],
    ensures
        boot_trace(boot_start(), results).len() == j + 2,
        boot_trace(boot_start(), results)[j + 1] == BootAction::Halt(step_at(j)),
        forall|k: int|
            0 <= k <= j ==> #[trigger] boot_trace(boot_start(), results)[k] == BootAction::Run(
                step_at(k),
            ),
        forall|k: int|
            0 <= k < boot_trace(boot_start(), results).len() ==> (#[trigger] boot_trace(
                boot_start(),
                results,
            )[k]) != BootAction::StartTelemetry,
        forall|k: int|
            0 <= k < boot_trace(boot_start(), results).len() && (#[trigger] boot_trace(
                boot_start(),
                results,
            )[k]) is Halt ==> k == j + 1,
{
    lemma_fail_fast_from(boot_start(), results, j);
}

/// The sequencing of a boot: a single forward pass over the five
/// transitions that stops at the first failure.
pub struct BootSequence {
    completed: usize,
    failed: bool,
}

impl View for BootSequence {
    type V = BootModel;

    closed spec fn view(&self) -> BootModel {
        BootModel { completed: self.completed as nat, failed: self.failed }
    }
}

/// The transition in position `i`.
pub fn step_for(i: usize) -> (r: BootStep)
    requires
        i < BOOT_STEPS,
    ensures
        r == step_at(i as int),
{
    if i == 0 {
        BootStep::Init
    } else if i == 1 {
        BootStep::FlightMode
    } else if i == 2 {
        BootStep::Credentials
    } else if i == 3 {
        BootStep::PowerOn
    } else {
        BootStep::WaitForAttach
    }
}

impl BootSequence {
    pub open spec fn wf(&self) -> bool {
        boot_wf(self@)
    }

    /// A boot in which nothing has run yet.
    pub fn new() -> (r: BootSequence)
        ensures
            r@ == boot_start(),
            r.wf(),
    {
        BootSequence { completed: 0, failed: false }
    }

    /// The action the caller owes next.
    pub fn next_action(&self) -> (r: BootAction)
        requires
            self.wf(),
        ensures
            r == boot_action(self@),
    {
        if self.failed {
            BootAction::Halt(step_for(self.completed))
        } else if self.completed < BOOT_STEPS {
            BootAction::Run(step_for(self.completed))
        } else {
            BootAction::StartTelemetry
        }
    }

    /// Records the outcome of the pending transition.
    pub fn record(&mut self, ok: bool)
        requires
            old(self).wf(),
        ensures
            final(self)@ == boot_advance(old(self)@, ok),
            final(self).wf(),
    {
        if self.failed || self.completed >= BOOT_STEPS {
        } else if ok {
            self.completed = self.completed + 1;
        } else {
            self.failed = true;
        }
    }

    /// `Ok` once every transition succeeded, the error of the failed one
    /// once a transition failed, `None` while a transition is pending.
    pub fn outcome(&self) -> (r: Option<Result<(), BootError>>)
        requires
            self.wf(),
        ensures
            r == (match boot_action(self@) {
                BootAction::Run(_) => None,
                BootAction::StartTelemetry => Some(Ok(())),
                BootAction::Halt(step) => Some(Err(BootError { step })),
            }),
    {
        match self.next_action() {
            BootAction::Run(_) => None,
            BootAction::StartTelemetry => Some(Ok(())),
            BootAction::Halt(step) => Some(Err(BootError { step })),
        }
    }
}

} // verus!
