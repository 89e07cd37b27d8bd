use vstd::prelude::*;

verus! {

/// The three hardware interrupt lines through which the modem firmware
/// delivers its events.
#[derive(Clone, Copy, Debug, PartialEq, Eq, Structural)]
pub enum IrqSource {
    /// The application event queue.
    ApplicationEvents,
    /// The trace event queue.
    TraceEvents,
    /// The inter-processor mailbox carrying firmware transport messages.
    Mailbox,
}

/// Priority value of the inter-processor mailbox (lower preempts higher).
pub const MAILBOX_PRIORITY: u8 = 0;

/// Priority value shared by the two event queues.
pub const EVENT_QUEUE_PRIORITY: u8 = 128;

/// Priority of each source: the mailbox alone runs at the most urgent level.
pub open spec fn priority_of(src: IrqSource) -> u8 {
    match src {
        IrqSource::Mailbox => MAILBOX_PRIORITY,
        _ => EVENT_QUEUE_PRIORITY,
    }
}

impl IrqSource {
    /// The priority this source must be assigned before the modem starts.
    pub fn priority(&self) -> (r: u8)
        ensures
            r == priority_of(*self),
    {
        match self {
            IrqSource::Mailbox => MAILBOX_PRIORITY,
            _ => EVENT_QUEUE_PRIORITY,
        }
    }
}

/// The sources in the order they are unmasked, each with its priority.
pub open spec fn setup_plan() -> Seq<(IrqSource, u8)> {
    seq![
        (IrqSource::ApplicationEvents, EVENT_QUEUE_PRIORITY),
        (IrqSource::TraceEvents, EVENT_QUEUE_PRIORITY),
        (IrqSource::Mailbox, MAILBOX_PRIORITY),
    ]
}

/// The interrupt lines to unmask before the modem starts, each with the
/// priority it must be given.
pub fn interrupt_setup() -> (r: Vec<(IrqSource, u8)>)
    ensures
        r@ == setup_plan(),
{
    let mut r: Vec<(IrqSource, u8)> = Vec::new();
    let queue = IrqSource::ApplicationEvents;
    r.push((queue, queue.priority()));
    let trace = IrqSource::TraceEvents;
    r.push((trace, trace.priority()));
    let mailbox = IrqSource::Mailbox;
    r.push((mailbox, mailbox.priority()));
    assert(r@ =~= setup_plan());
    r
}

/// Interrupt setup covers each source exactly once, at its own priority,
/// and the mailbox alone preempts the two event queues, which share a
/// level.
pub proof fn lemma_mailbox_preempts()
    ensures
        setup_plan().len() == 3,
        forall|i: int, j: int|
            0 <= i < j < 3 ==> (#[trigger] setup_plan()[i]).0 != (#[trigger] setup_plan()[j]).0,
        forall|i: int| 0 <= i < 3 ==> (#[trigger] setup_plan()[i]).1 == priority_of(setup_plan()[i].0),
        forall|src: IrqSource|
            src != IrqSource::Mailbox ==> priority_of(IrqSource::Mailbox) < #[trigger] priority_of(src),
        priority_of(IrqSource::ApplicationEvents) == priority_of(IrqSource::TraceEvents),
{
}

} // verus!
