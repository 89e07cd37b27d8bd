use lte_telemetry::lifecycle::{step_for, BootAction, BootError, BootSequence, BootStep};

fn run_boot(results: &[bool]) -> Vec<BootAction> {
    let mut seq = BootSequence::new();
    let mut actions = Vec::new();
    let mut next = results.iter();
    loop {
        let a = seq.next_action();
        actions.push(a);
        match a {
            BootAction::Run(_) => match next.next() {
                Some(ok) => seq.record(*ok),
                None => break,
            },
            _ => break,
        }
    }
    actions
}

#[test]
fn successful_boot_runs_every_step_in_order() {
    let actions = run_boot(&[true, true, true, true, true]);
    assert_eq!(
        actions,
        vec![
            BootAction::Run(BootStep::Init),
            BootAction::Run(BootStep::FlightMode),
            BootAction::Run(BootStep::Credentials),
            BootAction::Run(BootStep::PowerOn),
            BootAction::Run(BootStep::WaitForAttach),
            BootAction::StartTelemetry,
        ]
    );
}

#[test]
fn failed_init_halts_before_anything_else() {
    let actions = run_boot(&[false, true, true, true, true]);
    assert_eq!(
        actions,
        vec![BootAction::Run(BootStep::Init), BootAction::Halt(BootStep::Init)]
    );
}

#[test]
fn failed_credentials_stop_before_power_on() {
    let actions = run_boot(&[true, true, false, true, true]);
    assert_eq!(actions.len(), 4);
    assert_eq!(actions[3], BootAction::Halt(BootStep::Credentials));
    assert!(!actions.contains(&BootAction::Run(BootStep::PowerOn)));
}

#[test]
fn attach_timeout_never_starts_telemetry() {
    let actions = run_boot(&[true, true, true, true, false]);
    assert_eq!(actions.last(), Some(&BootAction::Halt(BootStep::WaitForAttach)));
    assert!(!actions.contains(&BootAction::StartTelemetry));
    let halts = actions.iter().filter(|a| matches!(a, BootAction::Halt(_))).count();
    assert_eq!(halts, 1);
}

#[test]
fn boot_outcome_follows_the_state() {
    let mut seq = BootSequence::new();
    assert_eq!(seq.outcome(), None);
    seq.record(true);
    seq.record(false);
    assert_eq!(seq.outcome(), Some(Err(BootError { step: BootStep::FlightMode })));
    // A finished boot ignores further reports.
    seq.record(true);
    assert_eq!(seq.next_action(), BootAction::Halt(BootStep::FlightMode));

    let mut ok = BootSequence::new();
    for _ in 0..5 {
        ok.record(true);
    }
    assert_eq!(ok.outcome(), Some(Ok(())));
    ok.record(false);
    assert_eq!(ok.next_action(), BootAction::StartTelemetry);
}

#[test]
fn step_positions() {
    assert_eq!(step_for(0), BootStep::Init);
    assert_eq!(step_for(2), BootStep::Credentials);
    assert_eq!(step_for(4), BootStep::WaitForAttach);
}
