use lte_telemetry::config::{Config, DEFAULT_INTERVAL_MS};
use lte_telemetry::decode::{DecodeError, Leds};
use lte_telemetry::telemetry::{Phase, TelemetryAction, TelemetryError, TelemetryEvent, TelemetryLoop};

fn config(max_iterations: Option<u64>) -> Config {
    Config {
        security_tag: 7,
        psk_id: b"device@project".to_vec(),
        psk: b"0123456789abcdef".to_vec(),
        read_path: String::from("test"),
        publish_path: String::from("counter"),
        interval_ms: DEFAULT_INTERVAL_MS,
        max_iterations,
    }
}

#[test]
fn reads_true_then_publishes_zero_one_two() {
    let cfg = config(Some(3));
    let mut lp = cfg.telemetry();
    assert_eq!(lp.next_action(), TelemetryAction::Fetch);
    lp.on_event(TelemetryEvent::Fetched(b"true".to_vec()));
    assert_eq!(lp.reading(), Some(Leds { led0: 1 }));
    let mut published = Vec::new();
    loop {
        match lp.next_action() {
            TelemetryAction::Publish(v) => {
                published.push(v);
                lp.on_event(TelemetryEvent::Published);
            }
            TelemetryAction::Sleep(ms) => {
                assert_eq!(ms, 5000);
                lp.on_event(TelemetryEvent::Slept(ms));
            }
            TelemetryAction::Stop => break,
            other => panic!("unexpected action {:?}", other),
        }
    }
    assert_eq!(published, vec![0, 1, 2]);
    assert_eq!(cfg.publish_path, "counter");
    assert_eq!(cfg.read_path, "test");
}

#[test]
fn early_wake_sleeps_the_remainder() {
    let mut lp = TelemetryLoop::new(5000, None);
    lp.on_event(TelemetryEvent::Fetched(b"7".to_vec()));
    assert_eq!(lp.next_action(), TelemetryAction::Publish(0));
    lp.on_event(TelemetryEvent::Published);
    assert_eq!(lp.next_action(), TelemetryAction::Sleep(5000));
    lp.on_event(TelemetryEvent::Slept(1200));
    assert_eq!(lp.next_action(), TelemetryAction::Sleep(3800));
    lp.on_event(TelemetryEvent::Slept(3799));
    assert_eq!(lp.next_action(), TelemetryAction::Sleep(1));
    lp.on_event(TelemetryEvent::Slept(40));
    assert_eq!(lp.next_action(), TelemetryAction::Publish(1));
}

#[test]
fn slow_publish_still_gets_the_full_pause() {
    let mut lp = TelemetryLoop::new(5000, None);
    lp.on_event(TelemetryEvent::Fetched(b"false".to_vec()));
    assert_eq!(lp.reading(), Some(Leds { led0: 0 }));
    lp.on_event(TelemetryEvent::Published);
    assert_eq!(lp.next_action(), TelemetryAction::Sleep(5000));
}

#[test]
fn publish_failure_ends_the_loop() {
    let mut lp = TelemetryLoop::new(5000, None);
    lp.on_event(TelemetryEvent::Fetched(b"1".to_vec()));
    lp.on_event(TelemetryEvent::Published);
    lp.on_event(TelemetryEvent::Slept(5000));
    assert_eq!(lp.next_action(), TelemetryAction::Publish(1));
    lp.on_event(TelemetryEvent::PublishFailed);
    assert_eq!(lp.next_action(), TelemetryAction::Halt(TelemetryError::Publish));
    lp.on_event(TelemetryEvent::Published);
    lp.on_event(TelemetryEvent::Slept(5000));
    assert_eq!(lp.next_action(), TelemetryAction::Halt(TelemetryError::Publish));
    assert_eq!(lp.phase(), Phase::Failed(TelemetryError::Publish));
}

#[test]
fn fetch_failure_is_fatal() {
    let mut lp = TelemetryLoop::new(5000, None);
    lp.on_event(TelemetryEvent::FetchFailed);
    assert_eq!(lp.next_action(), TelemetryAction::Halt(TelemetryError::Fetch));
    assert_eq!(lp.reading(), None);
}

#[test]
fn malformed_reading_is_fatal() {
    let mut lp = TelemetryLoop::new(5000, None);
    lp.on_event(TelemetryEvent::Fetched(b"{\"0\":true}".to_vec()));
    assert_eq!(
        lp.next_action(),
        TelemetryAction::Halt(TelemetryError::Decode(DecodeError::Malformed))
    );
}

#[test]
fn out_of_turn_event_is_fatal() {
    let mut lp = TelemetryLoop::new(5000, None);
    lp.on_event(TelemetryEvent::Published);
    assert_eq!(lp.next_action(), TelemetryAction::Halt(TelemetryError::UnexpectedEvent));
}

#[test]
fn zero_iterations_stop_after_the_read() {
    let mut lp = TelemetryLoop::new(5000, Some(0));
    assert_eq!(lp.next_action(), TelemetryAction::Fetch);
    lp.on_event(TelemetryEvent::Fetched(b"true".to_vec()));
    assert_eq!(lp.next_action(), TelemetryAction::Stop);
    assert_eq!(lp.phase(), Phase::Stopped);
}

#[test]
fn published_values_strictly_increase() {
    let mut lp = TelemetryLoop::new(0, Some(50));
    lp.on_event(TelemetryEvent::Fetched(b"0".to_vec()));
    let mut last: Option<u64> = None;
    let mut count = 0;
    loop {
        match lp.next_action() {
            TelemetryAction::Publish(v) => {
                if let Some(prev) = last {
                    assert_eq!(v, prev + 1);
                }
                last = Some(v);
                count += 1;
                lp.on_event(TelemetryEvent::Published);
            }
            TelemetryAction::Sleep(ms) => lp.on_event(TelemetryEvent::Slept(ms)),
            TelemetryAction::Stop => break,
            other => panic!("unexpected action {:?}", other),
        }
    }
    assert_eq!(count, 50);
    assert_eq!(last, Some(49));
}
