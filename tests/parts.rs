use lte_telemetry::credentials::{
    check_credential, command_text, failure_is_tolerated, install_psk_and_psk_id, CredentialCommand,
    CredentialError, CredentialKind, MAX_IDENTITY_LEN, MAX_SECRET_LEN,
};
use lte_telemetry::decode::{decode_leds, DecodeError, Leds};
use lte_telemetry::interrupts::{interrupt_setup, IrqSource, EVENT_QUEUE_PRIORITY, MAILBOX_PRIORITY};

#[test]
fn decode_boolean_literals() {
    assert_eq!(decode_leds(b"true"), Ok(Leds { led0: 1 }));
    assert_eq!(decode_leds(b"false"), Ok(Leds { led0: 0 }));
}

#[test]
fn decode_numbers() {
    assert_eq!(decode_leds(b"0"), Ok(Leds { led0: 0 }));
    assert_eq!(decode_leds(b"42"), Ok(Leds { led0: 42 }));
    assert_eq!(decode_leds(b"4294967295"), Ok(Leds { led0: u32::MAX }));
    assert_eq!(decode_leds(b"4294967296"), Err(DecodeError::OutOfRange));
    assert_eq!(decode_leds(b"99999999999999999999999"), Err(DecodeError::OutOfRange));
}

#[test]
fn decode_rejects_malformed() {
    assert_eq!(decode_leds(b""), Err(DecodeError::Malformed));
    assert_eq!(decode_leds(b"True"), Err(DecodeError::Malformed));
    assert_eq!(decode_leds(b"-1"), Err(DecodeError::Malformed));
    assert_eq!(decode_leds(b"12a"), Err(DecodeError::Malformed));
    assert_eq!(decode_leds(b"99999999999x"), Err(DecodeError::Malformed));
}

#[test]
fn install_plan_deletes_then_writes() {
    let cs = install_psk_and_psk_id(42, b"dev@proj", b"abcdef").unwrap();
    assert_eq!(
        cs,
        vec![
            CredentialCommand::Delete { tag: 42, kind: CredentialKind::Psk },
            CredentialCommand::Write { tag: 42, kind: CredentialKind::Psk },
            CredentialCommand::Delete { tag: 42, kind: CredentialKind::PskIdentity },
            CredentialCommand::Write { tag: 42, kind: CredentialKind::PskIdentity },
        ]
    );
}

#[test]
fn install_twice_gives_the_same_plan() {
    let first = install_psk_and_psk_id(1, b"id", b"key");
    let second = install_psk_and_psk_id(1, b"id", b"key");
    assert!(first.is_ok());
    assert_eq!(first, second);
}

#[test]
fn credential_errors() {
    assert_eq!(check_credential(b"", b"k"), Err(CredentialError::EmptyIdentity));
    assert_eq!(check_credential(b"i", b""), Err(CredentialError::EmptySecret));
    let long_id = vec![b'a'; MAX_IDENTITY_LEN + 1];
    assert_eq!(check_credential(&long_id, b"k"), Err(CredentialError::IdentityTooLong));
    let long_key = vec![b'b'; MAX_SECRET_LEN + 1];
    assert_eq!(check_credential(b"i", &long_key), Err(CredentialError::SecretTooLong));
    assert_eq!(check_credential(b"a\"b", b"k"), Err(CredentialError::IdentityInvalidByte));
    assert_eq!(check_credential(b"i", b"k\n"), Err(CredentialError::SecretInvalidByte));
    let max_id = vec![b'a'; MAX_IDENTITY_LEN];
    let max_key = vec![b'b'; MAX_SECRET_LEN];
    assert_eq!(check_credential(&max_id, &max_key), Ok(()));
    assert_eq!(install_psk_and_psk_id(3, b"", b"k"), Err(CredentialError::EmptyIdentity));
}

#[test]
fn not_found_on_delete_is_tolerated() {
    let del = CredentialCommand::Delete { tag: 1, kind: CredentialKind::Psk };
    let write = CredentialCommand::Write { tag: 1, kind: CredentialKind::Psk };
    assert!(failure_is_tolerated(del, 513));
    assert!(!failure_is_tolerated(del, 514));
    assert!(!failure_is_tolerated(write, 513));
}

#[test]
fn interrupt_priorities() {
    let plan = interrupt_setup();
    assert_eq!(
        plan,
        vec![
            (IrqSource::ApplicationEvents, EVENT_QUEUE_PRIORITY),
            (IrqSource::TraceEvents, EVENT_QUEUE_PRIORITY),
            (IrqSource::Mailbox, MAILBOX_PRIORITY),
        ]
    );
    assert_eq!(IrqSource::Mailbox.priority(), 0);
    assert_eq!(IrqSource::TraceEvents.priority(), 128);
    assert!(IrqSource::Mailbox.priority() < IrqSource::ApplicationEvents.priority());
}

#[test]
fn at_command_text() {
    let del = CredentialCommand::Delete { tag: 42, kind: CredentialKind::Psk };
    assert_eq!(command_text(del, b"dev@proj", b"abcdef"), b"AT%CMNG=3,42,3".to_vec());
    let write_key = CredentialCommand::Write { tag: 42, kind: CredentialKind::Psk };
    assert_eq!(
        command_text(write_key, b"dev@proj", b"abcdef"),
        b"AT%CMNG=0,42,3,\"abcdef\"".to_vec()
    );
    let write_id = CredentialCommand::Write { tag: 4294967295, kind: CredentialKind::PskIdentity };
    assert_eq!(
        command_text(write_id, b"dev@proj", b"abcdef"),
        b"AT%CMNG=0,4294967295,4,\"dev@proj\"".to_vec()
    );
    let del_id = CredentialCommand::Delete { tag: 0, kind: CredentialKind::PskIdentity };
    assert_eq!(command_text(del_id, b"x", b"y"), b"AT%CMNG=3,0,4".to_vec());
}
