use vstd::prelude::*;

verus! {

/// The two kinds of credential held in a security-tag slot.
#[derive(Clone, Copy, Debug, PartialEq, Eq, Structural)]
pub enum CredentialKind {
    /// The pre-shared key.
    Psk,
    /// The identity presented with the pre-shared key.
    PskIdentity,
}

/// One operation on the modem's secure credential storage.
#[derive(Clone, Copy, Debug, PartialEq, Eq, Structural)]
pub enum CredentialCommand {
    /// Remove the credential of this kind under this tag, if any.
    Delete { tag: u32, kind: CredentialKind },
    /// Store the caller's credential of this kind under this tag.
    Write { tag: u32, kind: CredentialKind },
}

/// Why a credential pair cannot be installed.
#[derive(Clone, Copy, Debug, PartialEq, Eq, Structural)]
pub enum CredentialError {
    EmptyIdentity,
    IdentityTooLong,
    IdentityInvalidByte,
    EmptySecret,
    SecretTooLong,
    SecretInvalidByte,
}

/// Longest identity the secure storage accepts, in bytes.
pub const MAX_IDENTITY_LEN: usize = 128;

/// Longest pre-shared key the secure storage accepts, in bytes.
pub const MAX_SECRET_LEN: usize = 256;

/// A byte that may stand inside a quoted credential: printable ASCII other
/// than the double quote.
pub open spec fn storable_byte(b: u8) -> bool {
    32 <= b <= 126 && b != 34
}

pub open spec fn storable(s: Seq<u8>) -> bool {
    forall|i: int| 0 <= i < s.len() ==> storable_byte(#[trigger] s[i])
}

/// Whether `identity` and `secret` can be installed, and if not the first
/// reason, the identity checked before the secret.
pub open spec fn credential_check(identity: Seq<u8>, secret: Seq<u8>) -> Result<
    (),
    CredentialError,
> {
    if identity.len() == 0 {
        Err(CredentialError::EmptyIdentity)
    } else if identity.len() > MAX_IDENTITY_LEN {
        Err(CredentialError::IdentityTooLong)
    } else if !storable(identity) {
        Err(CredentialError::IdentityInvalidByte)
    } else if secret.len() == 0 {
        Err(CredentialError::EmptySecret)
    } else if secret.len() > MAX_SECRET_LEN {
        Err(CredentialError::SecretTooLong)
    } else if !storable(secret) {
        Err(CredentialError::SecretInvalidByte)
    } else {
        Ok(())
    }
}

/// The commands that install a pair under `tag`: each kind is first deleted,
/// then written, so that whatever the slot held before is replaced.
pub open spec fn install_plan(tag: u32) -> Seq<CredentialCommand> {
    seq![
        CredentialCommand::Delete { tag, kind: CredentialKind::Psk },
        CredentialCommand::Write { tag, kind: CredentialKind::Psk },
        CredentialCommand::Delete { tag, kind: CredentialKind::PskIdentity },
        CredentialCommand::Write { tag, kind: CredentialKind::PskIdentity },
    ]
}

/// Secure storage after one command, where a write stores `secret` as the
/// key and `identity` as the identity.
pub open spec fn apply_command(
    store: Map<(u32, CredentialKind), Seq<u8>>,
    c: CredentialCommand,
    identity: Seq<u8>,
    secret: Seq<u8>,
) -> Map<(u32, CredentialKind), Seq<u8>> {
    match c {
        CredentialCommand::Delete { tag, kind } => store.remove((tag, kind)),
        CredentialCommand::Write { tag, kind } => store.insert(
            (tag, kind),
            if kind is Psk {
                secret
            } else {
                identity
            },
        ),
    }
}

/// Secure storage after the commands `cs`, in order.
pub open spec fn apply_commands(
    store: Map<(u32, CredentialKind), Seq<u8>>,
    cs: Seq<CredentialCommand>,
    identity: Seq<u8>,
    secret: Seq<u8>,
) -> Map<(u32, CredentialKind), Seq<u8>>
    decreases cs.len(),
{
    if cs.len() == 0 {
        store
    } else {
        apply_commands(apply_command(store, cs[0], identity, secret), cs.drop_first(), identity, secret)
    }
}

fn check_storable(s: &[u8]) -> (r: bool)
    ensures
        r == storable(s@),
{
    let mut i: usize = 0;
    while i < s.len()
        invariant
            0 <= i <= s@.len(),
            forall|j: int| 0 <= j < i ==> storable_byte(#[trigger] s@[j]),
        decreases s@.len() - i,
    {
        let b = s[i];
        if b < 32 || b > 126 || b == 34 {
            assert(!storable_byte(s@[i as int]));
            return false;
        }
        i = i + 1;
    }
    true
}

/// Checks a credential pair against the secure storage's limits.
pub fn check_credential(identity: &[u8], secret: &[u8]) -> (r: Result<(), CredentialError>)
    ensures
        r == credential_check(identity@, secret@),
{
    if identity.len() == 0 {
        Err(CredentialError::EmptyIdentity)
    } else if identity.len() > MAX_IDENTITY_LEN {
        Err(CredentialError::IdentityTooLong)
    } else if !check_storable(identity) {
        Err(CredentialError::IdentityInvalidByte)
    } else if secret.len() == 0 {
        Err(CredentialError::EmptySecret)
    } else if secret.len() > MAX_SECRET_LEN {
        Err(CredentialError::SecretTooLong)
    } else if !check_storable(secret) {
        Err(CredentialError::SecretInvalidByte)
    } else {
        Ok(())
    }
}

/// The commands that install `identity` and `secret` under `tag`, or why
/// the pair cannot be installed.
pub fn install_psk_and_psk_id(tag: u32, identity: &[u8], secret: &[u8]) -> (r: Result<
    Vec<CredentialCommand>,
    CredentialError,
>)
    ensures
        match r {
            Ok(cs) => credential_check(identity@, secret@) is Ok && cs@ == install_plan(tag),
            Err(e) => credential_check(identity@, secret@) == Err::<(), CredentialError>(e),
        },
{
    match check_credential(identity, secret) {
        Err(e) => Err(e),
        Ok(()) => {
            let cs = vec![
                CredentialCommand::Delete { tag, kind: CredentialKind::Psk },
                CredentialCommand::Write { tag, kind: CredentialKind::Psk },
                CredentialCommand::Delete { tag, kind: CredentialKind::PskIdentity },
                CredentialCommand::Write { tag, kind: CredentialKind::PskIdentity },
            ];
            assert(cs@ =~= install_plan(tag));
            Ok(cs)
        },
    }
}

proof fn lemma_plan_result(
    store: Map<(u32, CredentialKind), Seq<u8>>,
    tag: u32,
    identity: Seq<u8>,
    secret: Seq<u8>,
)
    ensures
        apply_commands(store, install_plan(tag), identity, secret) == store.insert(
            (tag, CredentialKind::Psk),
            secret,
        ).insert((tag, CredentialKind::PskIdentity), identity),
{
    let p = install_plan(tag);
    let s1 = store.remove((tag, CredentialKind::Psk));
    let s2 = s1.insert((tag, CredentialKind::Psk), secret);
    let s3 = s2.remove((tag, CredentialKind::PskIdentity));
    let s4 = s3.insert((tag, CredentialKind::PskIdentity), identity);
    let p1 = p.drop_first();
    let p2 = p1.drop_first();
    let p3 = p2.drop_first();
    let p4 = p3.drop_first();
    assert(p1[0] == p[1]);
    assert(p2[0] == p[2]);
    assert(p3[0] == p[3]);
    assert(p4.len() == 0);
    assert(apply_commands(s4, p4, identity, secret) == s4);
    assert(apply_commands(s3, p3, identity, secret) == s4);
    assert(apply_commands(s2, p2, identity, secret) == s4);
    assert(apply_commands(s1, p1, identity, secret) == s4);
    assert(apply_commands(store, p, identity, secret) == s4);
    assert(s4 =~= store.insert((tag, CredentialKind::Psk), secret).insert(
        (tag, CredentialKind::PskIdentity),
        identity,
    ));
}

/// Installing the same credential pair twice in a row is the same as
/// installing it once: both checks succeed, and the slot holds exactly the
/// given key and identity, whatever it held before, every other slot left
/// as it was.
pub proof fn lemma_install_idempotent(
    store: Map<(u32, CredentialKind), Seq<u8>>,
    tag: u32,
    identity: Seq<u8>,
    secret: Seq<u8>,
)
    requires
        credential_check(identity, secret) is Ok,
    ensures
        ({
            let once = apply_commands(store, install_plan(tag), identity, secret);
            &&& once == store.insert((tag, CredentialKind::Psk), secret).insert(
                (tag, CredentialKind::PskIdentity),
                identity,
            )
            &&& apply_commands(once, install_plan(tag), identity, secret) == once
        }),
{
    let once = apply_commands(store, install_plan(tag), identity, secret);
    lemma_plan_result(store, tag, identity, secret);
    lemma_plan_result(once, tag, identity, secret);
    assert(once.insert((tag, CredentialKind::Psk), secret).insert(
        (tag, CredentialKind::PskIdentity),
        identity,
    ) =~= once);
}

/// Whether a failed command leaves the installation on course: deleting a
/// credential that is not there is reported by the modem as "not found",
/// with error code 513, and is harmless.
pub fn failure_is_tolerated(c: CredentialCommand, error_code: i32) -> (r: bool)
    ensures
        r == (c is Delete && error_code == 513),
{
    match c {
        CredentialCommand::Delete { .. } => error_code == 513,
        CredentialCommand::Write { .. } => false,
    }
}

/// The decimal digits of `n`, most significant first, in ASCII.
pub open spec fn decimal_text(n: nat) -> Seq<u8>
    decreases n,
{
    if n < 10 {
        seq![(48 + n) as u8]
    } else {
        decimal_text(n / 10) + seq![(48 + n % 10) as u8]
    }
}

/// The modem's code for each kind of credential.
pub open spec fn kind_code(kind: CredentialKind) -> u8 {
    match kind {
        CredentialKind::Psk => 51u8,
        CredentialKind::PskIdentity => 52u8,
    }
}

/// The text of the AT command that carries out `c`: `AT%CMNG=3,<tag>,<kind>`
/// deletes, `AT%CMNG=0,<tag>,<kind>,"<content>"` writes.
pub open spec fn command_text_spec(c: CredentialCommand, identity: Seq<u8>, secret: Seq<u8>) -> Seq<
    u8,
> {
    let prefix = seq![65u8, 84u8, 37u8, 67u8, 77u8, 78u8, 71u8, 61u8];
    match c {
        CredentialCommand::Delete { tag, kind } => prefix + seq![51u8, 44u8] + decimal_text(
            tag as nat,
        ) + seq![44u8, kind_code(kind)],
        CredentialCommand::Write { tag, kind } => prefix + seq![48u8, 44u8] + decimal_text(
            tag as nat,
        ) + seq![44u8, kind_code(kind), 44u8, 34u8] + (if kind is Psk {
            secret
        } else {
            identity
        }) + seq![34u8],
    }
}

fn push_decimal(out: &mut Vec<u8>, n: u32)
    ensures
        final(out)@ == old(out)@ + decimal_text(n as nat),
    decreases n,
{
    if n >= 10 {
        push_decimal(out, n / 10);
    }
    out.push(48u8 + (n % 10) as u8);
    assert(final(out)@ =~= old(out)@ + decimal_text(n as nat));
}

fn push_bytes(out: &mut Vec<u8>, b: &[u8])
    ensures
        final(out)@ == old(out)@ + b@,
{
    let mut i: usize = 0;
    while i < b.len()
        invariant
            0 <= i <= b@.len(),
            out@ == old(out)@ + b@.subrange(0, i as int),
        decreases b@.len() - i,
    {
        out.push(b[i]);
        i = i + 1;
        assert(out@ =~= old(out)@ + b@.subrange(0, i as int));
    }
    assert(b@.subrange(0, b@.len() as int) =~= b@);
}

/// The AT command that carries out `c`, where a write stores `secret` as
/// the key and `identity` as the identity.
pub fn command_text(c: CredentialCommand, identity: &[u8], secret: &[u8]) -> (r: Vec<u8>)
    ensures
        r@ == command_text_spec(c, identity@, secret@),
{
    let prefix: [u8; 8] = [65u8, 84u8, 37u8, 67u8, 77u8, 78u8, 71u8, 61u8];
    let mut out: Vec<u8> = Vec::new();
    push_bytes(&mut out, prefix.as_slice());
    match c {
        CredentialCommand::Delete { tag, kind } => {
            out.push(51u8);
            out.push(44u8);
            push_decimal(&mut out, tag);
            out.push(44u8);
            out.push(
                match kind {
                    CredentialKind::Psk => 51u8,
                    CredentialKind::PskIdentity => 52u8,
                },
            );
        },
        CredentialCommand::Write { tag, kind } => {
            out.push(48u8);
            out.push(44u8);
            push_decimal(&mut out, tag);
            out.push(44u8);
            out.push(
                match kind {
                    CredentialKind::Psk => 51u8,
                    CredentialKind::PskIdentity => 52u8,
                },
            );
            out.push(44u8);
            out.push(34u8);
            match kind {
                CredentialKind::Psk => push_bytes(&mut out, secret),
                CredentialKind::PskIdentity => push_bytes(&mut out, identity),
            }
            out.push(34u8);
        },
    }
    assert(out@ =~= command_text_spec(c, identity@, secret@));
    out
}

} // verus!
