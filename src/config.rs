use vstd::prelude::*;

use crate::credentials::{
    credential_check,
    install_plan,
    install_psk_and_psk_id,
    CredentialCommand,
    CredentialError,
};
use crate::telemetry::{limit_view, telemetry_start, TelemetryLoop};

verus! {

/// Pause after each publish, in milliseconds, unless configured otherwise.
pub const DEFAULT_INTERVAL_MS: u32 = 5000;

/// Settings of one device, fixed when the firmware is built.
pub struct Config {
    /// Security-tag slot that holds the pre-shared key.
    pub security_tag: u32,
    /// Identity presented with the pre-shared key.
    pub psk_id: Vec<u8>,
    /// The pre-shared key.
    pub psk: Vec<u8>,
    /// Path of the value read once at start.
    pub read_path: String,
    /// Path the counter is published under.
    pub publish_path: String,
    /// Pause after each publish, in milliseconds.
    pub interval_ms: u32,
    /// Number of publishes after which the loop stops; `None` for no end.
    pub max_iterations: Option<u64>,
}

impl Config {
    /// The commands that install this device's credentials.
    pub fn credential_commands(&self) -> (r: Result<Vec<CredentialCommand>, CredentialError>)
        ensures
            match r {
                Ok(cs) => credential_check(self.psk_id@, self.psk@) is Ok && cs@ == install_plan(
                    self.security_tag,
                ),
                Err(e) => credential_check(self.psk_id@, self.psk@) == Err::<(), CredentialError>(
                    e,
                ),
            },
    {
        install_psk_and_psk_id(self.security_tag, self.psk_id.as_slice(), self.psk.as_slice())
    }

    /// A telemetry loop paced and capped as configured.
    pub fn telemetry(&self) -> (r: TelemetryLoop)
        ensures
            r@ == telemetry_start(self.interval_ms as nat, limit_view(self.max_iterations)),
            r.wf(),
    {
        TelemetryLoop::new(self.interval_ms, self.max_iterations)
    }
}

} // verus!
