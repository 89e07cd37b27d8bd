//! Bring-up and synchronisation logic for a cellular-connected device: the
//! ordered modem start-up, credential installation, interrupt setup, and the
//! telemetry loop that reads one remote value and then publishes a counter
//! at a fixed pace. Each part is a state machine or a plan that the caller
//! carries out against the modem and the cloud service.

pub mod config;
pub mod credentials;
pub mod decode;
pub mod interrupts;
pub mod lifecycle;
pub mod telemetry;
