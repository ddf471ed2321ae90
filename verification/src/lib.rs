//! Verified core of a WireGuard tunnel manager: the configuration data
//! model with its text codec, the routing-script directive parser and
//! reconciliation checks, and the tunnel activation state machine that
//! plans work for a bounded-timeout process runner.

pub mod codec;
pub mod config;
pub mod ip;
pub mod laws;
pub mod reconcile;
pub mod roundtrip;
pub mod runner;
pub mod scripts;
pub mod settings;
pub mod text;
pub mod tunnel;
