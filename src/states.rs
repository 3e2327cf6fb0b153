//! Packets of each protocol state: the ones this client writes and the
//! handlers of the ones it receives.
pub mod config;
pub mod login;
pub mod play;
pub mod status;
