//! Direct connection upgrade through a relay.

pub mod behaviour;
pub mod dial_laws;
pub mod laws;
