//! Verified network behaviours.

pub mod assoc;
pub mod autonat;
pub mod dcutr;
pub mod kad;
pub mod net;
pub mod nonzero;
pub mod swarm;
pub mod text;
pub mod time;
