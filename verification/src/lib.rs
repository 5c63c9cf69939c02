//! A distributed layer-2 software switch.
//!
//! Each node owns one TAP device per virtual routing domain (VRF) it is a
//! member of and interconnects them with the other nodes over long-lived
//! TCP sessions.  This crate holds the verified core: the wire codec, the
//! replicated VRF table and its control-plane transitions, the MAC-learning
//! data plane, the per-session state machine, the persisted cache, and the
//! namespace naming rules.  The surrounding process (sockets, TAP devices,
//! kernel namespaces, timers) drives these functions from outside.

pub mod cache;
pub mod cli;
pub mod codec;
pub mod control;
pub mod netns;
pub mod dataplane;
pub mod session;
pub mod tables;
pub mod types;
