//! Core logic of a LAN pointer-sharing tool: peers announce themselves over
//! multicast beacons, negotiate temporary control of another host's pointer,
//! and stream pointer-move events to the accepting host.
//!
//! Everything here is pure decision logic: the datagram texts that go out,
//! the registry updates and events that an inbound datagram causes, the
//! capture toggle, and the handoff state machine. Sockets, the input hook,
//! the injection capability and the GUI live outside this crate and hand
//! plain values in and out.

use vstd::prelude::*;

pub mod capture;
pub mod codec;
pub mod discovery;
pub mod handoff;
pub mod protocol;
pub mod ui;

verus! {

/// Interval between self-announcement beacons, in milliseconds.
pub const BEACON_INTERVAL_MS: u64 = 2000;

/// A peer is evicted once this long has passed since its last beacon,
/// in milliseconds.
pub const DEVICE_TTL_MS: u64 = 8000;

} // verus!
