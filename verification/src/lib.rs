//! Bounds-checked, wraparound-aware access to the receive and transmit queues
//! of a kernel-bypass packet device, with a round-robin readiness scan across
//! the receive queues.
//!
//! The library holds the state of an opened device as plain values: a
//! [`Port`] owns its [`Ring`]s, a ring owns its [`Slot`]s. The caller opens
//! the device, waits for readiness and copies what the device reports into
//! these values; the library decides which slot is consumed next and keeps
//! every position inside its ring.

pub mod port;
pub mod ring;
pub mod slot;
pub mod window;

pub use crate::port::{DeviceState, OpenError, PollError, Port, PortSpec, PortView};
pub use crate::ring::{ContractViolation, Ring, RingState, RingType, RingView};
pub use crate::slot::{Slot, SlotView};
