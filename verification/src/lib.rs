//! Core of a clipboard synchronizer: the wire codec for change notifications,
//! compression of image payloads, per-session peer state with change detection
//! and inbound message application, the relay registry with broadcast fan-out,
//! and the reconnection policy.

pub mod bytes;
pub mod codec;
pub mod content;
pub mod detector;
pub mod envelope;
pub mod registry;
pub mod retry;
pub mod session;
