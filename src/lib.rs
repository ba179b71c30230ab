//! Keeps a game's plugin directory in step with a plugin manifest published
//! on a download server.
//!
//! The library decides; the caller performs. Every decision (which paths a
//! plugin owns, whether a download may be trusted, which plugins to remove
//! and which to install) is a verified function over plain values, and the
//! caller hands back what it observed on disk or over the network.

pub mod digest;
pub mod grab;
pub mod key;
pub mod laws;
pub mod steam;
pub mod util;
