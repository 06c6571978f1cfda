//! Client-side protocol layer for the `mermkit` diagram renderer.
//!
//! The renderer itself runs out of process; this crate holds everything that
//! can be checked on this side of that boundary: the line-oriented JSON wire
//! codec, the one-shot invocation argument list and outcome rules, the
//! session request/response state machine, and binary-name resolution.
//! Process spawning and pipe I/O live outside the verified library.

pub mod codec;
pub mod errors;
pub mod foreign;
pub mod json;
pub mod locator;
pub mod oneshot;
pub mod session;
pub mod wire;
pub mod result;

pub use errors::Error;
pub use result::RenderResult;
