//! A generic, type-safe remote procedure call substrate.
//!
//! Given a description of a set of remote-callable operations, the crate
//! offers a caller-side stub that turns invocations into request messages
//! and exposes their eventual results as pending values, and a callee-side
//! adapter that decodes requests, invokes a local implementation, and
//! streams results back — including results that are themselves pending or
//! contain further pending sub-values.
//!
//! The heart of the crate is the value-multiplexing layer: an arbitrary
//! graph of synchronous and pending values rides a single ordered frame
//! channel, routed by reusable integer identifiers.

pub mod context;
pub mod keyboard;
pub mod kind;
pub mod protocol;
pub mod remote;
pub mod sample;
pub mod shim;
pub mod wire;

pub use context::Context;
pub use kind::{Kind, KindError, Value};
pub use protocol::{protocol, Interface, InterfaceDef};
pub use remote::Remote;
pub use shim::{Service, Shim};
pub use wire::{Call, CallMessage, Response};
