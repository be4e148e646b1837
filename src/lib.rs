//! A connection-oriented message relay.
//!
//! - `message`, `cbor`, `codec`: the closed message union and its binary
//!   encoding, with `decode` proved to invert `encode`.
//! - `session`: the per-connection state machine of the server (login,
//!   dispatch of messages to the store, termination).
//! - `naming`, `digest`: stored-file paths, synthesized user names and
//!   password digests.
//! - `client`: what a typed line asks for and how a login answer is read.
//! - `text`, `form`, `table`: small text utilities, message kinds chosen by
//!   name, and fixed-width rendering of table rows.

pub mod message;
pub mod cbor;
pub mod codec;
pub mod text;
pub mod session;
pub mod naming;
pub mod digest;
pub mod client;
pub mod form;
pub mod table;
