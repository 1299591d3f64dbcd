//! Typed payload of the MAC-confirmation step of an interactive,
//! out-of-band device-verification handshake.
//!
//! Two devices, after exchanging key material and a short authentication
//! string, each send a message whose content binds a set of key identifiers
//! to the verification session through already-computed MACs.  This crate
//! models that content: its field invariants, its wire encoding and the
//! explicit validation step, for both delivery channels.
//!
//! * [`to_device`] holds the device-channel payload, scoped by an explicit
//!   transaction identifier.
//! * [`room`] holds the conversation-channel payload, scoped by a relation
//!   link to the event that started the verification.  It is the
//!   experimental in-conversation extension and stands in a module of its
//!   own so that a deployment without the extension simply does not build
//!   or re-export it.
//! * [`envelope`] holds what the surrounding event envelope dispatches on:
//!   the protocol type string and the delivery-channel classification.
//!
//! The crate is stateless: construction, encoding, decoding and validation
//! are pure functions over immutable values, with no I/O.

pub mod envelope;
pub mod errors;
pub mod format;
pub mod lex;
pub mod macmap;
pub mod room;
pub mod to_device;
pub mod wire;
