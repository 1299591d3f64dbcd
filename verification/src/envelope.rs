//! What the generic event envelope needs in order to dispatch: the
//! protocol type string shared by both payload variants, and the delivery
//! channel that selects which variant's schema applies.  The envelope
//! itself — type tagging, routing, top-level framing — is not this
//! crate's concern.

use vstd::prelude::*;

verus! {

/// The transport classification of a payload: a direct device-to-device
/// message, or a message inside a conversation.
#[derive(Clone, Copy, Debug, PartialEq, Eq, Structural)]
pub enum DeliveryChannel {
    /// A direct device-to-device control message.
    ToDevice,
    /// A message within an ongoing conversation.
    InRoom,
}

/// The protocol type string under which both payload variants travel; the
/// envelope pairs it with the delivery channel to pick the schema.
pub fn event_type() -> (r: &'static str)
    ensures
        r@ == "m.key.verification.mac"@,
{
    "m.key.verification.mac"
}

} // verus!
