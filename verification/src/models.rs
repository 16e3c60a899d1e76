//! Request payloads of the routes that the identity middleware protects.
//!
//! The chat-room and message handlers themselves belong to the
//! application around this crate; these are the plain bodies they
//! exchange with it.

use vstd::prelude::*;

verus! {

/// The body of a chat-room creation request; the owner is the request
/// identity, never client input.
#[derive(Clone, Debug)]
pub struct CreateChatRoom {
    pub name: String,
}

/// The body of a message as handed back to a client.
#[derive(Clone, Debug)]
pub struct GetMessage {
    pub message: String,
}

} // verus!
