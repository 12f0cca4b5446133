//! Messages and the built-in priority header.

use vstd::prelude::*;

verus! {

/// Defines a message type and its expected reply.
///
/// Implemented on the MESSAGE, not the actor — decouples message definition
/// from handling, allowing the same message to be handled by different actors.
pub trait Message: Send + 'static {
    /// The reply type. Use `()` for fire-and-forget (tell) messages.
    type Reply: Send + 'static;
}

/// Message priority: lower value = more urgent.
///
/// Named levels leave gaps so that custom values fit between them.
#[derive(Debug, Clone, Copy, PartialEq, Eq, Structural)]
pub struct Priority(pub u8);

/// The header key under which a priority travels on the wire.
pub open spec fn priority_header_key() -> Seq<char> {
    seq!['d', 'a', 'c', 't', 'o', 'r', '.', 'P', 'r', 'i', 'o', 'r', 'i', 't', 'y']
}

/// Priority used when an envelope carries no priority header.
pub open spec fn default_priority() -> u8 {
    128
}

impl Priority {
    pub fn critical() -> (r: Priority)
        ensures
            r.0 == 0,
    {
        Priority(0)
    }

    pub fn high() -> (r: Priority)
        ensures
            r.0 == 64,
    {
        Priority(64)
    }

    pub fn normal() -> (r: Priority)
        ensures
            r.0 == default_priority(),
    {
        Priority(128)
    }

    pub fn low() -> (r: Priority)
        ensures
            r.0 == 192,
    {
        Priority(192)
    }

    pub fn background() -> (r: Priority)
        ensures
            r.0 == 255,
    {
        Priority(255)
    }

    /// Header key for this header value.
    pub fn header_name(&self) -> (r: &'static str)
        ensures
            r@ == priority_header_key(),
    {
        let name = "dactor.Priority";
        proof {
            reveal_strlit("dactor.Priority");
        }
        name
    }

    /// Wire encoding: a single byte holding the priority value.
    pub fn to_bytes(&self) -> (r: Option<Vec<u8>>)
        ensures
            r matches Some(b) && b@ == seq![self.0],
    {
        let mut v: Vec<u8> = Vec::new();
        v.push(self.0);
        assert(v@ =~= seq![self.0]);
        Some(v)
    }
}

} // verus!
