//! Mailbox capacity configuration.

use vstd::prelude::*;

verus! {

/// What happens when a bounded mailbox is full.
///
/// `DropOldest` is intentionally omitted — no provider supports queue
/// eviction efficiently.
#[derive(Debug, Clone, Copy, PartialEq, Eq, Structural)]
pub enum OverflowStrategy {
    /// Block the sender until space is available.
    Block,
    /// Reject the message with an error.
    RejectWithError,
    /// Drop the newest message (the one being sent) silently.
    DropNewest,
}

/// Mailbox capacity configuration.
#[derive(Debug, Clone, Copy, PartialEq, Eq, Structural)]
pub enum MailboxConfig {
    /// Unbounded mailbox — no capacity limit (default).
    Unbounded,
    /// Bounded mailbox with a fixed capacity.
    Bounded { capacity: usize, overflow: OverflowStrategy },
}

impl Default for MailboxConfig {
    fn default() -> (r: Self)
        ensures
            r == MailboxConfig::Unbounded,
    {
        MailboxConfig::Unbounded
    }
}

} // verus!
