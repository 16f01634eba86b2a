//! The names of threads and messages, as the window's decisions compare them.

use vstd::prelude::*;

verus! {

/// A conversation, by its id's 128 bits.
#[derive(Debug, Clone, Copy, PartialEq, Eq, Hash, Structural)]
pub struct ThreadId(pub u128);

/// A message, by its id's 128 bits.
#[derive(Debug, Clone, Copy, PartialEq, Eq, Hash, Structural)]
pub struct MessageId(pub u128);

/// A stored body, by its id's 128 bits.
#[derive(Debug, Clone, Copy, PartialEq, Eq, Hash, Structural)]
pub struct BlobId(pub u128);

/// A thread and two messages of it, all three distinct, numbered from `base`: what a test
/// needs to name a consented conversation.
pub fn ids(base: u64) -> (r: (ThreadId, MessageId, MessageId))
    ensures
        r.0.0 == base,
        r.1.0 == base as int + 1,
        r.2.0 == base as int + 2,
        r.1 != r.2,
{
    let b = base as u128;
    (ThreadId(b), MessageId(b + 1), MessageId(b + 2))
}

} // verus!
