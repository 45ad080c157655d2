//! Fresh identifiers for chats, messages and requests.

use vstd::prelude::*;

verus! {

/// A random identifier: `uuid::Uuid::new_v4`, as its 128-bit big-endian value.
///
/// Trusted: the value is random. The crate's source masks the random bits so
/// that the version nibble is 4 and the variant bits are `10`; that is all that
/// is claimed. Nothing is claimed of two calls (they may, in principle, agree).
#[verifier::external_body]
pub(crate) fn random_id() -> (r: u128)
    ensures
        (r >> 76u128) & 0xfu128 == 4u128,
        (r >> 62u128) & 0x3u128 == 2u128,
{
    uuid::Uuid::new_v4().as_u128()
}

/// A source of time-ordered identifiers (version-7 UUIDs).
///
/// `last` is the last id that this source gave (0 before the first). The uuid
/// crate promises that the version-7 ids that one process makes come out in the
/// order of their creation; so each id that a source gives exceeds the one
/// before it.
pub struct TimeOrderedIds {
    last: Ghost<u128>,
}

impl TimeOrderedIds {
    /// The last id given; 0 before the first.
    pub closed spec fn last(&self) -> u128 {
        self.last@
    }

    /// A source that has given no id yet.
    pub fn new() -> (r: TimeOrderedIds)
        ensures
            r.last() == 0,
    {
        TimeOrderedIds { last: Ghost(0) }
    }

    /// The next id: `uuid::Uuid::now_v7`, as its 128-bit big-endian value.
    ///
    /// Trusted: the value depends on the clock and on random bits. Claimed, as
    /// the crate's source shows: the version nibble is 7 and the variant bits
    /// are `10`; and, as its documentation promises for the ids of one process,
    /// the id exceeds every id given before (the crate keeps a process-wide
    /// counter for this), so it exceeds this source's last id, which it becomes.
    #[verifier::external_body]
    pub(crate) fn next(&mut self) -> (r: u128)
        ensures
            (r >> 76u128) & 0xfu128 == 7u128,
            (r >> 62u128) & 0x3u128 == 2u128,
            r > old(self).last(),
            final(self).last() == r,
    {
        uuid::Uuid::now_v7().as_u128()
    }
}

} // verus!
