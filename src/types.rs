//! Tags that keep the registry's persisted collections apart.
use vstd::prelude::*;

verus! {

/// The registry's persisted collections.
#[derive(PartialEq, Eq, Structural, Debug, Clone, Copy)]
pub enum Prefix {
    Pools,
    PoolShares,
    ApprovedComposeHashes,
    WorkerByAccountId,
}

impl Prefix {
    /// The variant's position in the declaration.
    pub open spec fn tag(&self) -> u8 {
        match self {
            Prefix::Pools => 0,
            Prefix::PoolShares => 1,
            Prefix::ApprovedComposeHashes => 2,
            Prefix::WorkerByAccountId => 3,
        }
    }

    /// The storage key under which the collection's entries live: the
    /// Borsh encoding of the tag, a single byte holding its position.
    pub fn storage_key(&self) -> (r: Vec<u8>)
        ensures
            r@ == seq![self.tag()],
    {
        let tag: u8 = match self {
            Prefix::Pools => 0,
            Prefix::PoolShares => 1,
            Prefix::ApprovedComposeHashes => 2,
            Prefix::WorkerByAccountId => 3,
        };
        let r = vec![tag];
        assert(r@ =~= seq![self.tag()]);
        r
    }
}

} // verus!
