use vstd::prelude::*;

verus! {

/// Identifies a definition: the crate it belongs to and its index there.
#[derive(Debug, Clone, Copy, PartialEq, Eq, Hash, Structural)]
pub struct DefId {
    pub krate: u32,
    pub index: u32,
}

impl DefId {
    /// The number that names this definition in maps: the crate in the high
    /// 32 bits, the index in the low 32 bits.
    pub open spec fn key_spec(self) -> u64 {
        (self.krate as int * 0x1_0000_0000 + self.index as int) as u64
    }

    /// The number that names this definition in maps.
    pub fn key(&self) -> (k: u64)
        ensures
            k == self.key_spec(),
    {
        self.krate as u64 * 0x1_0000_0000 + self.index as u64
    }
}

/// Different definitions have different keys.
pub proof fn lemma_key_injective(a: DefId, b: DefId)
    ensures
        a.key_spec() == b.key_spec() ==> a == b,
{
}

} // verus!
