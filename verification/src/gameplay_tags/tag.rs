use vstd::prelude::*;

verus! {

/// Compact identifier assigned to a registered gameplay tag.
#[derive(Debug, Clone, Copy, PartialEq, Eq, Hash, Structural)]
pub struct GameplayTag(u16);

impl GameplayTag {
    /// The bit index of this tag.
    pub closed spec fn index(self) -> int {
        self.0 as int
    }

    /// A tag index is a `u16` value, and the index determines the tag.
    pub broadcast proof fn lemma_index(tag: GameplayTag)
        ensures
            0 <= #[trigger] tag.index() <= u16::MAX,
    {
    }

    /// Tags with equal indices are equal.
    pub proof fn lemma_index_injective(a: GameplayTag, b: GameplayTag)
        ensures
            (a.index() == b.index()) <==> (a == b),
    {
    }

    pub(crate) fn new(tag_bit_index: u16) -> (tag: Self)
        ensures
            tag.index() == tag_bit_index,
    {
        GameplayTag(tag_bit_index)
    }

    /// Returns the bit index as `u16`.
    pub fn get_bit_index_u16(&self) -> (index: u16)
        ensures
            index == self.index(),
    {
        self.0
    }

    /// Returns the bit index as `usize`.
    pub fn get_bit_index_usize(&self) -> (index: usize)
        ensures
            index == self.index(),
    {
        self.0 as usize
    }
}

/// Describes why gameplay-tag registration, lookup, or reference counting failed.
#[derive(Debug, Clone, Copy, PartialEq, Eq, Structural)]
pub enum GameplayTagError {
    /// The configured gameplay-tag capacity was exceeded.
    CapacityExceeded { max: usize },
    /// A tag index was outside the registered range.
    InvalidTagIndex { index: usize },
    /// Adding references would exceed a tag's reference-count capacity.
    ReferenceCountOverflow { index: usize, max: u16 },
}

} // verus!
