//! Plain identifiers that gameplay state refers to.

use vstd::prelude::*;

verus! {

/// Identifies an ECS entity by the bit pattern of its entity handle.
///
/// Two identifiers are equal exactly when their bits are equal, and entity order in
/// deterministic processing is the order of these bits.
#[derive(Debug, Clone, Copy, PartialEq, Eq, Hash, Structural)]
pub struct EntityId {
    bits: u64,
}

impl EntityId {
    /// Creates an identifier from the bits of an entity handle.
    pub fn from_bits(bits: u64) -> (id: Self)
        ensures
            id.bits() == bits,
    {
        EntityId { bits }
    }

    /// The bits of this identifier.
    pub closed spec fn bits(self) -> u64 {
        self.bits
    }

    /// Identifiers with equal bits are equal.
    pub proof fn lemma_bits_injective(a: Self, b: Self)
        ensures
            a.bits() == b.bits() ==> a == b,
    {
    }

    /// Returns the bits of the entity handle.
    pub fn to_bits(self) -> (bits: u64)
        ensures
            bits == self.bits(),
    {
        self.bits
    }
}

/// An interned name, identified by its value in the name pool that issued it.
#[derive(Debug, Clone, Copy, PartialEq, Eq, Hash, Structural)]
pub struct UniqueName {
    value: u64,
}

impl UniqueName {
    /// Creates the name issued under `value`.
    pub fn new(value: u64) -> (name: Self)
        ensures
            name.value() == value,
    {
        UniqueName { value }
    }

    /// The pool value of this name.
    pub closed spec fn value(self) -> u64 {
        self.value
    }

    /// Returns the pool value of this name.
    pub fn get_value(self) -> (value: u64)
        ensures
            value == self.value(),
    {
        self.value
    }
}

/// Identifies an ability granted to an entity.
#[derive(Debug, Clone, Copy, PartialEq, Eq, Hash, Structural)]
pub struct AbilitySpecHandle {
    value: u64,
}

impl AbilitySpecHandle {
    /// Creates the handle with the given value.
    pub fn new(value: u64) -> (handle: Self)
        ensures
            handle.value() == value,
    {
        AbilitySpecHandle { value }
    }

    /// The numeric value of this handle.
    pub closed spec fn value(self) -> u64 {
        self.value
    }

    /// Returns the numeric value of this handle.
    pub fn get_value(self) -> (value: u64)
        ensures
            value == self.value(),
    {
        self.value
    }
}

} // verus!
