//! Compile-time capacities shared by the gameplay systems.

use vstd::prelude::*;

verus! {

/// Fixed capacities of the gameplay ability system.
pub struct GameplayAbilitySystemSettings;

impl GameplayAbilitySystemSettings {
    /// Number of gameplay tags that one tag manager can register.
    pub const GAMEPLAY_TAG_SIZE: usize = 1024;
    /// Maximum number of chained activations that may follow a root activation.
    pub const ABILITY_CHAIN_MAX_DEPTH: u8 = 8;
}

} // verus!
