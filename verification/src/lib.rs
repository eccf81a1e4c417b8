//! Gameplay Ability System core: hierarchical gameplay tags with reference-counted
//! containers, tag requirements, ability chains and task state, gameplay-effect storage,
//! stacking and lifecycle decisions, and deterministic request queues.

pub mod gameplay_abilities;
pub mod gameplay_effects;
pub mod gameplay_execution;
pub mod gameplay_tags;
pub mod gameplay_targeting;
pub mod identifiers;
pub mod settings;

pub use gameplay_tags::{
    add_bit_with_tag, tag_bits_from_tags, tag_bits_from_tags_with_manager, GameplayTag,
    GameplayTagBits, GameplayTagContainer, GameplayTagError, GameplayTagManager, TagRequirements,
    BLOCK_SIZE_EXPONENT, MAX_TAG_BLOCKS, MAX_TAG_COUNTS, TAG_BITS_PER_BLOCK,
};
pub use identifiers::{AbilitySpecHandle, EntityId, UniqueName};
pub use settings::GameplayAbilitySystemSettings;
