//! Hierarchical gameplay tags, registration, bitsets, and reference-counted storage.

mod bitset;
mod container;
mod names;
mod registry;
mod requirements;
mod tag;

pub use bitset::{
    add_bit_with_tag, bits_contain, bits_intersect, bits_subset, lemma_and_eq_iff_subset,
    lemma_and_nonzero_iff, tag_bits_from_tags, tag_bits_of, tags_in_range, word_has_bit,
    GameplayTagBits, BLOCK_SIZE_EXPONENT, MAX_TAG_BLOCKS, MAX_TAG_COUNTS, TAG_BITS_PER_BLOCK,
};
pub(crate) use bitset::bits_contain_any;
pub use container::{inherit_count, inherited_total, occurrences, GameplayTagContainer};
pub use names::{separator_positions, tag_name_prefixes, TAG_NAME_SEPARATOR};
pub use registry::{is_descendant, name_index_entries, tag_bits_from_tags_with_manager, GameplayTagManager};
pub use requirements::{inherited_by, TagRequirements};
pub use tag::{GameplayTag, GameplayTagError};
