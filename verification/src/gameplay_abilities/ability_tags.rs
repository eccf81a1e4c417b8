use crate::gameplay_tags::GameplayTag;
use vstd::prelude::*;

verus! {

/// Configures an ability's identity and tag-based activation rules.
///
/// Asset tags identify the ability; they are not granted to its owner. Cancel and block
/// rules match other abilities' asset tags. Activation requirements inspect the owner's
/// gameplay tags. The default configuration contains no tags or requirements.
pub struct AbilityTags {
    ability_asset_tags: Vec<GameplayTag>,
    cancel_abilities_with_tags: Vec<GameplayTag>,
    block_abilities_with_tags: Vec<GameplayTag>,
    activation_required_tags: Vec<GameplayTag>,
    activation_blocked_tags: Vec<GameplayTag>,
}

impl AbilityTags {
    /// The asset tags identifying this ability.
    pub closed spec fn ability_asset_tags_view(self) -> Seq<GameplayTag> {
        self.ability_asset_tags@
    }

    /// The asset tags used to cancel matching active abilities at startup.
    pub closed spec fn cancel_abilities_with_tags_view(self) -> Seq<GameplayTag> {
        self.cancel_abilities_with_tags@
    }

    /// The asset tags blocked while this ability is active.
    pub closed spec fn block_abilities_with_tags_view(self) -> Seq<GameplayTag> {
        self.block_abilities_with_tags@
    }

    /// The owner tags that must all be present for activation.
    pub closed spec fn activation_required_tags_view(self) -> Seq<GameplayTag> {
        self.activation_required_tags@
    }

    /// The owner tags that prevent activation when any are present.
    pub closed spec fn activation_blocked_tags_view(self) -> Seq<GameplayTag> {
        self.activation_blocked_tags@
    }

    /// Creates a tag configuration from all five rule groups.
    pub fn new(
        ability_asset_tags: Vec<GameplayTag>,
        cancel_abilities_with_tags: Vec<GameplayTag>,
        block_abilities_with_tags: Vec<GameplayTag>,
        activation_required_tags: Vec<GameplayTag>,
        activation_blocked_tags: Vec<GameplayTag>,
    ) -> (tags: Self)
        ensures
            tags.ability_asset_tags_view() == ability_asset_tags@,
            tags.cancel_abilities_with_tags_view() == cancel_abilities_with_tags@,
            tags.block_abilities_with_tags_view() == block_abilities_with_tags@,
            tags.activation_required_tags_view() == activation_required_tags@,
            tags.activation_blocked_tags_view() == activation_blocked_tags@,
    {
        AbilityTags {
            ability_asset_tags,
            cancel_abilities_with_tags,
            block_abilities_with_tags,
            activation_required_tags,
            activation_blocked_tags,
        }
    }

    /// Replaces this ability's identifying asset tags with `tags` and returns the configuration.
    pub fn with_ability_asset_tags(self, tags: Vec<GameplayTag>) -> (updated: Self)
        ensures
            updated.ability_asset_tags_view() == tags@,
            updated.cancel_abilities_with_tags_view() == self.cancel_abilities_with_tags_view(),
            updated.block_abilities_with_tags_view() == self.block_abilities_with_tags_view(),
            updated.activation_required_tags_view() == self.activation_required_tags_view(),
            updated.activation_blocked_tags_view() == self.activation_blocked_tags_view(),
    {
        AbilityTags { ability_asset_tags: tags, ..self }
    }

    /// Replaces the asset tags used to cancel other active abilities at startup.
    pub fn with_cancel_abilities_with_tags(self, tags: Vec<GameplayTag>) -> (updated: Self)
        ensures
            updated.ability_asset_tags_view() == self.ability_asset_tags_view(),
            updated.cancel_abilities_with_tags_view() == tags@,
            updated.block_abilities_with_tags_view() == self.block_abilities_with_tags_view(),
            updated.activation_required_tags_view() == self.activation_required_tags_view(),
            updated.activation_blocked_tags_view() == self.activation_blocked_tags_view(),
    {
        AbilityTags { cancel_abilities_with_tags: tags, ..self }
    }

    /// Replaces the asset tags used to block other abilities while this ability is active.
    pub fn with_block_abilities_with_tags(self, tags: Vec<GameplayTag>) -> (updated: Self)
        ensures
            updated.ability_asset_tags_view() == self.ability_asset_tags_view(),
            updated.cancel_abilities_with_tags_view() == self.cancel_abilities_with_tags_view(),
            updated.block_abilities_with_tags_view() == tags@,
            updated.activation_required_tags_view() == self.activation_required_tags_view(),
            updated.activation_blocked_tags_view() == self.activation_blocked_tags_view(),
    {
        AbilityTags { block_abilities_with_tags: tags, ..self }
    }

    /// Replaces the owner tags that must all be present for activation with `tags`.
    pub fn with_activation_required_tags(self, tags: Vec<GameplayTag>) -> (updated: Self)
        ensures
            updated.ability_asset_tags_view() == self.ability_asset_tags_view(),
            updated.cancel_abilities_with_tags_view() == self.cancel_abilities_with_tags_view(),
            updated.block_abilities_with_tags_view() == self.block_abilities_with_tags_view(),
            updated.activation_required_tags_view() == tags@,
            updated.activation_blocked_tags_view() == self.activation_blocked_tags_view(),
    {
        AbilityTags { activation_required_tags: tags, ..self }
    }

    /// Replaces the owner tags that prevent activation when any are present with `tags`.
    pub fn with_activation_blocked_tags(self, tags: Vec<GameplayTag>) -> (updated: Self)
        ensures
            updated.ability_asset_tags_view() == self.ability_asset_tags_view(),
            updated.cancel_abilities_with_tags_view() == self.cancel_abilities_with_tags_view(),
            updated.block_abilities_with_tags_view() == self.block_abilities_with_tags_view(),
            updated.activation_required_tags_view() == self.activation_required_tags_view(),
            updated.activation_blocked_tags_view() == tags@,
    {
        AbilityTags { activation_blocked_tags: tags, ..self }
    }

    /// Returns the asset tags identifying this ability.
    pub fn get_ability_asset_tags(&self) -> (tags: &[GameplayTag])
        ensures
            tags@ == self.ability_asset_tags_view(),
    {
        self.ability_asset_tags.as_slice()
    }

    /// Returns the asset tags used to cancel matching active abilities at startup.
    pub fn get_cancel_abilities_with_tags(&self) -> (tags: &[GameplayTag])
        ensures
            tags@ == self.cancel_abilities_with_tags_view(),
    {
        self.cancel_abilities_with_tags.as_slice()
    }

    /// Returns the asset tags blocked while this ability is active.
    pub fn get_block_abilities_with_tags(&self) -> (tags: &[GameplayTag])
        ensures
            tags@ == self.block_abilities_with_tags_view(),
    {
        self.block_abilities_with_tags.as_slice()
    }

    /// Returns the owner tags that must all be present for activation.
    pub fn get_activation_required_tags(&self) -> (tags: &[GameplayTag])
        ensures
            tags@ == self.activation_required_tags_view(),
    {
        self.activation_required_tags.as_slice()
    }

    /// Returns the owner tags that prevent activation when any are present.
    pub fn get_activation_blocked_tags(&self) -> (tags: &[GameplayTag])
        ensures
            tags@ == self.activation_blocked_tags_view(),
    {
        self.activation_blocked_tags.as_slice()
    }

}

impl Default for AbilityTags {
    /// Creates a configuration without tags or requirements.
    fn default() -> (tags: Self)
        ensures
            tags.ability_asset_tags_view().len() == 0,
            tags.cancel_abilities_with_tags_view().len() == 0,
            tags.block_abilities_with_tags_view().len() == 0,
            tags.activation_required_tags_view().len() == 0,
            tags.activation_blocked_tags_view().len() == 0,
    {
        AbilityTags {
            ability_asset_tags: Vec::new(),
            cancel_abilities_with_tags: Vec::new(),
            block_abilities_with_tags: Vec::new(),
            activation_required_tags: Vec::new(),
            activation_blocked_tags: Vec::new(),
        }
    }
}

} // verus!
