use crate::gameplay_tags::{
    bits_contain, inherited_by, GameplayTag, GameplayTagBits, GameplayTagContainer,
    GameplayTagError, GameplayTagManager, TagRequirements,
};
use vstd::prelude::*;

verus! {

/// Matches an incoming effect against a granted immunity by its source tags and asset tags.
#[derive(Clone)]
pub struct GameplayEffectImmunityQuery {
    source_tags: TagRequirements,
    effect_tags: TagRequirements,
}

impl GameplayEffectImmunityQuery {
    /// The requirements on the incoming effect's source tags.
    pub closed spec fn source_requirements(self) -> TagRequirements {
        self.source_tags
    }

    /// The requirements on the incoming effect's asset tags.
    pub closed spec fn effect_requirements(self) -> TagRequirements {
        self.effect_tags
    }

    /// Whether an incoming effect whose asset tags are `asset_present` matches this query.
    pub open spec fn matches_present(
        self,
        source_tags: Option<&GameplayTagContainer>,
        asset_present: spec_fn(int) -> bool,
    ) -> bool {
        &&& self.source_requirements().admits(source_tags)
        &&& self.effect_requirements().accepts(asset_present)
    }

    /// Creates a query from source-tag and effect-asset-tag requirements.
    pub fn new(source_tags: TagRequirements, effect_tags: TagRequirements) -> (query: Self)
        ensures
            query.source_requirements() == source_tags,
            query.effect_requirements() == effect_tags,
    {
        GameplayEffectImmunityQuery { source_tags, effect_tags }
    }

    /// Tests an incoming effect whose asset tags are given as registered tags.
    ///
    /// The asset tags are only expanded, and can only fail, once the source requirements pass.
    pub fn matches(
        &self,
        source_tags: Option<&GameplayTagContainer>,
        effect_asset_tags: &[GameplayTag],
        tag_manager: &GameplayTagManager,
    ) -> (result: Result<bool, GameplayTagError>)
        requires
            tag_manager.wf(),
        ensures
            !self.source_requirements().admits(source_tags) ==> result == Ok::<
                bool,
                GameplayTagError,
            >(false),
            self.source_requirements().admits(source_tags) && self.effect_requirements().has_no_rules()
                ==> result == Ok::<bool, GameplayTagError>(true),
            self.source_requirements().admits(source_tags) && !self.effect_requirements().has_no_rules()
                ==> (result is Ok <==> forall|k: int|
                0 <= k < effect_asset_tags@.len() ==> tag_manager.is_registered(
                    #[trigger] effect_asset_tags@[k],
                )),
            result matches Ok(b) ==> b == self.matches_present(
                source_tags,
                |i: int| inherited_by(*tag_manager, effect_asset_tags@, i),
            ),
            result matches Err(e) ==> exists|k: int|
                0 <= k < effect_asset_tags@.len() && !tag_manager.is_registered(
                    effect_asset_tags@[k],
                ) && (forall|j: int|
                    0 <= j < k ==> tag_manager.is_registered(#[trigger] effect_asset_tags@[j]))
                    && e == (GameplayTagError::InvalidTagIndex {
                    index: effect_asset_tags@[k].index() as usize,
                }),
    {
        if !self.source_tags.passes(source_tags) {
            return Ok(false);
        }
        self.effect_tags.passes_tag_slice(effect_asset_tags, tag_manager)
    }

    /// Tests an incoming effect whose asset tags are given as an expanded bitset.
    ///
    /// Without asset bits the query does not match.
    pub fn matches_tag_bits(
        &self,
        source_tags: Option<&GameplayTagContainer>,
        effect_asset_bits: Option<&GameplayTagBits>,
    ) -> (r: bool)
        ensures
            r == (effect_asset_bits is Some && self.matches_present(
                source_tags,
                |i: int| bits_contain(*effect_asset_bits->0, i),
            )),
    {
        if !self.source_tags.passes(source_tags) {
            return false;
        }
        match effect_asset_bits {
            None => false,
            Some(bits) => self.effect_tags.passes_tag_bits(bits),
        }
    }
}

impl Default for GameplayEffectImmunityQuery {
    /// Creates a query without requirements, which matches every incoming effect.
    fn default() -> (query: Self)
        ensures
            query.source_requirements().has_no_rules(),
            query.effect_requirements().has_no_rules(),
    {
        GameplayEffectImmunityQuery {
            source_tags: TagRequirements::default(),
            effect_tags: TagRequirements::default(),
        }
    }
}

/// One lifecycle phase's source and target requirements.
#[derive(Clone)]
struct SourceTargetTagRequirements {
    source: TagRequirements,
    target: TagRequirements,
}

fn no_source_target_requirements() -> (requirements: SourceTargetTagRequirements)
    ensures
        requirements.source.has_no_rules(),
        requirements.target.has_no_rules(),
{
    SourceTargetTagRequirements { source: TagRequirements::default(), target: TagRequirements::default() }
}

/// Configures an effect's identity, granted tags, requirements, immunity, and removal rules.
#[derive(Clone)]
pub struct EffectTags {
    asset_tags: Vec<GameplayTag>,
    granted_tags: Vec<GameplayTag>,
    application_requirements: SourceTargetTagRequirements,
    ongoing_requirements: SourceTargetTagRequirements,
    removal_requirements: SourceTargetTagRequirements,
    granted_application_immunity: Vec<GameplayEffectImmunityQuery>,
    remove_effects_with_tags: Vec<GameplayTag>,
}

impl EffectTags {
    /// The tags identifying the effect.
    pub closed spec fn asset_tags(self) -> Seq<GameplayTag> {
        self.asset_tags@
    }

    /// The tags granted to the target while the effect is active and uninhibited.
    pub closed spec fn granted_tags(self) -> Seq<GameplayTag> {
        self.granted_tags@
    }

    /// Source requirements checked before application.
    pub closed spec fn source_application(self) -> TagRequirements {
        self.application_requirements.source
    }

    /// Target requirements checked before application.
    pub closed spec fn target_application(self) -> TagRequirements {
        self.application_requirements.target
    }

    /// Source requirements checked while the effect is active.
    pub closed spec fn source_ongoing(self) -> TagRequirements {
        self.ongoing_requirements.source
    }

    /// Target requirements checked while the effect is active.
    pub closed spec fn target_ongoing(self) -> TagRequirements {
        self.ongoing_requirements.target
    }

    /// Source requirements that remove the effect when they match.
    pub closed spec fn source_removal(self) -> TagRequirements {
        self.removal_requirements.source
    }

    /// Target requirements that remove the effect when they match.
    pub closed spec fn target_removal(self) -> TagRequirements {
        self.removal_requirements.target
    }

    /// Immunity queries granted while the effect is active.
    pub closed spec fn immunity(self) -> Seq<GameplayEffectImmunityQuery> {
        self.granted_application_immunity@
    }

    /// Asset tags whose active effects are removed when this effect is applied.
    pub closed spec fn removes_tags(self) -> Seq<GameplayTag> {
        self.remove_effects_with_tags@
    }

    /// Whether `self` and `other` have the same asset and granted tags.
    pub open spec fn same_identity(self, other: Self) -> bool {
        self.asset_tags() == other.asset_tags() && self.granted_tags() == other.granted_tags()
    }

    /// Creates effect tags without application, ongoing, removal, or immunity rules.
    pub fn new(asset_tags: Vec<GameplayTag>, granted_tags: Vec<GameplayTag>) -> (tags: Self)
        ensures
            tags.asset_tags() == asset_tags@,
            tags.granted_tags() == granted_tags@,
            tags.source_application().has_no_rules(),
            tags.target_application().has_no_rules(),
            tags.source_ongoing().has_no_rules(),
            tags.target_ongoing().has_no_rules(),
            tags.source_removal().has_no_rules(),
            tags.target_removal().has_no_rules(),
            tags.immunity().len() == 0,
            tags.removes_tags().len() == 0,
    {
        EffectTags {
            asset_tags,
            granted_tags,
            application_requirements: no_source_target_requirements(),
            ongoing_requirements: no_source_target_requirements(),
            removal_requirements: no_source_target_requirements(),
            granted_application_immunity: Vec::new(),
            remove_effects_with_tags: Vec::new(),
        }
    }

    /// Configures the source and target requirements checked before application.
    pub fn with_application_requirements(self, source: TagRequirements, target: TagRequirements) -> (tags: Self)
        ensures
            tags.source_application() == source,
            tags.target_application() == target,
            tags.same_identity(self),
            tags.source_ongoing() == self.source_ongoing(),
            tags.target_ongoing() == self.target_ongoing(),
            tags.source_removal() == self.source_removal(),
            tags.target_removal() == self.target_removal(),
            tags.immunity() == self.immunity(),
            tags.removes_tags() == self.removes_tags(),
    {
        EffectTags { application_requirements: SourceTargetTagRequirements { source, target }, ..self }
    }

    /// Configures the source and target requirements checked while the effect is active.
    pub fn with_ongoing_requirements(self, source: TagRequirements, target: TagRequirements) -> (tags: Self)
        ensures
            tags.source_ongoing() == source,
            tags.target_ongoing() == target,
            tags.same_identity(self),
            tags.source_application() == self.source_application(),
            tags.target_application() == self.target_application(),
            tags.source_removal() == self.source_removal(),
            tags.target_removal() == self.target_removal(),
            tags.immunity() == self.immunity(),
            tags.removes_tags() == self.removes_tags(),
    {
        EffectTags { ongoing_requirements: SourceTargetTagRequirements { source, target }, ..self }
    }

    /// Configures the source and target requirements that trigger effect removal.
    pub fn with_removal_requirements(self, source: TagRequirements, target: TagRequirements) -> (tags: Self)
        ensures
            tags.source_removal() == source,
            tags.target_removal() == target,
            tags.same_identity(self),
            tags.source_application() == self.source_application(),
            tags.target_application() == self.target_application(),
            tags.source_ongoing() == self.source_ongoing(),
            tags.target_ongoing() == self.target_ongoing(),
            tags.immunity() == self.immunity(),
            tags.removes_tags() == self.removes_tags(),
    {
        EffectTags { removal_requirements: SourceTargetTagRequirements { source, target }, ..self }
    }

    /// Configures the immunity queries granted while this effect is active.
    pub fn with_granted_application_immunity(self, immunity_queries: Vec<GameplayEffectImmunityQuery>) -> (tags: Self)
        ensures
            tags.immunity() == immunity_queries@,
            tags.same_identity(self),
            tags.source_application() == self.source_application(),
            tags.target_application() == self.target_application(),
            tags.source_ongoing() == self.source_ongoing(),
            tags.target_ongoing() == self.target_ongoing(),
            tags.source_removal() == self.source_removal(),
            tags.target_removal() == self.target_removal(),
            tags.removes_tags() == self.removes_tags(),
    {
        EffectTags { granted_application_immunity: immunity_queries, ..self }
    }

    /// Configures the asset tags used to remove matching active effects on application.
    pub fn with_remove_effects_with_tags(self, effect_tags: Vec<GameplayTag>) -> (tags: Self)
        ensures
            tags.removes_tags() == effect_tags@,
            tags.same_identity(self),
            tags.source_application() == self.source_application(),
            tags.target_application() == self.target_application(),
            tags.source_ongoing() == self.source_ongoing(),
            tags.target_ongoing() == self.target_ongoing(),
            tags.source_removal() == self.source_removal(),
            tags.target_removal() == self.target_removal(),
            tags.immunity() == self.immunity(),
    {
        EffectTags { remove_effects_with_tags: effect_tags, ..self }
    }

    /// Returns the tags identifying the effect.
    pub fn get_asset_tags(&self) -> (tags: &[GameplayTag])
        ensures
            tags@ == self.asset_tags(),
    {
        self.asset_tags.as_slice()
    }

    /// Returns the tags granted to the target while the effect is active.
    pub fn get_granted_tags(&self) -> (tags: &[GameplayTag])
        ensures
            tags@ == self.granted_tags(),
    {
        self.granted_tags.as_slice()
    }

    /// Returns the target tags required for application.
    pub fn get_required_tags(&self) -> (tags: &[GameplayTag])
        ensures
            tags@ == self.target_application().required_tags(),
    {
        self.application_requirements.target.get_required_tags()
    }

    /// Returns the target tags that block application.
    pub fn get_blocked_tags(&self) -> (tags: &[GameplayTag])
        ensures
            tags@ == self.target_application().ignored_tags(),
    {
        self.application_requirements.target.get_ignored_tags()
    }

    /// Returns the source requirements checked before application.
    pub fn get_source_application_tags(&self) -> (requirements: &TagRequirements)
        ensures
            *requirements == self.source_application(),
    {
        &self.application_requirements.source
    }

    /// Returns the target requirements checked before application.
    pub fn get_target_application_tags(&self) -> (requirements: &TagRequirements)
        ensures
            *requirements == self.target_application(),
    {
        &self.application_requirements.target
    }

    /// Returns the source requirements checked while the effect is active.
    pub fn get_source_ongoing_tags(&self) -> (requirements: &TagRequirements)
        ensures
            *requirements == self.source_ongoing(),
    {
        &self.ongoing_requirements.source
    }

    /// Returns the target requirements checked while the effect is active.
    pub fn get_target_ongoing_tags(&self) -> (requirements: &TagRequirements)
        ensures
            *requirements == self.target_ongoing(),
    {
        &self.ongoing_requirements.target
    }

    /// Returns the source requirements that remove the effect.
    pub fn get_source_removal_tags(&self) -> (requirements: &TagRequirements)
        ensures
            *requirements == self.source_removal(),
    {
        &self.removal_requirements.source
    }

    /// Returns the target requirements that remove the effect.
    pub fn get_target_removal_tags(&self) -> (requirements: &TagRequirements)
        ensures
            *requirements == self.target_removal(),
    {
        &self.removal_requirements.target
    }

    /// Returns the immunity queries granted while this effect is active.
    pub fn get_granted_application_immunity(&self) -> (queries: &[GameplayEffectImmunityQuery])
        ensures
            queries@ == self.immunity(),
    {
        self.granted_application_immunity.as_slice()
    }

    /// Returns the asset tags whose active effects are removed on application.
    pub fn get_remove_effects_with_tags(&self) -> (tags: &[GameplayTag])
        ensures
            tags@ == self.removes_tags(),
    {
        self.remove_effects_with_tags.as_slice()
    }
}

} // verus!
