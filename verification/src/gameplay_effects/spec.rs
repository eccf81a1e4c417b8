use super::{EffectDurationTicksSpec, EffectPeriodTicksSpec, EffectTags, StackingPolicy};
use vstd::prelude::*;

verus! {

/// The values of one effect application, evaluated once from a shared definition.
///
/// `def_id` identifies the definition the values were evaluated from: two specifications
/// belong to the same definition exactly when their identifiers are equal. Modifier
/// magnitudes are evaluated by the attribute system; the specification keeps how many
/// modifiers the application carries.
pub struct GameplayEffectSpec {
    def_id: u64,
    tags: EffectTags,
    stacking_policy: StackingPolicy,
    duration: EffectDurationTicksSpec,
    period: Option<EffectPeriodTicksSpec>,
    modifier_count: usize,
}

impl GameplayEffectSpec {
    /// The identity of the definition these values were evaluated from.
    pub closed spec fn def_id(self) -> u64 {
        self.def_id
    }

    /// The definition's tags and lifecycle rules.
    pub closed spec fn tags(self) -> EffectTags {
        self.tags
    }

    /// The definition's stacking policy.
    pub closed spec fn stacking(self) -> StackingPolicy {
        self.stacking_policy
    }

    /// The evaluated duration.
    pub closed spec fn duration(self) -> EffectDurationTicksSpec {
        self.duration
    }

    /// The evaluated period, if the effect is periodic.
    pub closed spec fn period(self) -> Option<EffectPeriodTicksSpec> {
        self.period
    }

    /// The number of evaluated modifiers.
    pub closed spec fn modifier_count(self) -> nat {
        self.modifier_count as nat
    }

    /// Whether the period, if any, has a positive length.
    pub open spec fn runs_periodically(self) -> bool {
        self.period() matches Some(p) && p.period_ticks > 0
    }

    /// Creates the values of one application of the definition `def_id`.
    pub fn new(
        def_id: u64,
        tags: EffectTags,
        stacking_policy: StackingPolicy,
        duration: EffectDurationTicksSpec,
        period: Option<EffectPeriodTicksSpec>,
        modifier_count: usize,
    ) -> (spec: Self)
        ensures
            spec.def_id() == def_id,
            spec.tags() == tags,
            spec.stacking() == stacking_policy,
            spec.duration() == duration,
            spec.period() == period,
            spec.modifier_count() == modifier_count,
    {
        GameplayEffectSpec { def_id, tags, stacking_policy, duration, period, modifier_count }
    }

    /// Returns the identity of the definition these values were evaluated from.
    pub fn get_def_id(&self) -> (def_id: u64)
        ensures
            def_id == self.def_id(),
    {
        self.def_id
    }

    /// Returns whether both specifications were evaluated from the same definition.
    pub fn is_same_def(&self, other: &GameplayEffectSpec) -> (same: bool)
        ensures
            same == (self.def_id() == other.def_id()),
    {
        self.def_id == other.def_id
    }

    /// Returns the definition's tags and lifecycle rules.
    pub fn get_def_tags(&self) -> (tags: &EffectTags)
        ensures
            *tags == self.tags(),
    {
        &self.tags
    }

    /// Returns the definition's stacking policy.
    pub fn get_stacking_policy(&self) -> (policy: StackingPolicy)
        ensures
            policy == self.stacking(),
    {
        self.stacking_policy
    }

    /// Returns the evaluated duration.
    pub fn get_duration_spec(&self) -> (duration: EffectDurationTicksSpec)
        ensures
            duration == self.duration(),
    {
        self.duration
    }

    /// Returns the evaluated period, if any.
    pub fn get_period_spec(&self) -> (period: Option<EffectPeriodTicksSpec>)
        ensures
            period == self.period(),
    {
        self.period
    }

    /// Returns the number of evaluated modifiers.
    pub fn get_modifier_count(&self) -> (count: usize)
        ensures
            count == self.modifier_count(),
    {
        self.modifier_count
    }

    /// Returns whether the application carries any modifiers.
    pub fn has_modifiers(&self) -> (has: bool)
        ensures
            has == (self.modifier_count() > 0),
    {
        self.modifier_count > 0
    }
}

} // verus!
