use super::{EffectDurationTicks, EffectPeriodTicks, EffectTags, StackingPolicy};
use vstd::prelude::*;

verus! {

/// Shared effect formulas, timing, stacking, and tag rules: modifiers of type `M`, duration and
/// period magnitudes of type `X`, and an application probability of type `P`.
///
/// Evaluating the formulas for one application yields a [`super::GameplayEffectSpec`].
pub struct GameplayEffect<M, X, P> {
    modifiers: Vec<M>,
    duration: EffectDurationTicks<X>,
    period: Option<EffectPeriodTicks<X>>,
    probability_to_apply: P,
    stacking_policy: StackingPolicy,
    tags: EffectTags,
}

impl<M, X, P> GameplayEffect<M, X, P> {
    /// The modifiers, in definition order.
    pub closed spec fn modifiers(self) -> Seq<M> {
        self.modifiers@
    }

    /// The configured duration.
    pub closed spec fn duration(self) -> EffectDurationTicks<X> {
        self.duration
    }

    /// The configured period, if the effect is periodic.
    pub closed spec fn period(self) -> Option<EffectPeriodTicks<X>> {
        self.period
    }

    /// The configured application chance.
    pub closed spec fn probability(self) -> P {
        self.probability_to_apply
    }

    /// The stacking behavior.
    pub closed spec fn stacking(self) -> StackingPolicy {
        self.stacking_policy
    }

    /// The identity, granted tags, and lifecycle rules.
    pub closed spec fn tags(self) -> EffectTags {
        self.tags
    }

    /// Creates an effect definition without applying it or evaluating its formulas.
    pub fn new(
        modifiers: Vec<M>,
        duration: EffectDurationTicks<X>,
        period: Option<EffectPeriodTicks<X>>,
        probability_to_apply: P,
        stacking_policy: StackingPolicy,
        tags: EffectTags,
    ) -> (effect: Self)
        ensures
            effect.modifiers() == modifiers@,
            effect.duration() == duration,
            effect.period() == period,
            effect.probability() == probability_to_apply,
            effect.stacking() == stacking_policy,
            effect.tags() == tags,
    {
        GameplayEffect { modifiers, duration, period, probability_to_apply, stacking_policy, tags }
    }

    /// Returns the modifiers, in definition order.
    pub fn get_modifiers(&self) -> (modifiers: &[M])
        ensures
            modifiers@ == self.modifiers(),
    {
        self.modifiers.as_slice()
    }

    /// Returns the configured duration.
    pub fn get_duration(&self) -> (duration: &EffectDurationTicks<X>)
        ensures
            *duration == self.duration(),
    {
        &self.duration
    }

    /// Returns the configured period, if the effect is periodic.
    pub fn get_period(&self) -> (period: Option<&EffectPeriodTicks<X>>)
        ensures
            period is Some == self.period() is Some,
            period matches Some(p) ==> *p == self.period()->0,
    {
        self.period.as_ref()
    }

    /// Returns the configured application chance without sampling it.
    pub fn get_probability_to_apply(&self) -> (probability: &P)
        ensures
            *probability == self.probability(),
    {
        &self.probability_to_apply
    }

    /// Returns the stacking behavior.
    pub fn get_stacking_policy(&self) -> (policy: StackingPolicy)
        ensures
            policy == self.stacking(),
    {
        self.stacking_policy
    }

    /// Returns whether every modifier uses addition, as `is_add` classifies each one, including
    /// when there are no modifiers.
    ///
    /// Ability costs need additive modifiers so that affordability can be checked before
    /// payment.
    pub fn has_only_add_modifiers<R: Fn(&M) -> bool>(&self, is_add: R) -> (only_add: bool)
        requires
            forall|m: &M| is_add.requires((m,)),
        ensures
            only_add ==> forall|i: int| 0 <= i < self.modifiers().len() ==> is_add.ensures(
                (&#[trigger] self.modifiers()[i],),
                true,
            ),
            !only_add ==> exists|i: int| 0 <= i < self.modifiers().len() && is_add.ensures(
                (&#[trigger] self.modifiers()[i],),
                false,
            ),
    {
        let mut i: usize = 0;
        while i < self.modifiers.len()
            invariant
                0 <= i <= self.modifiers@.len(),
                forall|m: &M| is_add.requires((m,)),
                forall|j: int| 0 <= j < i ==> is_add.ensures((&#[trigger] self.modifiers@[j],), true),
            decreases self.modifiers@.len() - i,
        {
            let additive = is_add(&self.modifiers[i]);
            if !additive {
                assert(is_add.ensures((&self.modifiers()[i as int],), false));
                return false;
            }
            i = i + 1;
        }
        true
    }

    /// Returns the identity, granted tags, and lifecycle rules.
    pub fn get_tags(&self) -> (tags: &EffectTags)
        ensures
            *tags == self.tags(),
    {
        &self.tags
    }
}

} // verus!
