//! Applying a gameplay effect to one entity of an effect world.

use super::execution::{execute_gameplay_effect_plan, execution_outcome, PlanExecution};
use super::planning::{prepare_gameplay_effect, prepare_outcome, GameplayEffectApplicationError};
use super::world::EffectWorld;
use super::{ActiveEffectHandle, ActiveGameplayEffects, EffectTags, GameplayEffectSpec};
use crate::gameplay_tags::{GameplayTagContainer, GameplayTagManager};
use crate::identifiers::EntityId;
use vstd::prelude::*;

verus! {

impl EffectWorld {
    /// Every effect stored on its own target passes its requirements as it stands: no effect
    /// is due to be removed, inhibited, or restored.
    pub open spec fn requirements_settled(self) -> bool {
        forall|h: ActiveEffectHandle| #[trigger] self.live_own(h) ==> self.decision_of(
            self.storage_of(h.target())->0.lookup(h)->0,
        ) is None
    }

    /// `after` is what resolving the tag requirements of `self` to a fixed point can leave.
    pub open spec fn settles_into(self, after: Self, tag_manager: GameplayTagManager) -> bool {
        &&& after.wf(tag_manager)
        &&& after.same_layout(self)
        &&& after.holds_no_new_effects(self)
        &&& after.requirements_settled()
    }

    /// `after` is `self` after one application, by `source` to `target`, of the effect with
    /// incoming tags `incoming` and specification `spec`, given the probability roll, with the
    /// outcome `result`.
    ///
    /// The application is prepared against the target's storage and tags, the source's tags,
    /// and whether the target stores attributes. When preparation fails nothing changes;
    /// otherwise the plan is executed on the target's storage and tags. Every other entity's
    /// storage and tags stay as they were.
    pub open spec fn applied(
        self,
        after: Self,
        source: EntityId,
        target: EntityId,
        incoming: EffectTags,
        spec: GameplayEffectSpec,
        roll_passed: bool,
        tag_manager: GameplayTagManager,
        result: Result<PlanExecution, GameplayEffectApplicationError>,
    ) -> bool {
        let effects = match self.storage_of(target) {
            Some(st) => Some(&st),
            None => None::<&ActiveGameplayEffects>,
        };
        let source_tags = match self.container_of(source) {
            Some(c) => Some(&c),
            None => None::<&GameplayTagContainer>,
        };
        let target_tags = match self.container_of(target) {
            Some(c) => Some(&c),
            None => None::<&GameplayTagContainer>,
        };
        let has_attribute_set = self.attribute_holders@.contains(target);
        &&& forall|e: EntityId| e != target ==> #[trigger] after.storage_of(e) == self.storage_of(e)
        &&& forall|e: EntityId| e != target ==> #[trigger] after.container_of(e) == self.container_of(e)
        &&& {
            ||| (result matches Err(error) && after == self && prepare_outcome(
                source,
                target,
                &incoming,
                spec,
                roll_passed,
                effects,
                source_tags,
                target_tags,
                has_attribute_set,
                &tag_manager,
                Err(error),
            ))
            ||| exists|plan| {
                &&& prepare_outcome(
                    source,
                    target,
                    &incoming,
                    spec,
                    roll_passed,
                    effects,
                    source_tags,
                    target_tags,
                    has_attribute_set,
                    &tag_manager,
                    Ok(plan),
                )
                &&& execution_outcome(
                    plan,
                    self.storage_of(target),
                    after.storage_of(target),
                    self.container_of(target),
                    after.container_of(target),
                    has_attribute_set,
                    tag_manager,
                    result,
                )
            }
        }
    }

    /// Worlds with the same layout whose storages and containers differ only in entries of
    /// `target` agree on every other entity's storage and tags.
    proof fn lemma_only_target_changed(self, other: Self, target: EntityId)
        requires
            self.same_layout(other),
            forall|a: int, b: int|
                0 <= a < b < self.storages@.len() ==> (#[trigger] self.storages@[a]).entity != (
                #[trigger] self.storages@[b]).entity,
            forall|a: int, b: int|
                0 <= a < b < self.containers@.len() ==> (#[trigger] self.containers@[a]).entity != (
                #[trigger] self.containers@[b]).entity,
            forall|i: int| 0 <= i < self.storages@.len() && (#[trigger] self.storages@[i]).entity != target
                ==> self.storages@[i] == other.storages@[i],
            forall|i: int| 0 <= i < self.containers@.len() && (#[trigger] self.containers@[i]).entity != target
                ==> self.containers@[i] == other.containers@[i],
        ensures
            forall|e: EntityId| e != target ==> #[trigger] self.storage_of(e) == other.storage_of(e),
            forall|e: EntityId| e != target ==> #[trigger] self.container_of(e) == other.container_of(e),
    {
        assert forall|a: int, b: int| 0 <= a < b < other.storages@.len() implies (#[trigger] other.storages@[a]).entity != (
            #[trigger] other.storages@[b]).entity by {
            assert(self.storages@[a].entity != self.storages@[b].entity);
        }
        assert forall|a: int, b: int| 0 <= a < b < other.containers@.len() implies (#[trigger] other.containers@[a]).entity != (
            #[trigger] other.containers@[b]).entity by {
            assert(self.containers@[a].entity != self.containers@[b].entity);
        }
        assert forall|e: EntityId| e != target implies #[trigger] self.storage_of(e) == other.storage_of(e) by {
            if exists|i: int| 0 <= i < self.storages@.len() && (#[trigger] self.storages@[i]).entity == e {
                let i = choose|i: int| 0 <= i < self.storages@.len() && (#[trigger] self.storages@[i]).entity == e;
                self.lemma_storage_of(i);
                other.lemma_storage_of(i);
                assert(other.storages@[i].entity == e);
            } else {
                assert forall|i: int| 0 <= i < other.storages@.len() implies (#[trigger] other.storages@[i]).entity != e by {
                    assert(self.storages@[i].entity == other.storages@[i].entity);
                }
            }
        }
        assert forall|e: EntityId| e != target implies #[trigger] self.container_of(e) == other.container_of(e) by {
            if exists|i: int| 0 <= i < self.containers@.len() && (#[trigger] self.containers@[i]).entity == e {
                let i = choose|i: int| 0 <= i < self.containers@.len() && (#[trigger] self.containers@[i]).entity == e;
                self.lemma_container_of(i);
                other.lemma_container_of(i);
                assert(other.containers@[i].entity == e);
            } else {
                assert forall|i: int| 0 <= i < other.containers@.len() implies (#[trigger] other.containers@[i]).entity != e by {
                    assert(self.containers@[i].entity == other.containers@[i].entity);
                }
            }
        }
    }

    /// Applies the effect as [`EffectWorld::apply_gameplay_effect_in_batch`] does, and reports
    /// whether the plan could change which effects pass their requirements.
    fn apply_and_report(
        &mut self,
        source: EntityId,
        target: EntityId,
        incoming: &EffectTags,
        spec: GameplayEffectSpec,
        roll_passed: bool,
        tag_manager: &GameplayTagManager,
    ) -> (outcome: (Result<PlanExecution, GameplayEffectApplicationError>, bool))
        requires
            old(self).wf(*tag_manager),
            tag_manager.wf(),
        ensures
            final(self).wf(*tag_manager),
            final(self).same_layout(*old(self)),
            old(self).applied(*final(self), source, target, *incoming, spec, roll_passed, *tag_manager, outcome.0),
    {
        let si = self.find_storage(target);
        let tci = self.find_container(target);
        let has_attribute_set = self.has_attribute_set(target);
        let ghost before = *self;
        let ghost spec_value = spec;
        let ghost effects_spec = match before.storage_of(target) {
            Some(st) => Some(&st),
            None => None::<&ActiveGameplayEffects>,
        };
        let ghost source_spec = match before.container_of(source) {
            Some(c) => Some(&c),
            None => None::<&GameplayTagContainer>,
        };
        let ghost target_spec = match before.container_of(target) {
            Some(c) => Some(&c),
            None => None::<&GameplayTagContainer>,
        };
        proof {
            match si {
                Some(i) => {
                    before.lemma_storage_of(i as int);
                },
                None => {},
            }
            match tci {
                Some(c) => {
                    before.lemma_container_of(c as int);
                },
                None => {},
            }
        }
        let effects_ref: Option<&ActiveGameplayEffects> = match si {
            Some(i) => Some(&self.storages[i].effects),
            None => None,
        };
        let source_tags = self.tags_of(source);
        let target_tags = self.tags_of(target);
        assert(effects_ref == effects_spec);
        assert(source_tags == source_spec);
        assert(target_tags == target_spec);
        let prepared = prepare_gameplay_effect(
            source,
            target,
            incoming,
            spec,
            roll_passed,
            effects_ref,
            source_tags,
            target_tags,
            has_attribute_set,
            tag_manager,
        );
        let plan = match prepared {
            Ok(plan) => plan,
            Err(e) => {
                proof {
                    before.lemma_only_target_changed(before, target);
                    assert(prepare_outcome(
                        source,
                        target,
                        incoming,
                        spec_value,
                        roll_passed,
                        effects_spec,
                        source_spec,
                        target_spec,
                        has_attribute_set,
                        tag_manager,
                        Err(e),
                    ));
                    assert(*self == before);
                }
                return (Err(e), false);
            },
        };
        let ghost plan_value = plan;
        let changes = plan.changes_active_effect_requirements();
        let mut effects: Option<ActiveGameplayEffects> = match si {
            None => None,
            Some(i) => {
                let mut taken = ActiveGameplayEffects::new();
                let entry = &mut self.storages[i];
                std::mem::swap(&mut taken, &mut entry.effects);
                Some(taken)
            },
        };
        let mut tags: Option<GameplayTagContainer> = match tci {
            None => None,
            Some(c) => {
                let mut taken = GameplayTagContainer::default();
                let entry = &mut self.containers[c];
                std::mem::swap(&mut taken, &mut entry.tags);
                Some(taken)
            },
        };
        assert(effects == before.storage_of(target));
        assert(tags == before.container_of(target));
        let result = execute_gameplay_effect_plan(plan, &mut effects, &mut tags, has_attribute_set, tag_manager);
        match si {
            None => {},
            Some(i) => {
                let entry = &mut self.storages[i];
                entry.effects = effects.unwrap();
            },
        }
        match tci {
            None => {},
            Some(c) => {
                let entry = &mut self.containers[c];
                entry.tags = tags.unwrap();
            },
        }
        proof {
            match si {
                Some(i) => {
                    self.lemma_storage_of(i as int);
                },
                None => {
                    assert forall|i: int| 0 <= i < self.storages@.len() implies (#[trigger] self.storages@[i]).entity != target by {
                        assert(self.storages@[i] == before.storages@[i]);
                    }
                },
            }
            match tci {
                Some(c) => {
                    self.lemma_container_of(c as int);
                },
                None => {
                    assert forall|i: int| 0 <= i < self.containers@.len() implies (#[trigger] self.containers@[i]).entity != target by {
                        assert(self.containers@[i] == before.containers@[i]);
                    }
                },
            }
            self.lemma_only_target_changed(before, target);
            assert(prepare_outcome(
                source,
                target,
                incoming,
                spec_value,
                roll_passed,
                effects_spec,
                source_spec,
                target_spec,
                has_attribute_set,
                tag_manager,
                Ok(plan_value),
            ));
            assert(execution_outcome(
                plan_value,
                before.storage_of(target),
                self.storage_of(target),
                before.container_of(target),
                self.container_of(target),
                has_attribute_set,
                *tag_manager,
                result,
            ));
        }
        (result, changes)
    }

    /// Prepares and executes one application, by `source` to `target`, of the effect with
    /// incoming tags `incoming` and specification `spec`, without resolving tag requirements
    /// around it. `roll_passed` is the outcome of the application-probability roll.
    ///
    /// The application is checked against the target's storage and tags, the source's tags,
    /// and whether the target stores attributes; a rejected or invalid application changes
    /// nothing. Otherwise the plan is executed on the target's storage and tags.
    pub fn apply_gameplay_effect_in_batch(
        &mut self,
        source: EntityId,
        target: EntityId,
        incoming: &EffectTags,
        spec: GameplayEffectSpec,
        roll_passed: bool,
        tag_manager: &GameplayTagManager,
    ) -> (result: Result<PlanExecution, GameplayEffectApplicationError>)
        requires
            old(self).wf(*tag_manager),
            tag_manager.wf(),
        ensures
            final(self).wf(*tag_manager),
            final(self).same_layout(*old(self)),
            old(self).applied(*final(self), source, target, *incoming, spec, roll_passed, *tag_manager, result),
    {
        let (result, _) = self.apply_and_report(source, target, incoming, spec, roll_passed, tag_manager);
        result
    }

    /// Applies an effect as [`EffectWorld::apply_gameplay_effect_in_batch`] does, with the tag
    /// requirements of every effect resolved to a fixed point first, and again afterwards when
    /// the plan removes effects or stores a new one.
    pub fn apply_gameplay_effect(
        &mut self,
        source: EntityId,
        target: EntityId,
        incoming: &EffectTags,
        spec: GameplayEffectSpec,
        roll_passed: bool,
        tag_manager: &GameplayTagManager,
    ) -> (result: Result<PlanExecution, GameplayEffectApplicationError>)
        requires
            old(self).wf(*tag_manager),
            tag_manager.wf(),
        ensures
            final(self).wf(*tag_manager),
            final(self).same_layout(*old(self)),
            exists|settled: EffectWorld, applied: EffectWorld|
                {
                    &&& old(self).settles_into(settled, *tag_manager)
                    &&& settled.applied(applied, source, target, *incoming, spec, roll_passed, *tag_manager, result)
                    &&& applied.wf(*tag_manager)
                    &&& (*final(self) == applied || applied.settles_into(*final(self), *tag_manager))
                },
    {
        self.resolve_active_effect_tag_requirements(tag_manager);
        let ghost settled = *self;
        let (result, changes) = self.apply_and_report(source, target, incoming, spec, roll_passed, tag_manager);
        let ghost applied = *self;
        if changes {
            self.resolve_active_effect_tag_requirements(tag_manager);
        }
        assert(old(self).settles_into(settled, *tag_manager));
        assert(settled.applied(applied, source, target, *incoming, spec, roll_passed, *tag_manager, result));
        result
    }
}

} // verus!
