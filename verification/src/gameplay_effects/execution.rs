//! Installing and removing the granted tags of active effects, and storing new effects.

use super::planning::{
    all_registered, collect_active_effects_with_tags, effect_matches_tags, first_unregistered,
    tags_checkable,
};
use super::storage::ExpiredEffect;
use super::{
    initial_duration, initial_period, ActiveEffectHandle, ActiveGameplayEffect,
    ActiveGameplayEffects, ActiveEffectRequirementDecision, EffectDurationTicksSpec,
    GameplayEffectApplicationError, GameplayEffectApplicationKind, GameplayEffectApplicationPlan,
    GameplayEffectSpec,
};
use crate::gameplay_tags::{
    occurrences, inherit_count, tag_bits_from_tags_with_manager, GameplayTag, GameplayTagContainer,
    GameplayTagError, GameplayTagManager, MAX_TAG_COUNTS,
};
use crate::identifiers::EntityId;
use vstd::prelude::*;

verus! {

/// Whether an optional container is consistent with `manager`, or absent.
pub open spec fn tags_consistent(tags: Option<GameplayTagContainer>, manager: GameplayTagManager) -> bool {
    tags matches Some(c) ==> c.consistent_with(manager)
}

/// Whether `after` is `before` with the explicit references of `granted` released.
pub open spec fn released(before: GameplayTagContainer, after: GameplayTagContainer, granted: Seq<GameplayTag>) -> bool {
    forall|j: int|
        0 <= j < MAX_TAG_COUNTS ==> #[trigger] after.explicit(j) == if before.explicit(j) > occurrences(granted, j) {
            before.explicit(j) - occurrences(granted, j)
        } else {
            0
        }
}

/// Whether `after` is `before` with the references of `granted` added.
pub open spec fn granted(
    before: GameplayTagContainer,
    after: GameplayTagContainer,
    granted: Seq<GameplayTag>,
    manager: GameplayTagManager,
) -> bool {
    &&& forall|j: int| 0 <= j < MAX_TAG_COUNTS ==> #[trigger] after.explicit(j) == before.explicit(j) + occurrences(granted, j)
    &&& forall|j: int| 0 <= j < MAX_TAG_COUNTS ==> #[trigger] after.total(j) == before.total(j) + inherit_count(granted, manager, j)
}

/// Checks that the granted tags of `effect` are registered, so that its cleanup can succeed.
pub fn validate_effect_cleanup(effect: &ActiveGameplayEffect, tag_manager: &GameplayTagManager) -> (result: Result<
    (),
    GameplayEffectApplicationError,
>)
    requires
        tag_manager.wf(),
    ensures
        result is Ok <==> all_registered(*tag_manager, effect.spec_of().tags().granted_tags()),
        result matches Err(e) ==> e matches GameplayEffectApplicationError::GameplayTag(t) && first_unregistered(
            *tag_manager,
            effect.spec_of().tags().granted_tags(),
            t,
        ),
{
    match tag_bits_from_tags_with_manager(effect.get_spec().get_def_tags().get_granted_tags(), tag_manager) {
        Ok(_) => Ok(()),
        Err(e) => Err(GameplayEffectApplicationError::GameplayTag(e)),
    }
}

/// Whether releasing the expired effect `x` releases its granted tags: it is active and its
/// granted tags are registered.
pub open spec fn releases_on_expiry(x: ExpiredEffect, manager: GameplayTagManager) -> bool {
    !x.effect.inhibited() && all_registered(manager, x.effect.spec_of().tags().granted_tags())
}

/// Releasing the granted tags of `effects` in turn never raises the count of index `j`; it
/// takes at least the occurrences of each releasing effect's tags off the count, down to zero;
/// and it leaves the count alone when no releasing effect grants index `j`.
pub proof fn lemma_release_bounds(start: int, effects: Seq<ExpiredEffect>, manager: GameplayTagManager, j: int)
    requires
        start >= 0,
    ensures
        0 <= explicit_after_release(start, effects, manager, j) <= start,
        forall|k: int| 0 <= k < effects.len() && #[trigger] releases_on_expiry(effects[k], manager) ==> explicit_after_release(
            start,
            effects,
            manager,
            j,
        ) == 0 || explicit_after_release(start, effects, manager, j) + occurrences(
            effects[k].effect.spec_of().tags().granted_tags(),
            j,
        ) <= start,
        (forall|k: int| 0 <= k < effects.len() && #[trigger] releases_on_expiry(effects[k], manager) ==> occurrences(
            effects[k].effect.spec_of().tags().granted_tags(),
            j,
        ) == 0) ==> explicit_after_release(start, effects, manager, j) == start,
    decreases effects.len(),
{
    if effects.len() > 0 {
        let rest = effects.drop_last();
        lemma_release_bounds(start, rest, manager, j);
        let last = effects.last();
        lemma_occurrences_nonneg(last.effect.spec_of().tags().granted_tags(), j);
        assert forall|k: int| 0 <= k < effects.len() && #[trigger] releases_on_expiry(effects[k], manager) implies explicit_after_release(
            start,
            effects,
            manager,
            j,
        ) == 0 || explicit_after_release(start, effects, manager, j) + occurrences(
            effects[k].effect.spec_of().tags().granted_tags(),
            j,
        ) <= start by {
            if k < rest.len() {
                assert(rest[k] == effects[k]);
                assert(releases_on_expiry(rest[k], manager));
                lemma_occurrences_nonneg(effects[k].effect.spec_of().tags().granted_tags(), j);
            }
        }
        if forall|k: int| 0 <= k < effects.len() && #[trigger] releases_on_expiry(effects[k], manager) ==> occurrences(
            effects[k].effect.spec_of().tags().granted_tags(),
            j,
        ) == 0 {
            assert forall|k: int| 0 <= k < rest.len() && #[trigger] releases_on_expiry(rest[k], manager) implies occurrences(
                rest[k].effect.spec_of().tags().granted_tags(),
                j,
            ) == 0 by {
                assert(rest[k] == effects[k]);
            }
            assert(releases_on_expiry(effects[effects.len() - 1], manager) ==> occurrences(
                last.effect.spec_of().tags().granted_tags(),
                j,
            ) == 0);
        }
    }
}

/// The number of occurrences of an index in a tag sequence is never negative.
pub proof fn lemma_occurrences_nonneg(tags: Seq<GameplayTag>, j: int)
    ensures
        occurrences(tags, j) >= 0,
    decreases tags.len(),
{
    if tags.len() > 0 {
        lemma_occurrences_nonneg(tags.drop_last(), j);
    }
}

/// Releases the granted tags of a removed effect from its target's tags.
///
/// The granted tags are validated first. An inhibited effect holds no granted tags, and a target
/// without tags has nothing to release.
pub fn cleanup_effect_tags(
    effect: &ActiveGameplayEffect,
    target_tags: &mut Option<GameplayTagContainer>,
    tag_manager: &GameplayTagManager,
) -> (result: Result<(), GameplayEffectApplicationError>)
    requires
        tag_manager.wf(),
        tags_consistent(*old(target_tags), *tag_manager),
    ensures
        tags_consistent(*final(target_tags), *tag_manager),
        final(target_tags).is_some() == old(target_tags).is_some(),
        result is Ok <==> all_registered(*tag_manager, effect.spec_of().tags().granted_tags()),
        result matches Err(e) ==> e matches GameplayEffectApplicationError::GameplayTag(t) && first_unregistered(
            *tag_manager,
            effect.spec_of().tags().granted_tags(),
            t,
        ),
        (result is Err || effect.inhibited() || old(target_tags).is_none()) ==> *final(target_tags) == *old(
            target_tags,
        ),
        (result is Ok && !effect.inhibited() && old(target_tags).is_some()) ==> released(
            old(target_tags).unwrap(),
            final(target_tags).unwrap(),
            effect.spec_of().tags().granted_tags(),
        ),
{
    match validate_effect_cleanup(effect, tag_manager) {
        Ok(()) => {},
        Err(e) => {
            return Err(e);
        },
    }
    if effect.is_inhibited() {
        return Ok(());
    }
    match target_tags {
        None => Ok(()),
        Some(tags) => {
            match tags.remove_tags(effect.get_spec().get_def_tags().get_granted_tags(), tag_manager) {
                Ok(()) => Ok(()),
                Err(e) => Err(GameplayEffectApplicationError::GameplayTag(e)),
            }
        },
    }
}

/// Grants the tags of `spec` to its target.
///
/// The granted tags are validated first. Granting tags needs the target's tags; without granted
/// tags nothing changes.
pub fn install_effect_tags(
    target: EntityId,
    spec: &GameplayEffectSpec,
    target_tags: &mut Option<GameplayTagContainer>,
    tag_manager: &GameplayTagManager,
) -> (result: Result<(), GameplayEffectApplicationError>)
    requires
        tag_manager.wf(),
        tags_consistent(*old(target_tags), *tag_manager),
    ensures
        tags_consistent(*final(target_tags), *tag_manager),
        final(target_tags).is_some() == old(target_tags).is_some(),
        result is Err ==> *final(target_tags) == *old(target_tags),
        !all_registered(*tag_manager, spec.tags().granted_tags()) ==> (result matches Err(
            GameplayEffectApplicationError::GameplayTag(t),
        ) && first_unregistered(*tag_manager, spec.tags().granted_tags(), t)),
        all_registered(*tag_manager, spec.tags().granted_tags()) && spec.tags().granted_tags().len() == 0
            ==> result is Ok && *final(target_tags) == *old(target_tags),
        all_registered(*tag_manager, spec.tags().granted_tags()) && spec.tags().granted_tags().len() > 0 ==> {
            &&& old(target_tags).is_none() ==> result == Err::<(), GameplayEffectApplicationError>(
                GameplayEffectApplicationError::MissingTagContainer { target },
            )
            &&& *old(target_tags) matches Some(c) ==> (result is Ok <==> c.batch_fits(
                *tag_manager,
                spec.tags().granted_tags(),
            ))
            &&& *old(target_tags) matches Some(c) ==> (result matches Err(e) ==> e is GameplayTag)
            &&& result is Ok ==> granted(
                old(target_tags).unwrap(),
                final(target_tags).unwrap(),
                spec.tags().granted_tags(),
                *tag_manager,
            )
        },
{
    let granted_tags = spec.get_def_tags().get_granted_tags();
    match tag_bits_from_tags_with_manager(granted_tags, tag_manager) {
        Ok(_) => {},
        Err(e) => {
            return Err(GameplayEffectApplicationError::GameplayTag(e));
        },
    }
    if granted_tags.len() == 0 {
        return Ok(());
    }
    match target_tags {
        None => Err(GameplayEffectApplicationError::MissingTagContainer { target }),
        Some(tags) => {
            match tags.add_tags(granted_tags, tag_manager) {
                Ok(()) => Ok(()),
                Err(e) => Err(GameplayEffectApplicationError::GameplayTag(e)),
            }
        },
    }
}

/// Stores a new active effect of `spec` applied by `source` to `target` and grants its tags.
///
/// When granting the tags fails, the new effect is removed again and the error is returned.
pub fn create_active_effect(
    active_effects: &mut ActiveGameplayEffects,
    source: EntityId,
    target: EntityId,
    spec: GameplayEffectSpec,
    target_tags: &mut Option<GameplayTagContainer>,
    tag_manager: &GameplayTagManager,
) -> (result: Result<ActiveEffectHandle, GameplayEffectApplicationError>)
    requires
        old(active_effects).wf(),
        tag_manager.wf(),
        tags_consistent(*old(target_tags), *tag_manager),
    ensures
        final(active_effects).wf(),
        tags_consistent(*final(target_tags), *tag_manager),
        final(target_tags).is_some() == old(target_tags).is_some(),
        result is Err ==> *final(target_tags) == *old(target_tags),
        forall|h: ActiveEffectHandle| #[trigger] old(active_effects).lookup(h) is Some ==> final(active_effects).lookup(h)
            == old(active_effects).lookup(h),
        forall|h: ActiveEffectHandle| #[trigger] old(active_effects).retired(h) ==> final(active_effects).retired(h),
        result matches Ok(h) ==> {
            let e = final(active_effects).lookup(h)->0;
            &&& h.target() == target
            &&& old(active_effects).lookup(h) is None
            &&& final(active_effects).lookup(h) is Some
            &&& e.spec_of() == spec && e.source() == source && e.target() == target
            &&& e.stacks() == 1 && !e.inhibited()
            &&& initial_duration(spec, e.duration_state())
            &&& initial_period(spec, e.period_state())
            &&& spec.tags().granted_tags().len() > 0 ==> granted(
                old(target_tags).unwrap(),
                final(target_tags).unwrap(),
                spec.tags().granted_tags(),
                *tag_manager,
            )
            &&& spec.tags().granted_tags().len() == 0 ==> *final(target_tags) == *old(target_tags)
            &&& forall|h2: ActiveEffectHandle| #[trigger] final(active_effects).lookup(h2) is Some && h2 != h
                ==> old(active_effects).lookup(h2) == final(active_effects).lookup(h2)
        },
        result is Err ==> forall|h2: ActiveEffectHandle| #[trigger] final(active_effects).lookup(h2) is Some
            ==> old(active_effects).lookup(h2) == final(active_effects).lookup(h2),
        (old(active_effects).free_list().len() == 0 && old(active_effects).slot_count() > u32::MAX) ==> result
            == Err::<ActiveEffectHandle, GameplayEffectApplicationError>(
            GameplayEffectApplicationError::ActiveEffectCapacityExceeded { target },
        ),
        !(old(active_effects).free_list().len() == 0 && old(active_effects).slot_count() > u32::MAX) ==> (result matches Err(
            e,
        ) ==> e is GameplayTag || e == GameplayEffectApplicationError::MissingTagContainer { target }),
        (result matches Err(e) && e is MissingTagContainer) ==> old(target_tags).is_none(),
        result matches Err(e) ==> {
            ||| e == GameplayEffectApplicationError::ActiveEffectCapacityExceeded { target }
            ||| e == GameplayEffectApplicationError::MissingTagContainer { target }
            ||| e is GameplayTag
        },
        result is Ok <==> (!(old(active_effects).free_list().len() == 0 && old(active_effects).slot_count() > u32::MAX)
            && all_registered(*tag_manager, spec.tags().granted_tags()) && (spec.tags().granted_tags().len() > 0
            ==> (*old(target_tags) matches Some(c) && c.batch_fits(*tag_manager, spec.tags().granted_tags())))),
{
    let effect = ActiveGameplayEffect::new(spec, source, target);
    let handle = match active_effects.insert(target, effect) {
        Ok(h) => h,
        Err(e) => {
            return Err(GameplayEffectApplicationError::from(e));
        },
    };
    let ghost after_insert = *active_effects;
    proof {
        assert forall|h2: ActiveEffectHandle| #[trigger] after_insert.lookup(h2) is Some && h2 != handle
            implies old(active_effects).lookup(h2) == after_insert.lookup(h2) by {
            if h2.slot() == handle.slot() {
                ActiveEffectHandle::lemma_eq(h2, handle);
            }
        }
    }
    let installed = install_effect_tags(target, active_effects.get(handle).unwrap().get_spec(), target_tags, tag_manager);
    match installed {
        Ok(()) => Ok(handle),
        Err(e) => {
            active_effects.remove(handle);
            proof {
                assert forall|h: ActiveEffectHandle| #[trigger] old(active_effects).lookup(h) is Some implies active_effects.lookup(h)
                    == old(active_effects).lookup(h) by {
                    assert(after_insert.lookup(h) == old(active_effects).lookup(h));
                    if h.slot() == handle.slot() {
                        assert(old(active_effects).effect_at(h.slot() as int) is None) by {
                            if old(active_effects).free_list().len() > 0 {
                                let k = old(active_effects).free_list().len() - 1;
                                assert(old(active_effects).free_list()[k] == handle.slot());
                            }
                        }
                    }
                }
            }
            Err(e)
        },
    }
}

/// Applies the granted-tag part of a requirement transition to an active effect and records it.
///
/// Inhibiting releases the effect's granted tags from a target that has tags; restoring grants
/// them again, which needs the target's tags when there are any to grant, and needs an attribute
/// set when the effect retains modifiers outside a period. On success the effect's inhibited
/// state follows the decision; on failure it is unchanged and the error is returned.
pub fn apply_inhibit_transition(
    active_effects: &mut ActiveGameplayEffects,
    handle: ActiveEffectHandle,
    decision: ActiveEffectRequirementDecision,
    target_tags: &mut Option<GameplayTagContainer>,
    has_attribute_set: bool,
    tag_manager: &GameplayTagManager,
) -> (result: Result<(), GameplayEffectApplicationError>)
    requires
        old(active_effects).wf(),
        old(active_effects).lookup(handle) is Some,
        decision != ActiveEffectRequirementDecision::Remove,
        tag_manager.wf(),
        tags_consistent(*old(target_tags), *tag_manager),
    ensures
        final(active_effects).wf(),
        tags_consistent(*final(target_tags), *tag_manager),
        final(target_tags).is_some() == old(target_tags).is_some(),
        result is Err ==> *final(target_tags) == *old(target_tags) && *final(active_effects) == *old(active_effects),
        result is Ok ==> final(active_effects).lookup(handle) == Some(
            old(active_effects).lookup(handle)->0.with_inhibited(decision == ActiveEffectRequirementDecision::Inhibit),
        ),
        result is Ok ==> forall|h: ActiveEffectHandle| #[trigger] old(active_effects).lookup(h) is Some && h.slot()
            != handle.slot() ==> final(active_effects).lookup(h) == old(active_effects).lookup(h),
        forall|h: ActiveEffectHandle| #[trigger] old(active_effects).retired(h) ==> final(active_effects).retired(h),
        forall|h: ActiveEffectHandle| #[trigger] final(active_effects).lookup(h) is Some ==> old(active_effects).lookup(h) is Some,
        ({
            let e = old(active_effects).lookup(handle)->0;
            let g = e.spec_of().tags().granted_tags();
            &&& decision == ActiveEffectRequirementDecision::Inhibit ==> {
                &&& result is Ok <==> (old(target_tags).is_none() || all_registered(*tag_manager, g))
                &&& (result is Ok && old(target_tags).is_some()) ==> released(old(target_tags).unwrap(), final(target_tags).unwrap(), g)
            }
            &&& decision == ActiveEffectRequirementDecision::Uninhibit ==> {
                &&& (e.period_state() is None && e.spec_of().modifier_count() > 0 && !has_attribute_set) ==> result
                    == Err::<(), GameplayEffectApplicationError>(
                    GameplayEffectApplicationError::MissingAttributeSet { target: e.target() },
                )
                &&& !(e.period_state() is None && e.spec_of().modifier_count() > 0 && !has_attribute_set) ==> {
                    &&& g.len() == 0 ==> result is Ok && *final(target_tags) == *old(target_tags)
                    &&& g.len() > 0 && old(target_tags).is_none() ==> result == Err::<(), GameplayEffectApplicationError>(
                        GameplayEffectApplicationError::MissingTagContainer { target: e.target() },
                    )
                    &&& g.len() > 0 && old(target_tags).is_some() ==> (result is Ok <==> (all_registered(*tag_manager, g)
                        && old(target_tags).unwrap().batch_fits(*tag_manager, g)))
                    &&& (g.len() > 0 && result is Ok) ==> granted(old(target_tags).unwrap(), final(target_tags).unwrap(), g, *tag_manager)
                }
            }
        }),
{
    let effect = active_effects.get(handle).unwrap();
    let target = effect.get_target();
    let granted_tags = effect.get_spec().get_def_tags().get_granted_tags();
    let inhibiting = match decision {
        ActiveEffectRequirementDecision::Inhibit => true,
        _ => false,
    };
    if inhibiting {
        match target_tags {
            None => {},
            Some(tags) => {
                match tags.remove_tags(granted_tags, tag_manager) {
                    Ok(()) => {},
                    Err(e) => {
                        return Err(GameplayEffectApplicationError::GameplayTag(e));
                    },
                }
            },
        }
    } else {
        if effect.get_period().is_none() && effect.get_spec().has_modifiers() && !has_attribute_set {
            return Err(GameplayEffectApplicationError::MissingAttributeSet { target });
        }
        if granted_tags.len() > 0 {
            match target_tags {
                None => {
                    return Err(GameplayEffectApplicationError::MissingTagContainer { target });
                },
                Some(tags) => {
                    match tags.add_tags(granted_tags, tag_manager) {
                        Ok(()) => {},
                        Err(e) => {
                            return Err(GameplayEffectApplicationError::GameplayTag(e));
                        },
                    }
                },
            }
        }
    }
    active_effects.set_inhibited_at(handle, inhibiting);
    Ok(())
}

/// What executing a plan did to the target's storage, and the attribute work that remains.
#[derive(Debug, Clone, Copy, PartialEq, Eq, Structural)]
pub enum PlanExecution {
    /// An instant effect: its modifiers apply once, if it has any.
    Instant,
    /// A stack was added to the effect `handle`; `refresh_modifiers` says whether its retained
    /// modifiers must be reapplied for the new stack count.
    Stacked { handle: ActiveEffectHandle, refresh_modifiers: bool },
    /// A new effect was stored under `handle`; `execute_on_applied` says whether its periodic
    /// modifiers execute once right away.
    Created { handle: ActiveEffectHandle, execute_on_applied: bool },
}

/// Whether every live effect among `handles` has registered granted tags.
pub open spec fn cleanups_valid(
    effects: ActiveGameplayEffects,
    handles: Seq<ActiveEffectHandle>,
    manager: GameplayTagManager,
) -> bool {
    forall|k: int|
        0 <= k < handles.len() && (#[trigger] effects.lookup(handles[k])) is Some ==> all_registered(
            manager,
            effects.lookup(handles[k])->0.spec_of().tags().granted_tags(),
        )
}

/// Returns whether every live effect among `handles` has registered granted tags.
fn validate_cleanups(
    effects: &ActiveGameplayEffects,
    handles: &[ActiveEffectHandle],
    tag_manager: &GameplayTagManager,
) -> (result: Result<(), GameplayEffectApplicationError>)
    requires
        tag_manager.wf(),
    ensures
        result is Ok <==> cleanups_valid(*effects, handles@, *tag_manager),
        result matches Err(e) ==> e is GameplayTag,
{
    let mut k: usize = 0;
    while k < handles.len()
        invariant
            0 <= k <= handles@.len(),
            tag_manager.wf(),
            forall|j: int|
                0 <= j < k && (#[trigger] effects.lookup(handles@[j])) is Some ==> all_registered(
                    *tag_manager,
                    effects.lookup(handles@[j])->0.spec_of().tags().granted_tags(),
                ),
        decreases handles@.len() - k,
    {
        match effects.get(handles[k]) {
            None => {},
            Some(effect) => {
                match validate_effect_cleanup(effect, tag_manager) {
                    Ok(()) => {},
                    Err(e) => {
                        return Err(e);
                    },
                }
            },
        }
        k = k + 1;
    }
    Ok(())
}

/// Removes the live effects among `handles` and releases their granted tags.
fn remove_validated_effects(
    effects: &mut ActiveGameplayEffects,
    handles: &[ActiveEffectHandle],
    target_tags: &mut Option<GameplayTagContainer>,
    tag_manager: &GameplayTagManager,
)
    requires
        old(effects).wf(),
        tag_manager.wf(),
        tags_consistent(*old(target_tags), *tag_manager),
        cleanups_valid(*old(effects), handles@, *tag_manager),
    ensures
        final(effects).wf(),
        tags_consistent(*final(target_tags), *tag_manager),
        final(target_tags).is_some() == old(target_tags).is_some(),
        forall|k: int| 0 <= k < handles@.len() ==> final(effects).lookup(#[trigger] handles@[k]) is None,
        forall|k: int| 0 <= k < handles@.len() && old(effects).lookup(#[trigger] handles@[k]) is Some
            ==> final(effects).retired(handles@[k]),
        forall|h: ActiveEffectHandle| #[trigger] old(effects).lookup(h) is Some && !handles@.contains(h)
            ==> final(effects).lookup(h) == old(effects).lookup(h),
        forall|h: ActiveEffectHandle| #[trigger] final(effects).lookup(h) is Some ==> old(effects).lookup(h)
            == final(effects).lookup(h),
        forall|h: ActiveEffectHandle| #[trigger] old(effects).retired(h) ==> final(effects).retired(h),
        final(effects).slot_count() == old(effects).slot_count(),
{
    let mut k: usize = 0;
    while k < handles.len()
        invariant
            0 <= k <= handles@.len(),
            old(effects).wf(),
            effects.wf(),
            effects.slot_count() == old(effects).slot_count(),
            tag_manager.wf(),
            tags_consistent(*target_tags, *tag_manager),
            target_tags.is_some() == old(target_tags).is_some(),
            cleanups_valid(*effects, handles@, *tag_manager),
            forall|j: int| 0 <= j < k ==> effects.lookup(#[trigger] handles@[j]) is None,
            forall|h: ActiveEffectHandle| #[trigger] old(effects).lookup(h) is Some ==> if handles@.take(k as int).contains(h) {
                effects.retired(h)
            } else {
                effects.lookup(h) == old(effects).lookup(h)
            },
            forall|h: ActiveEffectHandle| #[trigger] effects.lookup(h) is Some ==> old(effects).lookup(h) == effects.lookup(h),
            forall|h: ActiveEffectHandle| #[trigger] old(effects).retired(h) ==> effects.retired(h),
        decreases handles@.len() - k,
    {
        let handle = handles[k];
        let ghost before = *effects;
        match effects.remove(handle) {
            None => {
                proof {
                    assert(handles@.take(k + 1) == handles@.take(k as int).push(handle));
                    assert forall|h: ActiveEffectHandle| #[trigger] old(effects).lookup(h) is Some implies if handles@.take(
                        k + 1,
                    ).contains(h) {
                        effects.retired(h)
                    } else {
                        effects.lookup(h) == old(effects).lookup(h)
                    } by {
                        if handles@.take(k as int).contains(h) {
                            let j = choose|j: int| 0 <= j < k && #[trigger] handles@.take(k as int)[j] == h;
                            assert(handles@.take(k + 1)[j] == h);
                        } else if handles@.take(k + 1).contains(h) {
                            let j = choose|j: int| 0 <= j < k + 1 && #[trigger] handles@.take(k + 1)[j] == h;
                            if j < k {
                                assert(handles@.take(k as int)[j] == h);
                            }
                        }
                    }
                }
            },
            Some(effect) => {
                assert(all_registered(*tag_manager, effect.spec_of().tags().granted_tags())) by {
                    assert(before.lookup(handles@[k as int]) is Some);
                }
                let _ = cleanup_effect_tags(&effect, target_tags, tag_manager);
                proof {
                    assert(handles@.take(k + 1) == handles@.take(k as int).push(handle));
                    assert forall|j: int| 0 <= j < k implies effects.lookup(#[trigger] handles@[j]) is None by {
                        if handles@[j].slot() == handle.slot() {
                            assert(effects.retired(handle));
                            if effects.lookup(handles@[j]) is Some {
                                assert(before.lookup(handles@[j]) is None);
                            }
                        }
                    }
                    assert forall|j: int|
                        0 <= j < handles@.len() && (#[trigger] effects.lookup(handles@[j])) is Some implies all_registered(
                        *tag_manager,
                        effects.lookup(handles@[j])->0.spec_of().tags().granted_tags(),
                    ) by {
                        if handles@[j].slot() != handle.slot() {
                            assert(before.lookup(handles@[j]) == effects.lookup(handles@[j]));
                        } else {
                            assert(effects.effect_at(handle.slot() as int) is None);
                        }
                    }
                    assert forall|h: ActiveEffectHandle| #[trigger] old(effects).lookup(h) is Some implies if handles@.take(
                        k + 1,
                    ).contains(h) {
                        effects.retired(h)
                    } else {
                        effects.lookup(h) == old(effects).lookup(h)
                    } by {
                        if h.slot() == handle.slot() {
                            if before.lookup(h) is Some {
                                ActiveEffectHandle::lemma_eq(h, handle);
                            }
                            if h == handle {
                                assert(handles@.take(k + 1)[k as int] == h);
                            } else {
                                assert(handles@.take(k as int).contains(h));
                                assert(handles@.take(k + 1).contains(h)) by {
                                    let j = choose|j: int| 0 <= j < k && #[trigger] handles@.take(k as int)[j] == h;
                                    assert(handles@.take(k + 1)[j] == h);
                                }
                            }
                        } else {
                            if handles@.take(k as int).contains(h) {
                                let j = choose|j: int| 0 <= j < k && #[trigger] handles@.take(k as int)[j] == h;
                                assert(handles@.take(k + 1)[j] == h);
                            }
                            if handles@.take(k + 1).contains(h) && !handles@.take(k as int).contains(h) {
                                let j = choose|j: int| 0 <= j < k + 1 && #[trigger] handles@.take(k + 1)[j] == h;
                                if j < k {
                                    assert(handles@.take(k as int)[j] == h);
                                }
                            }
                        }
                    }
                }
            },
        }
        k = k + 1;
    }
    proof {
        assert(handles@.take(handles@.len() as int) == handles@);
        assert forall|k2: int| 0 <= k2 < handles@.len() && old(effects).lookup(#[trigger] handles@[k2]) is Some
            implies effects.retired(handles@[k2]) by {
            assert(handles@.contains(handles@[k2]));
        }
    }
}

/// The effect a stacking plan stacks onto is stored in `active_effects` and not removed by the
/// plan.
pub open spec fn stack_live(plan: GameplayEffectApplicationPlan, active_effects: Option<ActiveGameplayEffects>) -> bool {
    plan.kind() matches GameplayEffectApplicationKind::StackExisting { handle, .. } && active_effects matches Some(ae)
        && ae.lookup(handle) is Some && !plan.removed().contains(handle)
}

/// The outcome `result` of executing `plan` on the target's storage `before` and tags
/// `tags_before`, which leaves the storage `after` and the tags `tags_after`: the removed
/// effects and the plan's requirements are validated first and nothing changes when one fails;
/// then the removed effects go and the plan's kind is carried out.
pub open spec fn execution_outcome(
    plan: GameplayEffectApplicationPlan,
    before: Option<ActiveGameplayEffects>,
    after: Option<ActiveGameplayEffects>,
    tags_before: Option<GameplayTagContainer>,
    tags_after: Option<GameplayTagContainer>,
    has_attribute_set: bool,
    tag_manager: GameplayTagManager,
    result: Result<PlanExecution, GameplayEffectApplicationError>,
) -> bool {
    &&& after.is_some() ==> after.unwrap().wf()
    &&& after.is_some() == before.is_some()
    &&& tags_consistent(tags_after, tag_manager)
    &&& tags_after.is_some() == tags_before.is_some()
    &&& {
        let spec = plan.spec_of();
        let v1 = before.is_none() || cleanups_valid(before.unwrap(), plan.removed(), tag_manager);
        let v2 = spec.duration() is Instant || before.is_some();
        let v3 = spec.modifier_count() == 0 || has_attribute_set;
        let v4 = spec.tags().granted_tags().len() == 0 || tags_before.is_some();
        let v5 = all_registered(tag_manager, spec.tags().granted_tags());
        &&& !v1 ==> (result matches Err(e) && e is GameplayTag)
        &&& v1 && !v2 ==> result == Err::<PlanExecution, GameplayEffectApplicationError>(
            GameplayEffectApplicationError::MissingActiveGameplayEffects { target: plan.target() },
        )
        &&& v1 && v2 && !v3 ==> result == Err::<PlanExecution, GameplayEffectApplicationError>(
            GameplayEffectApplicationError::MissingAttributeSet { target: plan.target() },
        )
        &&& v1 && v2 && v3 && !v4 ==> result == Err::<PlanExecution, GameplayEffectApplicationError>(
            GameplayEffectApplicationError::MissingTagContainer { target: plan.target() },
        )
        &&& v1 && v2 && v3 && v4 && !v5 ==> (result matches Err(GameplayEffectApplicationError::GameplayTag(e))
            && first_unregistered(tag_manager, spec.tags().granted_tags(), e))
        &&& !(v1 && v2 && v3 && v4 && v5) ==> after == before && tags_after == tags_before
        &&& (v1 && v2 && v3 && v4 && v5 && before.is_some()) ==> forall|k: int|
            0 <= k < plan.removed().len() && before.unwrap().lookup(#[trigger] plan.removed()[k]) is Some
                ==> after.unwrap().lookup(plan.removed()[k]) is None
        &&& (v1 && v2 && v3 && v4 && v5 && plan.kind() is Instant) ==> result == Ok::<
            PlanExecution,
            GameplayEffectApplicationError,
        >(PlanExecution::Instant)
        &&& result matches Ok(PlanExecution::Stacked { handle, refresh_modifiers }) ==> {
            let old_effect = before.unwrap().lookup(handle)->0;
            &&& plan.kind() matches GameplayEffectApplicationKind::StackExisting { handle: h, new_stack_count: n }
                && h == handle && after.unwrap().lookup(handle) == Some(
                old_effect.after_stack(n, spec),
            )
            &&& !plan.removed().contains(handle) ==> before.unwrap().lookup(handle) is Some
            &&& refresh_modifiers == old_effect.retains_stacked_modifiers()
        }
        &&& result matches Ok(PlanExecution::Created { handle, execute_on_applied }) ==> {
            let e = after.unwrap().lookup(handle)->0;
            &&& (plan.kind() is CreateActive || plan.kind() is StackExisting)
            &&& after.unwrap().lookup(handle) is Some
            &&& e.spec_of() == spec && e.source() == plan.source() && e.target() == plan.target()
            &&& e.stacks() == 1 && !e.inhibited()
            &&& execute_on_applied == (spec.runs_periodically() && spec.period()->0.execute_on_applied
                && spec.modifier_count() > 0)
        }
        &&& result matches Err(e) ==> ((v1 && v2 && v3 && v4 && v5) ==> {
            &&& !(plan.kind() is Instant)
            &&& before.is_none() ==> e == GameplayEffectApplicationError::MissingActiveGameplayEffects {
                target: plan.target(),
            }
            &&& before.is_some() ==> (e == GameplayEffectApplicationError::ActiveEffectCapacityExceeded {
                target: plan.target(),
            } && before.unwrap().slot_count() > u32::MAX) || (e is GameplayTag
                && spec.tags().granted_tags().len() > 0)
        })
        &&& (v1 && v2 && v3 && v4 && v5 && plan.kind() is StackExisting && stack_live(plan, before))
            ==> (result matches Ok(PlanExecution::Stacked { handle, .. }) && handle == plan.kind()->handle)
        &&& (v1 && v2 && v3 && v4 && v5 && !(plan.kind() is Instant) && !(plan.kind() is StackExisting
            && stack_live(plan, before)) && before.is_some()
            && before.unwrap().slot_count() <= u32::MAX && spec.tags().granted_tags().len() == 0)
            ==> (result matches Ok(PlanExecution::Created { .. }))
        &&& (v1 && v2 && v3 && v4 && v5 && before.is_some()) ==> forall|h: ActiveEffectHandle|
            #[trigger] before.unwrap().lookup(h) is Some && !plan.removed().contains(h) && !(
            result matches Ok(PlanExecution::Stacked { handle, .. }) && handle == h)
            ==> after.unwrap().lookup(h) == before.unwrap().lookup(h)
        &&& before.is_some() ==> forall|h: ActiveEffectHandle|
            #[trigger] after.unwrap().lookup(h) is Some ==> after.unwrap().lookup(h)
                == before.unwrap().lookup(h) || (result matches Ok(PlanExecution::Stacked { handle, .. })
                && handle == h) || (result matches Ok(PlanExecution::Created { handle, .. }) && handle == h)
    }
}

/// Executes a prepared plan on its target's storage and tags.
///
/// The removed effects and the plan's requirements are validated again first: the granted tags
/// of every live removed effect, storage for a lasting effect, attribute storage for modifiers,
/// the target's tags for granted tags, and the granted tags themselves. Nothing changes when
/// one fails. Then the removed effects are removed and release their granted tags, and the
/// plan's kind is carried out; a stack whose effect has gone is stored anew instead.
pub fn execute_gameplay_effect_plan(
    plan: GameplayEffectApplicationPlan,
    active_effects: &mut Option<ActiveGameplayEffects>,
    target_tags: &mut Option<GameplayTagContainer>,
    has_attribute_set: bool,
    tag_manager: &GameplayTagManager,
) -> (result: Result<PlanExecution, GameplayEffectApplicationError>)
    requires
        tag_manager.wf(),
        old(active_effects).is_some() ==> old(active_effects).unwrap().wf(),
        tags_consistent(*old(target_tags), *tag_manager),
    ensures
        execution_outcome(
            plan,
            *old(active_effects),
            *final(active_effects),
            *old(target_tags),
            *final(target_tags),
            has_attribute_set,
            *tag_manager,
            result,
        ),
{
    let (source, target, spec, removed, kind) = plan.into_parts();
    match active_effects {
        None => {},
        Some(effects) => {
            match validate_cleanups(effects, removed.as_slice(), tag_manager) {
                Ok(()) => {},
                Err(e) => {
                    return Err(e);
                },
            }
        },
    }
    let instant = spec.get_duration_spec().is_instant();
    if !instant && active_effects.is_none() {
        return Err(GameplayEffectApplicationError::MissingActiveGameplayEffects { target });
    }
    if spec.has_modifiers() && !has_attribute_set {
        return Err(GameplayEffectApplicationError::MissingAttributeSet { target });
    }
    let needs_tags = spec.get_def_tags().get_granted_tags().len() > 0;
    if needs_tags && target_tags.is_none() {
        return Err(GameplayEffectApplicationError::MissingTagContainer { target });
    }
    match tag_bits_from_tags_with_manager(spec.get_def_tags().get_granted_tags(), tag_manager) {
        Ok(_) => {},
        Err(e) => {
            return Err(GameplayEffectApplicationError::GameplayTag(e));
        },
    }
    match active_effects.take() {
        None => match kind {
            GameplayEffectApplicationKind::Instant => Ok(PlanExecution::Instant),
            _ => Err(GameplayEffectApplicationError::MissingActiveGameplayEffects { target }),
        },
        Some(mut effects) => {
            remove_validated_effects(&mut effects, removed.as_slice(), target_tags, tag_manager);
            let result = match kind {
                GameplayEffectApplicationKind::Instant => Ok(PlanExecution::Instant),
                GameplayEffectApplicationKind::StackExisting { handle, new_stack_count } => {
                    match effects.apply_stack_at(handle, new_stack_count, &spec) {
                        Some(refresh_modifiers) => Ok(PlanExecution::Stacked { handle, refresh_modifiers }),
                        None => create_planned_effect(&mut effects, source, target, spec, target_tags, tag_manager),
                    }
                },
                GameplayEffectApplicationKind::CreateActive => {
                    create_planned_effect(&mut effects, source, target, spec, target_tags, tag_manager)
                },
            };
            *active_effects = Some(effects);
            result
        },
    }
}

/// Stores a planned effect and reports whether it executes once on application.
fn create_planned_effect(
    effects: &mut ActiveGameplayEffects,
    source: EntityId,
    target: EntityId,
    spec: GameplayEffectSpec,
    target_tags: &mut Option<GameplayTagContainer>,
    tag_manager: &GameplayTagManager,
) -> (result: Result<PlanExecution, GameplayEffectApplicationError>)
    requires
        old(effects).wf(),
        tag_manager.wf(),
        tags_consistent(*old(target_tags), *tag_manager),
    ensures
        final(effects).wf(),
        tags_consistent(*final(target_tags), *tag_manager),
        final(target_tags).is_some() == old(target_tags).is_some(),
        forall|h: ActiveEffectHandle| #[trigger] old(effects).lookup(h) is Some ==> final(effects).lookup(h)
            == old(effects).lookup(h),
        forall|h: ActiveEffectHandle| #[trigger] old(effects).retired(h) ==> final(effects).retired(h),
        result matches Ok(r) ==> r matches PlanExecution::Created { handle, execute_on_applied } && {
            let e = final(effects).lookup(handle)->0;
            &&& handle.target() == target
            &&& old(effects).lookup(handle) is None
            &&& final(effects).lookup(handle) is Some
            &&& e.spec_of() == spec && e.source() == source && e.target() == target
            &&& e.stacks() == 1 && !e.inhibited()
            &&& execute_on_applied == (spec.runs_periodically() && spec.period()->0.execute_on_applied
                && spec.modifier_count() > 0)
            &&& forall|h: ActiveEffectHandle| #[trigger] final(effects).lookup(h) is Some && h != handle
                ==> old(effects).lookup(h) == final(effects).lookup(h)
            &&& spec.tags().granted_tags().len() > 0 ==> granted(
                old(target_tags).unwrap(),
                final(target_tags).unwrap(),
                spec.tags().granted_tags(),
                *tag_manager,
            )
            &&& spec.tags().granted_tags().len() == 0 ==> *final(target_tags) == *old(target_tags)
        },
        result is Err ==> *final(target_tags) == *old(target_tags) && forall|h: ActiveEffectHandle|
            #[trigger] final(effects).lookup(h) is Some ==> old(effects).lookup(h) == final(effects).lookup(h),
        (old(effects).free_list().len() == 0 && old(effects).slot_count() > u32::MAX) ==> result == Err::<
            PlanExecution,
            GameplayEffectApplicationError,
        >(GameplayEffectApplicationError::ActiveEffectCapacityExceeded { target }),
        !(old(effects).free_list().len() == 0 && old(effects).slot_count() > u32::MAX) ==> (result matches Err(e)
            ==> e is GameplayTag || e == GameplayEffectApplicationError::MissingTagContainer { target }),
        (result matches Err(e) && e is MissingTagContainer) ==> old(target_tags).is_none(),
        result matches Err(e) ==> {
            ||| e == GameplayEffectApplicationError::ActiveEffectCapacityExceeded { target }
            ||| e == GameplayEffectApplicationError::MissingTagContainer { target }
            ||| e is GameplayTag
        },
        result is Ok <==> (!(old(effects).free_list().len() == 0 && old(effects).slot_count() > u32::MAX)
            && all_registered(*tag_manager, spec.tags().granted_tags()) && (spec.tags().granted_tags().len() > 0
            ==> (*old(target_tags) matches Some(c) && c.batch_fits(*tag_manager, spec.tags().granted_tags())))),
{
    let execute_on_applied = match spec.get_period_spec() {
        Some(p) => p.get_period_ticks() > 0 && p.get_execute_on_applied(),
        None => false,
    } && spec.has_modifiers();
    match create_active_effect(effects, source, target, spec, target_tags, tag_manager) {
        Ok(handle) => Ok(PlanExecution::Created { handle, execute_on_applied }),
        Err(e) => Err(e),
    }
}

/// Removes the effect `handle` names and releases its granted tags.
///
/// Returns `Ok(false)` for a stale or foreign handle. When the effect's granted tags cannot be
/// released, the error is returned and nothing changes.
pub fn remove_active_effect(
    active_effects: &mut ActiveGameplayEffects,
    handle: ActiveEffectHandle,
    target_tags: &mut Option<GameplayTagContainer>,
    tag_manager: &GameplayTagManager,
) -> (result: Result<bool, GameplayEffectApplicationError>)
    requires
        old(active_effects).wf(),
        tag_manager.wf(),
        tags_consistent(*old(target_tags), *tag_manager),
    ensures
        final(active_effects).wf(),
        tags_consistent(*final(target_tags), *tag_manager),
        final(target_tags).is_some() == old(target_tags).is_some(),
        old(active_effects).lookup(handle) is None ==> result == Ok::<bool, GameplayEffectApplicationError>(false)
            && *final(active_effects) == *old(active_effects) && *final(target_tags) == *old(target_tags),
        old(active_effects).lookup(handle) matches Some(e) ==> {
            &&& result is Ok <==> all_registered(*tag_manager, e.spec_of().tags().granted_tags())
            &&& result is Err ==> *final(active_effects) == *old(active_effects) && *final(target_tags) == *old(target_tags)
            &&& result is Ok ==> result == Ok::<bool, GameplayEffectApplicationError>(true) && final(active_effects).retired(handle)
            &&& (result is Ok && !e.inhibited() && old(target_tags).is_some()) ==> released(
                old(target_tags).unwrap(),
                final(target_tags).unwrap(),
                e.spec_of().tags().granted_tags(),
            )
            &&& (result is Ok && (e.inhibited() || old(target_tags).is_none())) ==> *final(target_tags) == *old(target_tags)
        },
        forall|h: ActiveEffectHandle| #[trigger] old(active_effects).lookup(h) is Some && h.slot() != handle.slot()
            ==> final(active_effects).lookup(h) == old(active_effects).lookup(h),
        forall|h: ActiveEffectHandle| #[trigger] old(active_effects).retired(h) ==> final(active_effects).retired(h),
        forall|h: ActiveEffectHandle| #[trigger] final(active_effects).lookup(h) is Some ==> old(active_effects).lookup(h) is Some,
{
    let cleanup = match active_effects.get(handle) {
        None => {
            return Ok(false);
        },
        Some(effect) => cleanup_effect_tags(effect, target_tags, tag_manager),
    };
    match cleanup {
        Ok(()) => {},
        Err(e) => {
            return Err(e);
        },
    }
    active_effects.remove(handle);
    Ok(true)
}

/// Removes the effects of `target` whose asset tags share a tag with `tags`, releases their
/// granted tags, and returns how many were removed.
///
/// Matching fails on the first unregistered tag, and releasing fails when a matching effect has
/// unregistered granted tags; both are checked before anything changes.
pub fn remove_active_effects_with_tags(
    active_effects: &mut ActiveGameplayEffects,
    target: EntityId,
    tags: &[GameplayTag],
    target_tags: &mut Option<GameplayTagContainer>,
    tag_manager: &GameplayTagManager,
) -> (result: Result<usize, GameplayEffectApplicationError>)
    requires
        old(active_effects).wf(),
        tag_manager.wf(),
        tags_consistent(*old(target_tags), *tag_manager),
    ensures
        final(active_effects).wf(),
        tags_consistent(*final(target_tags), *tag_manager),
        final(target_tags).is_some() == old(target_tags).is_some(),
        tags@.len() == 0 ==> result == Ok::<usize, GameplayEffectApplicationError>(0),
        result is Err ==> *final(active_effects) == *old(active_effects) && *final(target_tags) == *old(target_tags),
        (tags@.len() > 0 && forall|h: ActiveEffectHandle|
            #[trigger] old(active_effects).lookup(h) is Some && h.target() == target ==> tags_checkable(
                *tag_manager,
                old(active_effects).lookup(h)->0,
                tags@,
            )) ==> (result is Ok <==> forall|h: ActiveEffectHandle|
            #[trigger] old(active_effects).lookup(h) is Some && h.target() == target && effect_matches_tags(
                *tag_manager,
                old(active_effects).lookup(h)->0,
                tags@,
            ) ==> all_registered(*tag_manager, old(active_effects).lookup(h)->0.spec_of().tags().granted_tags())),
        result is Ok ==> forall|h: ActiveEffectHandle|
            #[trigger] old(active_effects).lookup(h) is Some ==> if h.target() == target && effect_matches_tags(
                *tag_manager,
                old(active_effects).lookup(h)->0,
                tags@,
            ) {
                final(active_effects).lookup(h) is None
            } else {
                final(active_effects).lookup(h) == old(active_effects).lookup(h)
            },
{
    let matching = match collect_active_effects_with_tags(target, tags, Some(&*active_effects), tag_manager) {
        Ok(handles) => handles,
        Err(e) => {
            return Err(GameplayEffectApplicationError::GameplayTag(e));
        },
    };
    match validate_cleanups(active_effects, matching.as_slice(), tag_manager) {
        Ok(()) => {},
        Err(e) => {
            return Err(e);
        },
    }
    let removed_count = matching.len();
    remove_validated_effects(active_effects, matching.as_slice(), target_tags, tag_manager);
    proof {
        if tags@.len() > 0 {
            assert forall|h: ActiveEffectHandle|
                #[trigger] old(active_effects).lookup(h) is Some && h.target() == target && effect_matches_tags(
                    *tag_manager,
                    old(active_effects).lookup(h)->0,
                    tags@,
                ) implies all_registered(*tag_manager, old(active_effects).lookup(h)->0.spec_of().tags().granted_tags()) by {
                assert(matching@.contains(h));
                let k = choose|k: int| 0 <= k < matching@.len() && matching@[k] == h;
            }
        }
        assert forall|h: ActiveEffectHandle|
            #[trigger] old(active_effects).lookup(h) is Some implies if h.target() == target && effect_matches_tags(
                *tag_manager,
                old(active_effects).lookup(h)->0,
                tags@,
            ) {
                active_effects.lookup(h) is None
            } else {
                active_effects.lookup(h) == old(active_effects).lookup(h)
            } by {
            if h.target() == target && effect_matches_tags(*tag_manager, old(active_effects).lookup(h)->0, tags@) {
                assert(matching@.contains(h));
                let k = choose|k: int| 0 <= k < matching@.len() && matching@[k] == h;
            } else if matching@.contains(h) {
                let k = choose|k: int| 0 <= k < matching@.len() && matching@[k] == h;
            }
        }
    }
    Ok(removed_count)
}

/// Removes the effect `handle` names even when its cleanup fails: an active effect's granted
/// tags are released from a target that has tags, ignoring tag errors, and the effect leaves
/// storage. Returns whether the handle was live.
pub fn force_remove_effect(
    active_effects: &mut ActiveGameplayEffects,
    handle: ActiveEffectHandle,
    target_tags: &mut Option<GameplayTagContainer>,
    tag_manager: &GameplayTagManager,
) -> (removed: bool)
    requires
        old(active_effects).wf(),
        tag_manager.wf(),
        tags_consistent(*old(target_tags), *tag_manager),
    ensures
        final(active_effects).wf(),
        tags_consistent(*final(target_tags), *tag_manager),
        final(target_tags).is_some() == old(target_tags).is_some(),
        removed == old(active_effects).lookup(handle) is Some,
        !removed ==> *final(active_effects) == *old(active_effects) && *final(target_tags) == *old(target_tags),
        removed ==> final(active_effects).retired(handle),
        removed ==> {
            let e = old(active_effects).lookup(handle)->0;
            let g = e.spec_of().tags().granted_tags();
            &&& (!e.inhibited() && old(target_tags).is_some() && all_registered(*tag_manager, g)) ==> released(
                old(target_tags).unwrap(),
                final(target_tags).unwrap(),
                g,
            )
            &&& !(!e.inhibited() && old(target_tags).is_some() && all_registered(*tag_manager, g)) ==> *final(target_tags)
                == *old(target_tags)
        },
        forall|h: ActiveEffectHandle| #[trigger] old(active_effects).lookup(h) is Some && h.slot() != handle.slot()
            ==> final(active_effects).lookup(h) == old(active_effects).lookup(h),
        forall|h: ActiveEffectHandle| #[trigger] old(active_effects).retired(h) ==> final(active_effects).retired(h),
        forall|h: ActiveEffectHandle| #[trigger] final(active_effects).lookup(h) is Some ==> old(active_effects).lookup(h) is Some,
{
    let effect = match active_effects.remove(handle) {
        None => {
            return false;
        },
        Some(effect) => effect,
    };
    if !effect.is_inhibited() {
        match target_tags {
            None => {},
            Some(tags) => {
                let _ = tags.remove_tags(effect.get_spec().get_def_tags().get_granted_tags(), tag_manager);
            },
        }
    }
    true
}

/// The explicit reference count of index `j`, starting from `start`, after releasing in turn
/// the granted tags of each active effect of `effects` whose granted tags are registered.
pub open spec fn explicit_after_release(
    start: int,
    effects: Seq<ExpiredEffect>,
    manager: GameplayTagManager,
    j: int,
) -> int
    decreases effects.len(),
{
    if effects.len() == 0 {
        start
    } else {
        let prev = explicit_after_release(start, effects.drop_last(), manager, j);
        let e = effects.last().effect;
        if !e.inhibited() && all_registered(manager, e.spec_of().tags().granted_tags()) {
            let o = occurrences(e.spec_of().tags().granted_tags(), j);
            if prev > o {
                prev - o
            } else {
                0
            }
        } else {
            prev
        }
    }
}

/// Releases the granted tags of discarded effects from their former target's tags.
///
/// Inhibited effects hold no granted tags. An effect with an unregistered granted tag releases
/// nothing, and the others are still released.
pub fn release_discarded_effect_tags(
    discarded: &[ExpiredEffect],
    target_tags: &mut GameplayTagContainer,
    tag_manager: &GameplayTagManager,
)
    requires
        tag_manager.wf(),
        old(target_tags).consistent_with(*tag_manager),
    ensures
        final(target_tags).consistent_with(*tag_manager),
        forall|j: int| 0 <= j < MAX_TAG_COUNTS ==> #[trigger] final(target_tags).explicit(j) == explicit_after_release(
            old(target_tags).explicit(j) as int,
            discarded@,
            *tag_manager,
            j,
        ),
{
    let mut k: usize = 0;
    while k < discarded.len()
        invariant
            0 <= k <= discarded@.len(),
            tag_manager.wf(),
            target_tags.consistent_with(*tag_manager),
            forall|j: int| 0 <= j < MAX_TAG_COUNTS ==> #[trigger] target_tags.explicit(j) == explicit_after_release(
                old(target_tags).explicit(j) as int,
                discarded@.take(k as int),
                *tag_manager,
                j,
            ),
        decreases discarded@.len() - k,
    {
        let effect = &discarded[k].effect;
        if !effect.is_inhibited() {
            let _ = target_tags.remove_tags(effect.get_spec().get_def_tags().get_granted_tags(), tag_manager);
        }
        proof {
            assert(discarded@.take(k + 1).drop_last() == discarded@.take(k as int));
            assert(discarded@.take(k + 1).last() == discarded@[k as int]);
        }
        k = k + 1;
    }
    assert(discarded@.take(discarded@.len() as int) == discarded@);
}

} // verus!
