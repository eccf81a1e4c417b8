//! Tag-requirement decisions for active and incoming gameplay effects.

use super::{ActiveEffectHandle, ActiveGameplayEffect, ActiveGameplayEffects, EffectTags};
use crate::gameplay_tags::{
    bits_contain, bits_contain_any, inherited_by, tag_bits_from_tags_with_manager, GameplayTag,
    GameplayTagBits, GameplayTagContainer, GameplayTagError, GameplayTagManager, TagRequirements,
};
use crate::identifiers::EntityId;
use vstd::prelude::*;

verus! {

/// What the requirements of an active effect ask for.
#[derive(Debug, Clone, Copy, PartialEq, Eq, Structural)]
pub enum ActiveEffectRequirementDecision {
    /// A removal requirement matched: the effect must be removed.
    Remove,
    /// An ongoing requirement failed: the active effect must be inhibited.
    Inhibit,
    /// The ongoing requirements pass again: the inhibited effect must be restored.
    Uninhibit,
}

/// Whether a removal requirement matches: it has rules and the optional container passes them.
pub open spec fn removal_matches(requirements: TagRequirements, tags: Option<&GameplayTagContainer>) -> bool {
    !requirements.has_no_rules() && requirements.admits(tags)
}

/// Whether an effect with `tags` must be removed given its source's and target's tags.
pub open spec fn removal_requested(
    tags: EffectTags,
    source_tags: Option<&GameplayTagContainer>,
    target_tags: Option<&GameplayTagContainer>,
) -> bool {
    removal_matches(tags.source_removal(), source_tags) || removal_matches(tags.target_removal(), target_tags)
}

/// Whether an effect with `tags` may stay active given its source's and target's tags.
pub open spec fn ongoing_allowed(
    tags: EffectTags,
    source_tags: Option<&GameplayTagContainer>,
    target_tags: Option<&GameplayTagContainer>,
) -> bool {
    tags.source_ongoing().admits(source_tags) && tags.target_ongoing().admits(target_tags)
}

/// The requirement decision for an effect with `tags` and inhibited state `inhibited`.
pub open spec fn decision_for(
    tags: EffectTags,
    inhibited: bool,
    source_tags: Option<&GameplayTagContainer>,
    target_tags: Option<&GameplayTagContainer>,
) -> Option<ActiveEffectRequirementDecision> {
    if removal_requested(tags, source_tags, target_tags) {
        Some(ActiveEffectRequirementDecision::Remove)
    } else if !ongoing_allowed(tags, source_tags, target_tags) && !inhibited {
        Some(ActiveEffectRequirementDecision::Inhibit)
    } else if ongoing_allowed(tags, source_tags, target_tags) && inhibited {
        Some(ActiveEffectRequirementDecision::Uninhibit)
    } else {
        None
    }
}

/// Returns whether a removal requirement matches: it has rules and `tags` passes them.
pub fn removal_requirement_matches(requirements: &TagRequirements, tags: Option<&GameplayTagContainer>) -> (matches: bool)
    ensures
        matches == removal_matches(*requirements, tags),
{
    !requirements.is_empty() && requirements.passes(tags)
}

/// Returns whether the source or target removal requirements of `effect` match.
pub fn should_remove_active_effect(
    effect: &ActiveGameplayEffect,
    source_tags: Option<&GameplayTagContainer>,
    target_tags: Option<&GameplayTagContainer>,
) -> (remove: bool)
    ensures
        remove == removal_requested(effect.spec_of().tags(), source_tags, target_tags),
{
    let tags = effect.get_spec().get_def_tags();
    removal_requirement_matches(tags.get_source_removal_tags(), source_tags)
        || removal_requirement_matches(tags.get_target_removal_tags(), target_tags)
}

/// Returns whether the source and target ongoing requirements of `effect` pass.
pub fn passes_ongoing_requirements(
    effect: &ActiveGameplayEffect,
    source_tags: Option<&GameplayTagContainer>,
    target_tags: Option<&GameplayTagContainer>,
) -> (passes: bool)
    ensures
        passes == ongoing_allowed(effect.spec_of().tags(), source_tags, target_tags),
{
    let tags = effect.get_spec().get_def_tags();
    tags.get_source_ongoing_tags().passes(source_tags) && tags.get_target_ongoing_tags().passes(target_tags)
}

/// Decides what the requirements of `effect` ask for: removal takes precedence, then a
/// change between active and inhibited; `None` when nothing changes.
pub fn requirement_decision(
    effect: &ActiveGameplayEffect,
    source_tags: Option<&GameplayTagContainer>,
    target_tags: Option<&GameplayTagContainer>,
) -> (decision: Option<ActiveEffectRequirementDecision>)
    ensures
        decision == decision_for(effect.spec_of().tags(), effect.inhibited(), source_tags, target_tags),
{
    if should_remove_active_effect(effect, source_tags, target_tags) {
        return Some(ActiveEffectRequirementDecision::Remove);
    }
    let passes = passes_ongoing_requirements(effect, source_tags, target_tags);
    let inhibited = effect.is_inhibited();
    if !passes && !inhibited {
        Some(ActiveEffectRequirementDecision::Inhibit)
    } else if passes && inhibited {
        Some(ActiveEffectRequirementDecision::Uninhibit)
    } else {
        None
    }
}

/// Returns whether the source and target application requirements of `incoming` pass.
pub fn passes_application_requirements(
    incoming: &EffectTags,
    source_tags: Option<&GameplayTagContainer>,
    target_tags: Option<&GameplayTagContainer>,
) -> (passes: bool)
    ensures
        passes == (incoming.source_application().admits(source_tags) && incoming.target_application().admits(
            target_tags,
        )),
{
    incoming.get_source_application_tags().passes(source_tags) && incoming.get_target_application_tags().passes(
        target_tags,
    )
}

/// Whether some immunity query of `tags` matches an incoming effect with the given source tags
/// and expanded asset tags `asset_present`.
pub open spec fn grants_immunity(
    tags: EffectTags,
    source_tags: Option<&GameplayTagContainer>,
    asset_present: spec_fn(int) -> bool,
) -> bool {
    exists|q: int| 0 <= q < tags.immunity().len() && #[trigger] tags.immunity()[q].matches_present(source_tags, asset_present)
}

/// Whether some active, uninhibited effect of `target` grants immunity to an incoming effect.
pub open spec fn blocks_incoming(
    effects: ActiveGameplayEffects,
    target: EntityId,
    source_tags: Option<&GameplayTagContainer>,
    asset_present: spec_fn(int) -> bool,
) -> bool {
    exists|h: ActiveEffectHandle|
        #[trigger] effects.lookup(h) is Some && h.target() == target && !effects.lookup(h)->0.inhibited()
            && grants_immunity(effects.lookup(h)->0.spec_of().tags(), source_tags, asset_present)
}

/// Returns whether one of `queries` matches an incoming effect.
fn any_immunity_matches(
    queries: &[super::GameplayEffectImmunityQuery],
    source_tags: Option<&GameplayTagContainer>,
    asset_bits: &GameplayTagBits,
) -> (matches: bool)
    ensures
        matches == exists|q: int|
            0 <= q < queries@.len() && (#[trigger] queries@[q]).matches_present(
                source_tags,
                |i: int| bits_contain(*asset_bits, i),
            ),
{
    let mut q: usize = 0;
    while q < queries.len()
        invariant
            0 <= q <= queries@.len(),
            forall|j: int|
                0 <= j < q ==> !(#[trigger] queries@[j]).matches_present(
                    source_tags,
                    |i: int| bits_contain(*asset_bits, i),
                ),
        decreases queries@.len() - q,
    {
        if queries[q].matches_tag_bits(source_tags, Some(asset_bits)) {
            return true;
        }
        q = q + 1;
    }
    false
}

/// Returns whether an active, uninhibited effect of `target` grants immunity to an incoming
/// effect whose expanded asset tags are `asset_bits`.
pub fn is_blocked_by_immunity_bits(
    active_effects: &ActiveGameplayEffects,
    target: EntityId,
    source_tags: Option<&GameplayTagContainer>,
    asset_bits: &GameplayTagBits,
) -> (blocked: bool)
    requires
        active_effects.wf(),
    ensures
        blocked == blocks_incoming(*active_effects, target, source_tags, |i: int| bits_contain(*asset_bits, i)),
{
    let handles = active_effects.handles(target);
    let ghost slots = active_effects.slots_targeting(target, active_effects.slot_count() as int);
    proof {
        active_effects.lemma_slots_targeting(target, active_effects.slot_count() as int);
    }
    let mut k: usize = 0;
    while k < handles.len()
        invariant
            0 <= k <= handles@.len(),
            active_effects.wf(),
            active_effects.lists_handles_of(target, handles@),
            slots == active_effects.slots_targeting(target, active_effects.slot_count() as int),
            forall|a: int| 0 <= a < slots.len() ==> 0 <= #[trigger] slots[a] < active_effects.slot_count()
                && active_effects.targets_at(slots[a], target),
            forall|a: int| 0 <= a < k ==> {
                let e = active_effects.lookup(#[trigger] handles@[a])->0;
                e.inhibited() || !grants_immunity(e.spec_of().tags(), source_tags, |i: int| bits_contain(*asset_bits, i))
            },
        decreases handles@.len() - k,
    {
        let handle = handles[k];
        assert(active_effects.lookup(handle) is Some) by {
            assert(active_effects.effect_at(slots[k as int]) is Some);
        }
        let effect = active_effects.get(handle).unwrap();
        if !effect.is_inhibited() && any_immunity_matches(
            effect.get_spec().get_def_tags().get_granted_application_immunity(),
            source_tags,
            asset_bits,
        ) {
            return true;
        }
        k = k + 1;
    }
    proof {
        active_effects.lemma_slots_targeting(target, active_effects.slot_count() as int);
        assert forall|h: ActiveEffectHandle|
            #[trigger] active_effects.lookup(h) is Some && h.target() == target
                && !active_effects.lookup(h)->0.inhibited() implies !grants_immunity(
            active_effects.lookup(h)->0.spec_of().tags(),
            source_tags,
            |i: int| bits_contain(*asset_bits, i),
        ) by {
            let t = h.slot() as int;
            assert(active_effects.targets_at(t, target));
            let a = choose|a: int| 0 <= a < slots.len() && slots[a] == t;
            ActiveEffectHandle::lemma_eq(handles@[a], h);
        }
    }
    false
}

/// Returns whether an active, uninhibited effect of `target` grants immunity to an incoming
/// effect with `incoming` tags.
///
/// The incoming asset tags are expanded first: an unregistered asset tag fails with its
/// [`GameplayTagError`] even when `target` stores no effects. A target without storage grants
/// no immunity.
pub fn is_blocked_by_application_immunity(
    active_effects: Option<&ActiveGameplayEffects>,
    target: EntityId,
    source_tags: Option<&GameplayTagContainer>,
    incoming: &EffectTags,
    tag_manager: &GameplayTagManager,
) -> (result: Result<bool, GameplayTagError>)
    requires
        tag_manager.wf(),
        active_effects matches Some(e) ==> e.wf(),
    ensures
        result is Ok <==> forall|k: int|
            0 <= k < incoming.asset_tags().len() ==> tag_manager.is_registered(#[trigger] incoming.asset_tags()[k]),
        result matches Err(e) ==> exists|k: int|
            0 <= k < incoming.asset_tags().len() && !tag_manager.is_registered(incoming.asset_tags()[k])
                && (forall|j: int| 0 <= j < k ==> tag_manager.is_registered(#[trigger] incoming.asset_tags()[j]))
                && e == (GameplayTagError::InvalidTagIndex { index: incoming.asset_tags()[k].index() as usize }),
        result matches Ok(blocked) ==> blocked == (active_effects matches Some(effects) && blocks_incoming(
            *effects,
            target,
            source_tags,
            |i: int| inherited_by(*tag_manager, incoming.asset_tags(), i),
        )),
{
    let asset_bits = match tag_bits_from_tags_with_manager(incoming.get_asset_tags(), tag_manager) {
        Ok(bits) => bits,
        Err(e) => {
            return Err(e);
        },
    };
    let blocked = match active_effects {
        None => false,
        Some(effects) => is_blocked_by_immunity_bits(effects, target, source_tags, &asset_bits),
    };
    proof {
        let f1 = |i: int| bits_contain(asset_bits, i);
        let f2 = |i: int| inherited_by(*tag_manager, incoming.asset_tags(), i);
        assert(f1 =~= f2);
    }
    Ok(blocked)
}

} // verus!
