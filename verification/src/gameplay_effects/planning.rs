//! Matching active effects by tags, finding stack partners, and planning applications.

use super::requirements::{blocks_incoming, is_blocked_by_application_immunity, passes_application_requirements};
use super::{
    ActiveEffectHandle, ActiveEffectStorageError, ActiveGameplayEffect, ActiveGameplayEffects,
    EffectDurationTicksSpec, EffectTags, GameplayEffectSpec, StackOverflowPolicy, StackingPolicy,
    StackingType,
};
use crate::gameplay_tags::{
    bits_contain, bits_contain_any, inherited_by, tag_bits_from_tags_with_manager, GameplayTag,
    GameplayTagContainer, GameplayTagError, GameplayTagManager,
};
use crate::identifiers::EntityId;
use vstd::prelude::*;

verus! {

/// Describes why a gameplay effect could not be prepared or executed.
#[derive(Debug, Clone, Copy, PartialEq, Eq, Structural)]
pub enum GameplayEffectApplicationError {
    /// The probability roll rejected the application.
    ProbabilityRejected,
    /// Source or target application tag requirements were not met.
    ApplicationRequirementsNotMet,
    /// An active immunity effect blocked the application.
    BlockedByImmunity,
    /// A duration effect resolved to zero ticks.
    InvalidDuration,
    /// The target cannot store active gameplay effects.
    MissingActiveGameplayEffects { target: EntityId },
    /// The target has exhausted the representable active-effect slot space.
    ActiveEffectCapacityExceeded { target: EntityId },
    /// The target does not have the attribute storage required by the effect.
    MissingAttributeSet { target: EntityId },
    /// The target does not have the tag container required by the effect.
    MissingTagContainer { target: EntityId },
    /// The stacking policy rejected an application beyond its limit.
    StackOverflowRejected,
    /// A gameplay tag did not belong to the active tag manager.
    GameplayTag(GameplayTagError),
}

impl GameplayEffectApplicationError {
    /// Whether this error is an expected gameplay rejection rather than invalid state.
    pub open spec fn rejects(self) -> bool {
        ||| self is ProbabilityRejected
        ||| self is ApplicationRequirementsNotMet
        ||| self is BlockedByImmunity
        ||| self is StackOverflowRejected
    }

    /// Returns whether this error represents an expected gameplay rejection.
    pub fn is_rejection(&self) -> (rejection: bool)
        ensures
            rejection == self.rejects(),
    {
        match self {
            GameplayEffectApplicationError::ProbabilityRejected => true,
            GameplayEffectApplicationError::ApplicationRequirementsNotMet => true,
            GameplayEffectApplicationError::BlockedByImmunity => true,
            GameplayEffectApplicationError::StackOverflowRejected => true,
            _ => false,
        }
    }
}

impl From<GameplayTagError> for GameplayEffectApplicationError {
    /// Wraps a tag error.
    fn from(value: GameplayTagError) -> (error: Self) {
        GameplayEffectApplicationError::GameplayTag(value)
    }
}

impl vstd::std_specs::convert::FromSpecImpl<GameplayTagError> for GameplayEffectApplicationError {
    open spec fn obeys_from_spec() -> bool {
        true
    }

    open spec fn from_spec(value: GameplayTagError) -> Self {
        GameplayEffectApplicationError::GameplayTag(value)
    }
}

impl From<ActiveEffectStorageError> for GameplayEffectApplicationError {
    /// A full storage becomes a capacity error for the same target.
    fn from(value: ActiveEffectStorageError) -> (error: Self) {
        match value {
            ActiveEffectStorageError::CapacityExceeded { target } => GameplayEffectApplicationError::ActiveEffectCapacityExceeded {
                target,
            },
        }
    }
}

impl vstd::std_specs::convert::FromSpecImpl<ActiveEffectStorageError> for GameplayEffectApplicationError {
    open spec fn obeys_from_spec() -> bool {
        true
    }

    open spec fn from_spec(value: ActiveEffectStorageError) -> Self {
        match value {
            ActiveEffectStorageError::CapacityExceeded { target } => GameplayEffectApplicationError::ActiveEffectCapacityExceeded {
                target,
            },
        }
    }
}

/// Whether every tag of `tags` is registered in `manager`.
pub open spec fn all_registered(manager: GameplayTagManager, tags: Seq<GameplayTag>) -> bool {
    forall|k: int| 0 <= k < tags.len() ==> manager.is_registered(#[trigger] tags[k])
}

/// Whether `e` reports the first tag of `tags` that `manager` has not registered.
pub open spec fn first_unregistered(manager: GameplayTagManager, tags: Seq<GameplayTag>, e: GameplayTagError) -> bool {
    exists|k: int|
        0 <= k < tags.len() && !manager.is_registered(tags[k]) && (forall|j: int|
            0 <= j < k ==> manager.is_registered(#[trigger] tags[j])) && e == (GameplayTagError::InvalidTagIndex {
            index: tags[k].index() as usize,
        })
}

/// Whether the expansions of `a` and `b` share a tag.
pub open spec fn share_tag(manager: GameplayTagManager, a: Seq<GameplayTag>, b: Seq<GameplayTag>) -> bool {
    exists|i: int| #[trigger] inherited_by(manager, a, i) && inherited_by(manager, b, i)
}

/// Returns whether the expanded asset tags of `effect` share a tag with the expansion of `tags`.
///
/// The effect's asset tags are checked first, then `tags`; the first unregistered tag fails.
pub fn active_effect_has_any_tags(
    effect: &ActiveGameplayEffect,
    tags: &[GameplayTag],
    tag_manager: &GameplayTagManager,
) -> (result: Result<bool, GameplayTagError>)
    requires
        tag_manager.wf(),
    ensures
        result is Ok <==> all_registered(*tag_manager, effect.spec_of().tags().asset_tags())
            && all_registered(*tag_manager, tags@),
        result matches Ok(b) ==> b == share_tag(*tag_manager, effect.spec_of().tags().asset_tags(), tags@),
        result matches Err(e) ==> if all_registered(*tag_manager, effect.spec_of().tags().asset_tags()) {
            first_unregistered(*tag_manager, tags@, e)
        } else {
            first_unregistered(*tag_manager, effect.spec_of().tags().asset_tags(), e)
        },
{
    let effect_bits = match tag_bits_from_tags_with_manager(effect.get_spec().get_def_tags().get_asset_tags(), tag_manager) {
        Ok(bits) => bits,
        Err(e) => {
            return Err(e);
        },
    };
    let query_bits = match tag_bits_from_tags_with_manager(tags, tag_manager) {
        Ok(bits) => bits,
        Err(e) => {
            return Err(e);
        },
    };
    let shared = bits_contain_any(&effect_bits, &query_bits);
    proof {
        let asset = effect.spec_of().tags().asset_tags();
        if shared {
            let i = choose|i: int| #[trigger] bits_contain(effect_bits, i) && bits_contain(query_bits, i);
            assert(inherited_by(*tag_manager, asset, i));
        }
        if share_tag(*tag_manager, asset, tags@) {
            let i = choose|i: int| #[trigger] inherited_by(*tag_manager, asset, i) && inherited_by(*tag_manager, tags@, i);
            assert(bits_contain(effect_bits, i));
        }
    }
    Ok(shared)
}

/// Whether an effect of `spec` applied by `source` stacks onto the active effect `effect`.
pub open spec fn stacks_onto(spec: GameplayEffectSpec, source: EntityId, effect: ActiveGameplayEffect) -> bool {
    &&& spec.stacking().stacking_type != StackingType::NoStacking
    &&& effect.spec_of().def_id() == spec.def_id()
    &&& spec.stacking().stacking_type == StackingType::AggregateBySource ==> effect.source() == source
}

/// Returns the first effect of `target`, in slot order and outside `ignored_handles`, onto which
/// an application of `spec` by `source` stacks, with its stack count.
pub fn find_stackable_active_effect(
    source: EntityId,
    target: EntityId,
    spec: &GameplayEffectSpec,
    active_effects: Option<&ActiveGameplayEffects>,
    ignored_handles: &[ActiveEffectHandle],
) -> (found: Option<(ActiveEffectHandle, u32)>)
    requires
        active_effects matches Some(e) ==> e.wf(),
    ensures
        found matches Some((h, n)) ==> {
            let effects = *active_effects->0;
            &&& active_effects is Some
            &&& effects.lookup(h) is Some && h.target() == target
            &&& !ignored_handles@.contains(h)
            &&& stacks_onto(*spec, source, effects.lookup(h)->0)
            &&& n == effects.lookup(h)->0.stacks()
            &&& forall|h2: ActiveEffectHandle|
                #[trigger] effects.lookup(h2) is Some && h2.target() == target && h2.slot() < h.slot()
                    && !ignored_handles@.contains(h2) ==> !stacks_onto(*spec, source, effects.lookup(h2)->0)
        },
        found is None ==> (active_effects matches Some(effects) ==> forall|h2: ActiveEffectHandle|
            #[trigger] effects.lookup(h2) is Some && h2.target() == target && !ignored_handles@.contains(h2)
                ==> !stacks_onto(*spec, source, effects.lookup(h2)->0)),
{
    let stacking_type = spec.get_stacking_policy().stacking_type;
    let by_source = match stacking_type {
        StackingType::NoStacking => {
            return None;
        },
        StackingType::AggregateBySource => true,
        StackingType::AggregateByTarget => false,
    };
    let effects = match active_effects {
        None => {
            return None;
        },
        Some(e) => e,
    };
    assert(active_effects is Some && *active_effects->0 == *effects);
    let handles = effects.handles(target);
    let ghost slots = effects.slots_targeting(target, effects.slot_count() as int);
    proof {
        effects.lemma_slots_targeting(target, effects.slot_count() as int);
    }
    let mut k: usize = 0;
    while k < handles.len()
        invariant
            0 <= k <= handles@.len(),
            effects.wf(),
            effects.lists_handles_of(target, handles@),
            slots == effects.slots_targeting(target, effects.slot_count() as int),
            forall|a: int, b: int| 0 <= a < b < slots.len() ==> #[trigger] slots[a] < #[trigger] slots[b],
            forall|a: int| 0 <= a < slots.len() ==> 0 <= #[trigger] slots[a] < effects.slot_count()
                && effects.targets_at(slots[a], target),
            forall|t: int| 0 <= t < effects.slot_count() && effects.targets_at(t, target) ==> slots.contains(t),
            by_source == (spec.stacking().stacking_type == StackingType::AggregateBySource),
            active_effects is Some && *active_effects->0 == *effects,
            spec.stacking().stacking_type != StackingType::NoStacking,
            forall|a: int| 0 <= a < k && !ignored_handles@.contains(#[trigger] handles@[a]) ==> !stacks_onto(
                *spec,
                source,
                effects.lookup(handles@[a])->0,
            ),
        decreases handles@.len() - k,
    {
        let handle = handles[k];
        assert(effects.lookup(handle) is Some) by {
            assert(effects.effect_at(slots[k as int]) is Some);
        }
        if !contains_handle(ignored_handles, handle) {
            let effect = effects.get(handle).unwrap();
            let same_def = spec.is_same_def(effect.get_spec());
            let source_ok = !by_source || effect.get_source() == source;
            if same_def && source_ok {
                proof {
                    assert forall|h2: ActiveEffectHandle|
                        #[trigger] effects.lookup(h2) is Some && h2.target() == target && h2.slot() < handle.slot()
                            && !ignored_handles@.contains(h2) implies !stacks_onto(*spec, source, effects.lookup(h2)->0) by {
                        let t = h2.slot() as int;
                        assert(effects.targets_at(t, target));
                        assert(slots.contains(t));
                        let a = choose|a: int| 0 <= a < slots.len() && slots[a] == t;
                        ActiveEffectHandle::lemma_eq(handles@[a], h2);
                        if a > k {
                            assert(slots[k as int] < slots[a]);
                        }
                    }
                }
                return Some((handle, effect.get_stack_count()));
            }
        }
        k = k + 1;
    }
    proof {
        assert forall|h2: ActiveEffectHandle|
            #[trigger] effects.lookup(h2) is Some && h2.target() == target && !ignored_handles@.contains(h2)
                implies !stacks_onto(*spec, source, effects.lookup(h2)->0) by {
            let t = h2.slot() as int;
            assert(effects.targets_at(t, target));
            assert(slots.contains(t));
            let a = choose|a: int| 0 <= a < slots.len() && slots[a] == t;
            ActiveEffectHandle::lemma_eq(handles@[a], h2);
        }
    }
    None
}

/// Returns whether `handles` contains `handle`.
pub fn contains_handle(handles: &[ActiveEffectHandle], handle: ActiveEffectHandle) -> (found: bool)
    ensures
        found == handles@.contains(handle),
{
    let mut k: usize = 0;
    while k < handles.len()
        invariant
            0 <= k <= handles@.len(),
            forall|j: int| 0 <= j < k ==> handles@[j] != handle,
        decreases handles@.len() - k,
    {
        if handles[k].same_as(handle) {
            assert(handles@[k as int] == handle);
            return true;
        }
        k = k + 1;
    }
    false
}

/// How a prepared application changes the target.
#[derive(Debug, Clone, Copy, PartialEq, Eq, Structural)]
pub enum GameplayEffectApplicationKind {
    /// Applies once without being stored.
    Instant,
    /// Adds a stack to the existing effect `handle`, which then holds `new_stack_count` stacks.
    StackExisting { handle: ActiveEffectHandle, new_stack_count: u32 },
    /// Stores a new active effect.
    CreateActive,
}

/// The application kind for an effect with `policy` given the stack partner found, if any.
pub open spec fn application_kind(
    stackable: Option<(ActiveEffectHandle, u32)>,
    policy: StackingPolicy,
    instant: bool,
) -> Result<GameplayEffectApplicationKind, GameplayEffectApplicationError> {
    match stackable {
        Some((handle, stack_count)) => if policy.stack_limit != 0 && stack_count >= policy.stack_limit {
            match policy.overflow_policy {
                StackOverflowPolicy::RejectApplication => Err(GameplayEffectApplicationError::StackOverflowRejected),
                StackOverflowPolicy::RefreshDuration => Ok(
                    GameplayEffectApplicationKind::StackExisting { handle, new_stack_count: stack_count },
                ),
            }
        } else {
            Ok(
                GameplayEffectApplicationKind::StackExisting {
                    handle,
                    new_stack_count: if stack_count == u32::MAX { u32::MAX } else { (stack_count + 1) as u32 },
                },
            )
        },
        None => if instant {
            Ok(GameplayEffectApplicationKind::Instant)
        } else {
            Ok(GameplayEffectApplicationKind::CreateActive)
        },
    }
}

/// Decides how an application changes the target.
///
/// With a stack partner at or beyond a nonzero stack limit, the overflow policy either rejects
/// the application or refreshes the partner without a new stack; below the limit the partner
/// gains one stack, saturating at `u32::MAX`. Without a partner, instant effects apply once and
/// others are stored.
pub fn plan_application_kind(
    stackable: Option<(ActiveEffectHandle, u32)>,
    policy: StackingPolicy,
    instant: bool,
) -> (kind: Result<GameplayEffectApplicationKind, GameplayEffectApplicationError>)
    ensures
        kind == application_kind(stackable, policy, instant),
{
    match stackable {
        Some((handle, stack_count)) => {
            if policy.stack_limit != 0 && stack_count >= policy.stack_limit {
                match policy.overflow_policy {
                    StackOverflowPolicy::RejectApplication => Err(GameplayEffectApplicationError::StackOverflowRejected),
                    StackOverflowPolicy::RefreshDuration => Ok(
                        GameplayEffectApplicationKind::StackExisting { handle, new_stack_count: stack_count },
                    ),
                }
            } else {
                Ok(GameplayEffectApplicationKind::StackExisting { handle, new_stack_count: stack_count.saturating_add(1) })
            }
        },
        None => {
            if instant {
                Ok(GameplayEffectApplicationKind::Instant)
            } else {
                Ok(GameplayEffectApplicationKind::CreateActive)
            }
        },
    }
}

/// Whether the first failing check for `effect` against `tags` reports `e`: the effect's asset
/// tags are checked before `tags`.
pub open spec fn tag_check_fails_with(
    manager: GameplayTagManager,
    effect: ActiveGameplayEffect,
    tags: Seq<GameplayTag>,
    e: GameplayTagError,
) -> bool {
    if all_registered(manager, effect.spec_of().tags().asset_tags()) {
        !all_registered(manager, tags) && first_unregistered(manager, tags, e)
    } else {
        first_unregistered(manager, effect.spec_of().tags().asset_tags(), e)
    }
}

/// Whether `effect` and `tags` pass the tag checks and share a tag.
pub open spec fn effect_matches_tags(manager: GameplayTagManager, effect: ActiveGameplayEffect, tags: Seq<GameplayTag>) -> bool {
    &&& all_registered(manager, effect.spec_of().tags().asset_tags())
    &&& all_registered(manager, tags)
    &&& share_tag(manager, effect.spec_of().tags().asset_tags(), tags)
}

/// Whether both the asset tags of `effect` and `tags` are registered.
pub open spec fn tags_checkable(manager: GameplayTagManager, effect: ActiveGameplayEffect, tags: Seq<GameplayTag>) -> bool {
    all_registered(manager, effect.spec_of().tags().asset_tags()) && all_registered(manager, tags)
}

/// Returns, in slot order, the handles of the effects of `target` whose asset tags share a tag
/// with `tags`.
///
/// Without query tags or without storage nothing matches. Otherwise each effect is checked in
/// slot order, its asset tags before `tags`, and the first unregistered tag fails the call.
pub fn collect_active_effects_with_tags(
    target: EntityId,
    tags: &[GameplayTag],
    active_effects: Option<&ActiveGameplayEffects>,
    tag_manager: &GameplayTagManager,
) -> (result: Result<Vec<ActiveEffectHandle>, GameplayTagError>)
    requires
        tag_manager.wf(),
        active_effects matches Some(e) ==> e.wf(),
    ensures
        (tags@.len() == 0 || active_effects is None) ==> (result matches Ok(v) && v@.len() == 0),
        (tags@.len() > 0 && active_effects is Some) ==> {
            let effects = *active_effects->0;
            &&& result is Ok <==> forall|h: ActiveEffectHandle|
                #[trigger] effects.lookup(h) is Some && h.target() == target ==> tags_checkable(
                    *tag_manager,
                    effects.lookup(h)->0,
                    tags@,
                )
            &&& result matches Ok(v) ==> {
                &&& forall|k: int| 0 <= k < v@.len() ==> effects.lookup(#[trigger] v@[k]) is Some && v@[k].target()
                    == target && effect_matches_tags(*tag_manager, effects.lookup(v@[k])->0, tags@)
                &&& forall|h: ActiveEffectHandle|
                    #[trigger] effects.lookup(h) is Some && h.target() == target && effect_matches_tags(
                        *tag_manager,
                        effects.lookup(h)->0,
                        tags@,
                    ) ==> v@.contains(h)
                &&& forall|j: int, k: int| 0 <= j < k < v@.len() ==> (#[trigger] v@[j]).slot() < (#[trigger] v@[k]).slot()
            }
            &&& result matches Err(e) ==> exists|h: ActiveEffectHandle|
                #[trigger] effects.lookup(h) is Some && h.target() == target && tag_check_fails_with(
                    *tag_manager,
                    effects.lookup(h)->0,
                    tags@,
                    e,
                ) && forall|h2: ActiveEffectHandle|
                    #[trigger] effects.lookup(h2) is Some && h2.target() == target && h2.slot() < h.slot()
                        ==> tags_checkable(*tag_manager, effects.lookup(h2)->0, tags@)
        },
{
    let mut matches: Vec<ActiveEffectHandle> = Vec::new();
    if tags.len() == 0 {
        return Ok(matches);
    }
    let effects = match active_effects {
        None => {
            return Ok(matches);
        },
        Some(e) => e,
    };
    assert(active_effects is Some && *active_effects->0 == *effects);
    let handles = effects.handles(target);
    let ghost slots = effects.slots_targeting(target, effects.slot_count() as int);
    proof {
        effects.lemma_slots_targeting(target, effects.slot_count() as int);
    }
    let mut k: usize = 0;
    while k < handles.len()
        invariant
            0 <= k <= handles@.len(),
            tags@.len() > 0,
            matches@.len() <= k,
            active_effects is Some && *active_effects->0 == *effects,
            tag_manager.wf(),
            effects.wf(),
            effects.lists_handles_of(target, handles@),
            slots == effects.slots_targeting(target, effects.slot_count() as int),
            forall|a: int, b: int| 0 <= a < b < slots.len() ==> #[trigger] slots[a] < #[trigger] slots[b],
            forall|a: int| 0 <= a < slots.len() ==> 0 <= #[trigger] slots[a] < effects.slot_count()
                && effects.targets_at(slots[a], target),
            forall|t: int| 0 <= t < effects.slot_count() && effects.targets_at(t, target) ==> slots.contains(t),
            forall|a: int| 0 <= a < k ==> tags_checkable(*tag_manager, effects.lookup(#[trigger] handles@[a])->0, tags@),
            forall|j: int| 0 <= j < matches@.len() ==> exists|a: int| 0 <= a < k && #[trigger] matches@[j] == handles@[a],
            forall|j: int| 0 <= j < matches@.len() ==> effects.lookup(#[trigger] matches@[j]) is Some
                && matches@[j].target() == target && effect_matches_tags(*tag_manager, effects.lookup(matches@[j])->0, tags@),
            forall|a: int| 0 <= a < k && effect_matches_tags(*tag_manager, effects.lookup(#[trigger] handles@[a])->0, tags@)
                ==> matches@.contains(handles@[a]),
            forall|i: int, j: int| 0 <= i < j < matches@.len() ==> (#[trigger] matches@[i]).slot() < (#[trigger] matches@[j]).slot(),
            forall|j: int| 0 <= j < matches@.len() && k > 0 ==> (#[trigger] matches@[j]).slot() <= slots[k - 1],
        decreases handles@.len() - k,
    {
        let handle = handles[k];
        assert(effects.lookup(handle) is Some) by {
            assert(effects.effect_at(slots[k as int]) is Some);
        }
        let effect = effects.get(handle).unwrap();
        let ghost m0 = matches@;
        match active_effect_has_any_tags(effect, tags, tag_manager) {
            Err(e) => {
                proof {
                    assert forall|h2: ActiveEffectHandle|
                        #[trigger] effects.lookup(h2) is Some && h2.target() == target && h2.slot() < handle.slot()
                            implies tags_checkable(*tag_manager, effects.lookup(h2)->0, tags@) by {
                        let t = h2.slot() as int;
                        assert(effects.targets_at(t, target));
                        assert(slots.contains(t));
                        let a = choose|a: int| 0 <= a < slots.len() && slots[a] == t;
                        ActiveEffectHandle::lemma_eq(handles@[a], h2);
                        if a > k {
                            assert(slots[k as int] < slots[a]);
                        }
                    }
                }
                return Err(e);
            },
            Ok(shared) => {
                if shared {
                    matches.push(handle);
                }
            },
        }
        proof {
            assert forall|j: int| 0 <= j < matches@.len() implies exists|a: int| 0 <= a < k + 1 && #[trigger] matches@[j] == handles@[a] by {
                if j < m0.len() {
                    let a = choose|a: int| 0 <= a < k && m0[j] == handles@[a];
                    assert(matches@[j] == handles@[a]);
                } else {
                    assert(matches@[j] == handles@[k as int]);
                }
            }
            assert forall|a: int| 0 <= a < k + 1 && effect_matches_tags(*tag_manager, effects.lookup(#[trigger] handles@[a])->0, tags@)
                implies matches@.contains(handles@[a]) by {
                if a < k {
                    let j = choose|j: int| 0 <= j < m0.len() && m0[j] == handles@[a];
                    assert(matches@[j] == handles@[a]);
                } else {
                    assert(matches@[matches@.len() - 1] == handles@[a]);
                }
            }
            assert forall|j: int| 0 <= j < matches@.len() implies (#[trigger] matches@[j]).slot() <= slots[k as int] by {
                if j < m0.len() && k > 0 {
                    assert(slots[k - 1] < slots[k as int]);
                }
                if j < m0.len() && k == 0 {
                    assert(m0.len() == 0);
                }
            }
            assert forall|i: int, j: int| 0 <= i < j < matches@.len() implies (#[trigger] matches@[i]).slot()
                < (#[trigger] matches@[j]).slot() by {
                if j == m0.len() && k > 0 {
                    assert(matches@[i] == m0[i]);
                    assert(slots[k - 1] < slots[k as int]);
                }
                if j == m0.len() && k == 0 {
                    assert(m0.len() == 0);
                }
                if j < m0.len() {
                    assert(matches@[i] == m0[i]);
                    assert(matches@[j] == m0[j]);
                }
            }
        }
        k = k + 1;
    }
    proof {
        assert forall|h: ActiveEffectHandle|
            #[trigger] effects.lookup(h) is Some && h.target() == target implies tags_checkable(
            *tag_manager,
            effects.lookup(h)->0,
            tags@,
        ) && (effect_matches_tags(*tag_manager, effects.lookup(h)->0, tags@) ==> matches@.contains(h)) by {
            let t = h.slot() as int;
            assert(effects.targets_at(t, target));
            assert(slots.contains(t));
            let a = choose|a: int| 0 <= a < slots.len() && slots[a] == t;
            ActiveEffectHandle::lemma_eq(handles@[a], h);
        }
    }
    Ok(matches)
}

/// Returns the handles of the effects stored for `target`, in stable slot order.
pub fn get_active_effects_on_target(target: EntityId, active_effects: &ActiveGameplayEffects) -> (handles: Vec<
    ActiveEffectHandle,
>)
    requires
        active_effects.wf(),
    ensures
        active_effects.lists_handles_of(target, handles@),
{
    active_effects.handles(target)
}

/// Returns whether some stored effect's asset tags share a tag with `tags`.
///
/// Without query tags nothing matches. Otherwise stored effects are checked in slot order, each
/// one's asset tags before `tags`; the first unregistered tag fails the call, and the first
/// match ends it.
pub fn has_active_effect_with_tags(
    active_effects: &ActiveGameplayEffects,
    tags: &[GameplayTag],
    tag_manager: &GameplayTagManager,
) -> (result: Result<bool, GameplayTagError>)
    requires
        tag_manager.wf(),
        active_effects.wf(),
    ensures
        tags@.len() == 0 ==> result == Ok::<bool, GameplayTagError>(false),
        tags@.len() > 0 ==> (result matches Ok(b) ==> (b <==> exists|s: int|
            0 <= s < active_effects.slot_count() && #[trigger] active_effects.effect_at(s) is Some && effect_matches_tags(
                *tag_manager,
                active_effects.effect_at(s)->0,
                tags@,
            ))),
        result == Ok::<bool, GameplayTagError>(false) && tags@.len() > 0 ==> forall|s: int|
            0 <= s < active_effects.slot_count() && #[trigger] active_effects.effect_at(s) is Some ==> tags_checkable(
                *tag_manager,
                active_effects.effect_at(s)->0,
                tags@,
            ),
        (forall|s: int|
            0 <= s < active_effects.slot_count() && #[trigger] active_effects.effect_at(s) is Some ==> tags_checkable(
                *tag_manager,
                active_effects.effect_at(s)->0,
                tags@,
            )) ==> result is Ok,
        result matches Err(e) ==> exists|s: int|
            0 <= s < active_effects.slot_count() && #[trigger] active_effects.effect_at(s) is Some && tag_check_fails_with(
                *tag_manager,
                active_effects.effect_at(s)->0,
                tags@,
                e,
            ) && forall|t: int|
                0 <= t < s && #[trigger] active_effects.effect_at(t) is Some ==> tags_checkable(
                    *tag_manager,
                    active_effects.effect_at(t)->0,
                    tags@,
                ) && !share_tag(*tag_manager, active_effects.effect_at(t)->0.spec_of().tags().asset_tags(), tags@),
{
    if tags.len() == 0 {
        return Ok(false);
    }
    let handles = active_effects.stored_handles();
    let ghost slots = active_effects.occupied_slots(active_effects.slot_count() as int);
    proof {
        active_effects.lemma_occupied_slots(active_effects.slot_count() as int);
    }
    let mut k: usize = 0;
    while k < handles.len()
        invariant
            0 <= k <= handles@.len(),
            tags@.len() > 0,
            tag_manager.wf(),
            active_effects.wf(),
            active_effects.lists_stored_handles(handles@),
            slots == active_effects.occupied_slots(active_effects.slot_count() as int),
            forall|a: int, b: int| 0 <= a < b < slots.len() ==> #[trigger] slots[a] < #[trigger] slots[b],
            forall|a: int| 0 <= a < slots.len() ==> 0 <= #[trigger] slots[a] < active_effects.slot_count()
                && active_effects.effect_at(slots[a]) is Some,
            forall|t: int| 0 <= t < active_effects.slot_count() && active_effects.effect_at(t) is Some ==> slots.contains(t),
            forall|a: int| 0 <= a < k ==> tags_checkable(*tag_manager, active_effects.effect_at(#[trigger] slots[a])->0, tags@)
                && !share_tag(*tag_manager, active_effects.effect_at(slots[a])->0.spec_of().tags().asset_tags(), tags@),
        decreases handles@.len() - k,
    {
        let handle = handles[k];
        assert(active_effects.lookup(handle) is Some);
        let effect = active_effects.get(handle).unwrap();
        match active_effect_has_any_tags(effect, tags, tag_manager) {
            Err(e) => {
                proof {
                    assert forall|t: int|
                        0 <= t < slots[k as int] && #[trigger] active_effects.effect_at(t) is Some implies tags_checkable(
                        *tag_manager,
                        active_effects.effect_at(t)->0,
                        tags@,
                    ) && !share_tag(*tag_manager, active_effects.effect_at(t)->0.spec_of().tags().asset_tags(), tags@) by {
                        assert(slots.contains(t));
                        let a = choose|a: int| 0 <= a < slots.len() && slots[a] == t;
                        if a > k {
                            assert(slots[k as int] < slots[a]);
                        }
                    }
                }
                return Err(e);
            },
            Ok(shared) => {
                if shared {
                    return Ok(true);
                }
            },
        }
        k = k + 1;
    }
    proof {
        assert forall|s: int| 0 <= s < active_effects.slot_count() && #[trigger] active_effects.effect_at(s) is Some implies tags_checkable(
            *tag_manager,
            active_effects.effect_at(s)->0,
            tags@,
        ) && !share_tag(*tag_manager, active_effects.effect_at(s)->0.spec_of().tags().asset_tags(), tags@) by {
            assert(slots.contains(s));
            let a = choose|a: int| 0 <= a < slots.len() && slots[a] == s;
        }
    }
    Ok(false)
}

/// Prepared gameplay-effect work intended for immediate execution.
///
/// Execution revalidates structural requirements, but does not repeat the application-tag,
/// immunity, probability, or stacking decisions captured here.
pub struct GameplayEffectApplicationPlan {
    source: EntityId,
    target: EntityId,
    spec: GameplayEffectSpec,
    removed_effects: Vec<ActiveEffectHandle>,
    kind: GameplayEffectApplicationKind,
}

impl GameplayEffectApplicationPlan {
    /// The entity applying the effect.
    pub closed spec fn source(self) -> EntityId {
        self.source
    }

    /// The entity receiving the effect.
    pub closed spec fn target(self) -> EntityId {
        self.target
    }

    /// The evaluated values of the application.
    pub closed spec fn spec_of(self) -> GameplayEffectSpec {
        self.spec
    }

    /// The active effects the application removes first.
    pub closed spec fn removed(self) -> Seq<ActiveEffectHandle> {
        self.removed_effects@
    }

    /// How the application changes the target.
    pub closed spec fn kind(self) -> GameplayEffectApplicationKind {
        self.kind
    }

    /// Returns the entity applying the effect.
    pub fn get_source(&self) -> (source: EntityId)
        ensures
            source == self.source(),
    {
        self.source
    }

    /// Returns the entity receiving the effect.
    pub fn get_target(&self) -> (target: EntityId)
        ensures
            target == self.target(),
    {
        self.target
    }

    /// Returns the evaluated values of the application.
    pub fn get_spec(&self) -> (spec: &GameplayEffectSpec)
        ensures
            *spec == self.spec_of(),
    {
        &self.spec
    }

    /// Returns the number of prepared modifiers.
    pub fn get_modifier_count(&self) -> (count: usize)
        ensures
            count == self.spec_of().modifier_count(),
    {
        self.spec.get_modifier_count()
    }

    /// Returns the active effects the application removes first.
    pub fn get_removed_effects(&self) -> (removed: &[ActiveEffectHandle])
        ensures
            removed@ == self.removed(),
    {
        self.removed_effects.as_slice()
    }

    /// Returns how the application changes the target.
    pub fn get_kind(&self) -> (kind: GameplayEffectApplicationKind)
        ensures
            kind == self.kind(),
    {
        self.kind
    }

    /// Takes the plan apart into its source, target, values, removed effects, and kind.
    pub fn into_parts(self) -> (parts: (
        EntityId,
        EntityId,
        GameplayEffectSpec,
        Vec<ActiveEffectHandle>,
        GameplayEffectApplicationKind,
    ))
        ensures
            parts.0 == self.source(),
            parts.1 == self.target(),
            parts.2 == self.spec_of(),
            parts.3@ == self.removed(),
            parts.4 == self.kind(),
    {
        (self.source, self.target, self.spec, self.removed_effects, self.kind)
    }

    /// Returns whether this plan applies an instant effect.
    pub fn is_instant(&self) -> (instant: bool)
        ensures
            instant == (self.kind() is Instant),
    {
        match self.kind {
            GameplayEffectApplicationKind::Instant => true,
            _ => false,
        }
    }

    /// Returns whether executing the plan changes which effects the requirements must revisit:
    /// it removes effects or stores a new one.
    pub fn changes_active_effect_requirements(&self) -> (changes: bool)
        ensures
            changes == (self.removed().len() > 0 || self.kind() is CreateActive),
    {
        self.removed_effects.len() > 0 || match self.kind {
            GameplayEffectApplicationKind::CreateActive => true,
            _ => false,
        }
    }
}

/// Whether the target's storage admits removing the effects matching `removes`: nothing to
/// match, no storage, or every effect of `target` passes the tag checks.
pub open spec fn removal_matching_ok(
    manager: GameplayTagManager,
    active_effects: Option<&ActiveGameplayEffects>,
    target: EntityId,
    removes: Seq<GameplayTag>,
) -> bool {
    ||| removes.len() == 0
    ||| active_effects is None
    ||| forall|h: ActiveEffectHandle|
        #[trigger] active_effects->0.lookup(h) is Some && h.target() == target ==> tags_checkable(
            manager,
            active_effects->0.lookup(h)->0,
            removes,
        )
}

/// The outcome `result` of preparing an application by `source` on `target` of the effect with
/// incoming tags `incoming` and specification `spec`, given the probability roll, the target's
/// storage, both entities' tags, and whether the target stores attributes: the first failing
/// check decides the error, and a plan removes the matching effects and stacks onto the first
/// matching effect that is not removed, or applies the effect anew.
pub open spec fn prepare_outcome(
    source: EntityId,
    target: EntityId,
    incoming: &EffectTags,
    spec: GameplayEffectSpec,
    roll_passed: bool,
    active_effects: Option<&ActiveGameplayEffects>,
    source_tags: Option<&GameplayTagContainer>,
    target_tags: Option<&GameplayTagContainer>,
    has_attribute_set: bool,
    tag_manager: &GameplayTagManager,
    result: Result<GameplayEffectApplicationPlan, GameplayEffectApplicationError>,
) -> bool {
    let g1 = roll_passed;
    let g2 = incoming.source_application().admits(source_tags) && incoming.target_application().admits(target_tags);
    let g3 = all_registered(*tag_manager, incoming.asset_tags());
    let g4 = !(active_effects is Some && blocks_incoming(
        *active_effects->0,
        target,
        source_tags,
        |i: int| inherited_by(*tag_manager, incoming.asset_tags(), i),
    ));
    let g5 = spec.duration() != EffectDurationTicksSpec::DurationTicks(0);
    let g6 = spec.duration() is Instant || active_effects is Some;
    let g7 = spec.modifier_count() == 0 || has_attribute_set;
    let g8 = spec.tags().granted_tags().len() == 0 || target_tags is Some;
    let g9 = all_registered(*tag_manager, spec.tags().granted_tags());
    let g10 = removal_matching_ok(*tag_manager, active_effects, target, incoming.removes_tags());
    &&& !g1 ==> result == Err::<GameplayEffectApplicationPlan, GameplayEffectApplicationError>(
        GameplayEffectApplicationError::ProbabilityRejected,
    )
    &&& g1 && !g2 ==> result == Err::<GameplayEffectApplicationPlan, GameplayEffectApplicationError>(
        GameplayEffectApplicationError::ApplicationRequirementsNotMet,
    )
    &&& g1 && g2 && !g3 ==> (result matches Err(GameplayEffectApplicationError::GameplayTag(e))
        && first_unregistered(*tag_manager, incoming.asset_tags(), e))
    &&& g1 && g2 && g3 && !g4 ==> result == Err::<GameplayEffectApplicationPlan, GameplayEffectApplicationError>(
        GameplayEffectApplicationError::BlockedByImmunity,
    )
    &&& g1 && g2 && g3 && g4 && !g5 ==> result == Err::<GameplayEffectApplicationPlan, GameplayEffectApplicationError>(
        GameplayEffectApplicationError::InvalidDuration,
    )
    &&& g1 && g2 && g3 && g4 && g5 && !g6 ==> result == Err::<
        GameplayEffectApplicationPlan,
        GameplayEffectApplicationError,
    >(GameplayEffectApplicationError::MissingActiveGameplayEffects { target })
    &&& g1 && g2 && g3 && g4 && g5 && g6 && !g7 ==> result == Err::<
        GameplayEffectApplicationPlan,
        GameplayEffectApplicationError,
    >(GameplayEffectApplicationError::MissingAttributeSet { target })
    &&& g1 && g2 && g3 && g4 && g5 && g6 && g7 && !g8 ==> result == Err::<
        GameplayEffectApplicationPlan,
        GameplayEffectApplicationError,
    >(GameplayEffectApplicationError::MissingTagContainer { target })
    &&& g1 && g2 && g3 && g4 && g5 && g6 && g7 && g8 && !g9 ==> (result matches Err(
        GameplayEffectApplicationError::GameplayTag(e),
    ) && first_unregistered(*tag_manager, spec.tags().granted_tags(), e))
    &&& g1 && g2 && g3 && g4 && g5 && g6 && g7 && g8 && g9 && !g10 ==> (result matches Err(e)
        && e is GameplayTag)
    &&& result is Ok ==> g1 && g2 && g3 && g4 && g5 && g6 && g7 && g8 && g9 && g10
    &&& result matches Ok(plan) ==> {
        &&& plan.source() == source
        &&& plan.target() == target
        &&& plan.spec_of() == spec
        &&& forall|k: int| 0 <= k < plan.removed().len() ==> active_effects->0.lookup(#[trigger] plan.removed()[k]) is Some
            && plan.removed()[k].target() == target && effect_matches_tags(
            *tag_manager,
            active_effects->0.lookup(plan.removed()[k])->0,
            incoming.removes_tags(),
        )
        &&& (incoming.removes_tags().len() > 0 && active_effects is Some) ==> forall|h: ActiveEffectHandle|
            #[trigger] active_effects->0.lookup(h) is Some && h.target() == target && effect_matches_tags(
                *tag_manager,
                active_effects->0.lookup(h)->0,
                incoming.removes_tags(),
            ) ==> plan.removed().contains(h)
        &&& (incoming.removes_tags().len() == 0 || active_effects is None) ==> plan.removed().len() == 0
        &&& plan.kind() is StackExisting ==> {
            let h = plan.kind()->handle;
            let effects = *active_effects->0;
            &&& active_effects is Some
            &&& effects.lookup(h) is Some && h.target() == target && !plan.removed().contains(h)
            &&& stacks_onto(spec, source, effects.lookup(h)->0)
            &&& Ok::<GameplayEffectApplicationKind, GameplayEffectApplicationError>(plan.kind()) == application_kind(
                Some((h, effects.lookup(h)->0.stacks())),
                spec.stacking(),
                spec.duration() is Instant,
            )
            &&& forall|h2: ActiveEffectHandle|
                #[trigger] effects.lookup(h2) is Some && h2.target() == target && h2.slot() < h.slot()
                    && !plan.removed().contains(h2) ==> !stacks_onto(spec, source, effects.lookup(h2)->0)
        }
        &&& !(plan.kind() is StackExisting) ==> Ok::<GameplayEffectApplicationKind, GameplayEffectApplicationError>(
            plan.kind(),
        ) == application_kind(None, spec.stacking(), spec.duration() is Instant)
            && (active_effects matches Some(effects) ==> forall|h2: ActiveEffectHandle|
            #[trigger] effects.lookup(h2) is Some && h2.target() == target && !plan.removed().contains(h2)
                ==> !stacks_onto(spec, source, effects.lookup(h2)->0))
    }
    &&& (g1 && g2 && g3 && g4 && g5 && g6 && g7 && g8 && g9 && g10 && result is Err) ==> result
        == Err::<GameplayEffectApplicationPlan, GameplayEffectApplicationError>(
        GameplayEffectApplicationError::StackOverflowRejected,
    )
}

/// Validates an effect application and builds its plan without changing anything.
///
/// `roll_passed` is the outcome of the application-probability roll, and `has_attribute_set`
/// says whether the target stores attributes. The checks run in order and the first failing
/// one decides the error: the roll, the application requirements, immunity, a zero duration,
/// storage for a lasting effect, attribute storage for modifiers, the target's tags for granted
/// tags, the granted tags themselves, and the effects to remove. The plan then stacks onto the
/// first matching effect that is not removed, or applies the effect anew.
pub fn prepare_gameplay_effect(
    source: EntityId,
    target: EntityId,
    incoming: &EffectTags,
    spec: GameplayEffectSpec,
    roll_passed: bool,
    active_effects: Option<&ActiveGameplayEffects>,
    source_tags: Option<&GameplayTagContainer>,
    target_tags: Option<&GameplayTagContainer>,
    has_attribute_set: bool,
    tag_manager: &GameplayTagManager,
) -> (result: Result<GameplayEffectApplicationPlan, GameplayEffectApplicationError>)
    requires
        tag_manager.wf(),
        active_effects matches Some(e) ==> e.wf(),
    ensures
        prepare_outcome(
            source,
            target,
            incoming,
            spec,
            roll_passed,
            active_effects,
            source_tags,
            target_tags,
            has_attribute_set,
            tag_manager,
            result,
        ),
{
    if !roll_passed {
        return Err(GameplayEffectApplicationError::ProbabilityRejected);
    }
    if !passes_application_requirements(incoming, source_tags, target_tags) {
        return Err(GameplayEffectApplicationError::ApplicationRequirementsNotMet);
    }
    match is_blocked_by_application_immunity(active_effects, target, source_tags, incoming, tag_manager) {
        Err(e) => {
            return Err(GameplayEffectApplicationError::GameplayTag(e));
        },
        Ok(true) => {
            return Err(GameplayEffectApplicationError::BlockedByImmunity);
        },
        Ok(false) => {},
    }
    let duration = spec.get_duration_spec();
    match duration {
        EffectDurationTicksSpec::DurationTicks(0) => {
            return Err(GameplayEffectApplicationError::InvalidDuration);
        },
        _ => {},
    }
    let instant = duration.is_instant();
    if !instant && active_effects.is_none() {
        return Err(GameplayEffectApplicationError::MissingActiveGameplayEffects { target });
    }
    if spec.has_modifiers() && !has_attribute_set {
        return Err(GameplayEffectApplicationError::MissingAttributeSet { target });
    }
    let granted_tags = spec.get_def_tags().get_granted_tags();
    if granted_tags.len() > 0 && target_tags.is_none() {
        return Err(GameplayEffectApplicationError::MissingTagContainer { target });
    }
    match tag_bits_from_tags_with_manager(granted_tags, tag_manager) {
        Ok(_) => {},
        Err(e) => {
            return Err(GameplayEffectApplicationError::GameplayTag(e));
        },
    }
    let removed_effects = match collect_active_effects_with_tags(
        target,
        incoming.get_remove_effects_with_tags(),
        active_effects,
        tag_manager,
    ) {
        Ok(handles) => handles,
        Err(e) => {
            return Err(GameplayEffectApplicationError::GameplayTag(e));
        },
    };
    let stackable = find_stackable_active_effect(source, target, &spec, active_effects, removed_effects.as_slice());
    let kind = match plan_application_kind(stackable, spec.get_stacking_policy(), instant) {
        Ok(kind) => kind,
        Err(e) => {
            return Err(e);
        },
    };
    Ok(GameplayEffectApplicationPlan { source, target, spec, removed_effects, kind })
}

} // verus!
