//! The effect-related state of all entities, and requirement passes over it.

use super::convergence::{
    entries_sorted, signature_entry, sort_signature, sorted_unique_handles,
    RequirementSignatureEntry,
};
use super::requirements::{ongoing_allowed, removal_requested};
use super::execution::{
    apply_inhibit_transition, cleanup_effect_tags, force_remove_effect, granted, lemma_occurrences_nonneg,
    lemma_release_bounds,
    release_discarded_effect_tags, released, releases_on_expiry, remove_active_effect, tags_consistent,
};
use super::planning::all_registered;
use super::storage::{PeriodicExecution, StackRefresh};
use super::DurationTickOutcome;
use super::requirements::{decision_for, requirement_decision, ActiveEffectRequirementDecision};
use super::{ActiveEffectHandle, ActiveGameplayEffect, ActiveGameplayEffects};
use crate::gameplay_tags::{occurrences, GameplayTag, GameplayTagContainer, GameplayTagManager, MAX_TAG_COUNTS};
use crate::identifiers::EntityId;
use vstd::prelude::*;

verus! {

/// The active-effect storage of one entity.
pub struct EffectStorageEntry {
    pub entity: EntityId,
    pub effects: ActiveGameplayEffects,
}

/// The gameplay tags of one entity.
pub struct TagContainerEntry {
    pub entity: EntityId,
    pub tags: GameplayTagContainer,
}

/// The effect storages and tag containers of all entities, and which entities store
/// attributes. Each entity has at most one storage and at most one container.
pub struct EffectWorld {
    pub storages: Vec<EffectStorageEntry>,
    pub containers: Vec<TagContainerEntry>,
    pub attribute_holders: Vec<EntityId>,
}

impl EffectWorld {
    /// Entities are unique, storages are consistent, and containers agree with `manager`.
    pub open spec fn wf(self, manager: GameplayTagManager) -> bool {
        &&& forall|i: int, j: int|
            0 <= i < j < self.storages@.len() ==> (#[trigger] self.storages@[i]).entity != (
            #[trigger] self.storages@[j]).entity
        &&& forall|i: int, j: int|
            0 <= i < j < self.containers@.len() ==> (#[trigger] self.containers@[i]).entity != (
            #[trigger] self.containers@[j]).entity
        &&& forall|i: int| 0 <= i < self.storages@.len() ==> (#[trigger] self.storages@[i]).effects.wf()
        &&& forall|i: int| 0 <= i < self.containers@.len() ==> (#[trigger] self.containers@[i]).tags.consistent_with(manager)
    }

    /// The tags of entity `e`, if it has any.
    pub open spec fn container_of(self, e: EntityId) -> Option<GameplayTagContainer> {
        if exists|i: int| 0 <= i < self.containers@.len() && (#[trigger] self.containers@[i]).entity == e {
            Some(self.containers@[choose|i: int| 0 <= i < self.containers@.len() && (#[trigger] self.containers@[i]).entity == e].tags)
        } else {
            None
        }
    }

    /// The signature entry of the stored effect `e` under `h`, judged by this world's tags.
    pub open spec fn entry_for(self, h: ActiveEffectHandle, e: ActiveGameplayEffect) -> RequirementSignatureEntry {
        let source_tags = match self.container_of(e.source()) {
            Some(c) => Some(&c),
            None => None::<&GameplayTagContainer>,
        };
        let target_tags = match self.container_of(e.target()) {
            Some(c) => Some(&c),
            None => None::<&GameplayTagContainer>,
        };
        RequirementSignatureEntry {
            handle: h,
            inhibited: e.inhibited(),
            should_remove: removal_requested(e.spec_of().tags(), source_tags, target_tags),
            passes_ongoing: ongoing_allowed(e.spec_of().tags(), source_tags, target_tags),
        }
    }

    /// The signature entries of the effects stored in `effects`, in slot order.
    pub open spec fn storage_entries(self, effects: ActiveGameplayEffects) -> Seq<RequirementSignatureEntry> {
        effects.occupied_slots(effects.slot_count() as int).map_values(
            |s: int|
                self.entry_for(
                    ActiveEffectHandle::from_parts(effects.effect_at(s)->0.target(), s as u32, effects.generation_at(s)),
                    effects.effect_at(s)->0,
                ),
        )
    }

    /// The signature entries of the first `n` storages, storage by storage.
    pub open spec fn world_entries(self, n: int) -> Seq<RequirementSignatureEntry>
        decreases n,
    {
        if n <= 0 {
            Seq::empty()
        } else {
            self.world_entries(n - 1) + self.storage_entries(self.storages@[n - 1].effects)
        }
    }

    /// Returns the index of the container of entity `e`, if it has one.
    pub fn find_container(&self, e: EntityId) -> (index: Option<usize>)
        ensures
            index matches Some(i) ==> i < self.containers@.len() && self.containers@[i as int].entity == e,
            index is None ==> forall|i: int| 0 <= i < self.containers@.len() ==> (#[trigger] self.containers@[i]).entity != e,
    {
        let mut i: usize = 0;
        while i < self.containers.len()
            invariant
                0 <= i <= self.containers@.len(),
                forall|j: int| 0 <= j < i ==> (#[trigger] self.containers@[j]).entity != e,
            decreases self.containers@.len() - i,
        {
            if self.containers[i].entity == e {
                return Some(i);
            }
            i = i + 1;
        }
        None
    }

    /// Returns the index of the storage of entity `e`, if it has one.
    pub fn find_storage(&self, e: EntityId) -> (index: Option<usize>)
        ensures
            index matches Some(i) ==> i < self.storages@.len() && self.storages@[i as int].entity == e,
            index is None ==> forall|i: int| 0 <= i < self.storages@.len() ==> (#[trigger] self.storages@[i]).entity != e,
    {
        let mut i: usize = 0;
        while i < self.storages.len()
            invariant
                0 <= i <= self.storages@.len(),
                forall|j: int| 0 <= j < i ==> (#[trigger] self.storages@[j]).entity != e,
            decreases self.storages@.len() - i,
        {
            if self.storages[i].entity == e {
                return Some(i);
            }
            i = i + 1;
        }
        None
    }

    /// Returns whether entity `e` stores attributes.
    pub fn has_attribute_set(&self, e: EntityId) -> (has: bool)
        ensures
            has == self.attribute_holders@.contains(e),
    {
        let mut i: usize = 0;
        while i < self.attribute_holders.len()
            invariant
                0 <= i <= self.attribute_holders@.len(),
                forall|j: int| 0 <= j < i ==> self.attribute_holders@[j] != e,
            decreases self.attribute_holders@.len() - i,
        {
            if self.attribute_holders[i] == e {
                assert(self.attribute_holders@[i as int] == e);
                return true;
            }
            i = i + 1;
        }
        false
    }

    /// Returns the tags of entity `e`, if it has any.
    pub fn tags_of(&self, e: EntityId) -> (tags: Option<&GameplayTagContainer>)
        requires
            forall|i: int, j: int|
                0 <= i < j < self.containers@.len() ==> (#[trigger] self.containers@[i]).entity != (
                #[trigger] self.containers@[j]).entity,
        ensures
            tags is Some == self.container_of(e) is Some,
            tags matches Some(t) ==> *t == self.container_of(e)->0,
    {
        match self.find_container(e) {
            None => None,
            Some(i) => {
                proof {
                    let c = choose|c: int| 0 <= c < self.containers@.len() && (#[trigger] self.containers@[c]).entity == e;
                    if c != i {
                        if c < i {
                            assert(self.containers@[c].entity != self.containers@[i as int].entity);
                        } else {
                            assert(self.containers@[i as int].entity != self.containers@[c].entity);
                        }
                    }
                }
                Some(&self.containers[i].tags)
            },
        }
    }

    /// The effect storage of entity `e`, if it has one.
    pub open spec fn storage_of(self, e: EntityId) -> Option<ActiveGameplayEffects> {
        if exists|i: int| 0 <= i < self.storages@.len() && (#[trigger] self.storages@[i]).entity == e {
            Some(self.storages@[choose|i: int| 0 <= i < self.storages@.len() && (#[trigger] self.storages@[i]).entity == e].effects)
        } else {
            None
        }
    }

    /// Whether some stored effect targets `e`.
    pub open spec fn stores_effect_of(self, e: EntityId) -> bool {
        exists|i: int, s: int|
            0 <= i < self.storages@.len() && 0 <= s < self.storages@[i].effects.slot_count() && #[trigger] self.storages@[i].effects.targets_at(s, e)
    }

    /// The requirement decision for the stored effect `e`, judged by this world's tags.
    pub open spec fn decision_of(self, e: ActiveGameplayEffect) -> Option<ActiveEffectRequirementDecision> {
        let source_tags = match self.container_of(e.source()) {
            Some(c) => Some(&c),
            None => None::<&GameplayTagContainer>,
        };
        let target_tags = match self.container_of(e.target()) {
            Some(c) => Some(&c),
            None => None::<&GameplayTagContainer>,
        };
        decision_for(e.spec_of().tags(), e.inhibited(), source_tags, target_tags)
    }

    /// Whether `h` names an effect in the storage of its own target.
    pub open spec fn live_own(self, h: ActiveEffectHandle) -> bool {
        self.storage_of(h.target()) matches Some(st) && st.lookup(h) is Some
    }

    /// The storage at index `i` is the storage of its entity.
    pub proof fn lemma_storage_of(self, i: int)
        requires
            0 <= i < self.storages@.len(),
            forall|a: int, b: int|
                0 <= a < b < self.storages@.len() ==> (#[trigger] self.storages@[a]).entity != (
                #[trigger] self.storages@[b]).entity,
        ensures
            self.storage_of(self.storages@[i].entity) == Some(self.storages@[i].effects),
    {
        let e = self.storages@[i].entity;
        let c = choose|c: int| 0 <= c < self.storages@.len() && (#[trigger] self.storages@[c]).entity == e;
        if c != i {
            if c < i {
                assert(self.storages@[c].entity != self.storages@[i].entity);
            } else {
                assert(self.storages@[i].entity != self.storages@[c].entity);
            }
        }
    }

    /// The container at index `i` is the container of its entity.
    pub proof fn lemma_container_of(self, i: int)
        requires
            0 <= i < self.containers@.len(),
            forall|a: int, b: int|
                0 <= a < b < self.containers@.len() ==> (#[trigger] self.containers@[a]).entity != (
                #[trigger] self.containers@[b]).entity,
        ensures
            self.container_of(self.containers@[i].entity) == Some(self.containers@[i].tags),
    {
        let e = self.containers@[i].entity;
        let c = choose|c: int| 0 <= c < self.containers@.len() && (#[trigger] self.containers@[c]).entity == e;
        if c != i {
            if c < i {
                assert(self.containers@[c].entity != self.containers@[i].entity);
            } else {
                assert(self.containers@[i].entity != self.containers@[c].entity);
            }
        }
    }

    /// Worlds with the same layout give the same entities tags.
    pub proof fn lemma_same_layout_containers(self, other: Self)
        requires
            self.same_layout(other),
        ensures
            forall|e: EntityId| #[trigger] self.container_of(e) is Some == other.container_of(e) is Some,
    {
        assert forall|e: EntityId| #[trigger] self.container_of(e) is Some == other.container_of(e) is Some by {
            if exists|i: int| 0 <= i < self.containers@.len() && (#[trigger] self.containers@[i]).entity == e {
                let i = choose|i: int| 0 <= i < self.containers@.len() && (#[trigger] self.containers@[i]).entity == e;
                assert(other.containers@[i].entity == e);
            }
            if exists|i: int| 0 <= i < other.containers@.len() && (#[trigger] other.containers@[i]).entity == e {
                let i = choose|i: int| 0 <= i < other.containers@.len() && (#[trigger] other.containers@[i]).entity == e;
                assert(self.containers@[i].entity == e);
            }
        }
    }

    /// Returns the targets of every stored effect, ordered by bits, without repetitions.
    pub fn effect_targets(&self) -> (targets: Vec<EntityId>)
        requires
            forall|i: int| 0 <= i < self.storages@.len() ==> (#[trigger] self.storages@[i]).effects.wf(),
        ensures
            forall|i: int, j: int| 0 <= i < j < targets@.len() ==> (#[trigger] targets@[i]).bits() < (#[trigger] targets@[j]).bits(),
            forall|e: EntityId| targets@.contains(e) <==> self.stores_effect_of(e),
    {
        let mut all: Vec<EntityId> = Vec::new();
        let mut i: usize = 0;
        while i < self.storages.len()
            invariant
                0 <= i <= self.storages@.len(),
                forall|i2: int| 0 <= i2 < self.storages@.len() ==> (#[trigger] self.storages@[i2]).effects.wf(),
                forall|e: EntityId| all@.contains(e) <==> exists|i2: int, s: int|
                    0 <= i2 < i && 0 <= s < self.storages@[i2].effects.slot_count() && #[trigger] self.storages@[i2].effects.targets_at(s, e),
            decreases self.storages@.len() - i,
        {
            let effects = &self.storages[i].effects;
            let handles = effects.stored_handles();
            let ghost slots = effects.occupied_slots(effects.slot_count() as int);
            proof {
                effects.lemma_occupied_slots(effects.slot_count() as int);
            }
            let ghost before = all@;
            let mut k: usize = 0;
            while k < handles.len()
                invariant
                    0 <= k <= handles@.len(),
                    i < self.storages@.len(),
                    *effects == self.storages@[i as int].effects,
                    effects.wf(),
                    effects.lists_stored_handles(handles@),
                    slots == effects.occupied_slots(effects.slot_count() as int),
                    forall|a: int| 0 <= a < slots.len() ==> 0 <= #[trigger] slots[a] < effects.slot_count()
                        && effects.effect_at(slots[a]) is Some,
                    forall|t: int| 0 <= t < effects.slot_count() && effects.effect_at(t) is Some ==> slots.contains(t),
                    all@ == before + handles@.take(k as int).map_values(|h: ActiveEffectHandle| h.target()),
                decreases handles@.len() - k,
            {
                all.push(handles[k].get_target());
                proof {
                    assert(handles@.take(k + 1).map_values(|h: ActiveEffectHandle| h.target()) == handles@.take(
                        k as int,
                    ).map_values(|h: ActiveEffectHandle| h.target()).push(handles@[k as int].target()));
                }
                k = k + 1;
            }
            proof {
                assert(handles@.take(handles@.len() as int) == handles@);
                let mapped = handles@.map_values(|h: ActiveEffectHandle| h.target());
                assert forall|e: EntityId| all@.contains(e) <==> exists|i2: int, s: int|
                    0 <= i2 < i + 1 && 0 <= s < self.storages@[i2].effects.slot_count() && #[trigger] self.storages@[i2].effects.targets_at(s, e) by {
                    if all@.contains(e) {
                        let x = choose|x: int| 0 <= x < all@.len() && all@[x] == e;
                        if x >= before.len() {
                            let a = x - before.len();
                            assert(mapped[a] == e);
                            assert(effects.targets_at(slots[a], e));
                        } else {
                            assert(before[x] == e);
                            assert(before.contains(e));
                        }
                    }
                    if exists|i2: int, s: int|
                        0 <= i2 < i + 1 && 0 <= s < self.storages@[i2].effects.slot_count() && #[trigger] self.storages@[i2].effects.targets_at(s, e) {
                        let (i2, s) = choose|i2: int, s: int|
                            0 <= i2 < i + 1 && 0 <= s < self.storages@[i2].effects.slot_count() && #[trigger] self.storages@[i2].effects.targets_at(s, e);
                        if i2 < i {
                            assert(before.contains(e));
                            let x = choose|x: int| 0 <= x < before.len() && before[x] == e;
                            assert(all@[x] == e);
                        } else {
                            assert(slots.contains(s));
                            let a = choose|a: int| 0 <= a < slots.len() && slots[a] == s;
                            assert(mapped[a] == e);
                            assert(all@[before.len() + a] == e);
                        }
                    }
                }
            }
            i = i + 1;
        }
        sorted_unique_entities(all.as_slice())
    }

    /// Decides, for every effect stored on its own target, what its requirements ask for.
    ///
    /// Targets are visited by bits and each target's effects in slot order; effects whose
    /// requirements ask for nothing are left out.
    pub fn requirement_decisions(&self, tag_manager: &GameplayTagManager) -> (decisions: Vec<RequirementDecisionEntry>)
        requires
            self.wf(*tag_manager),
        ensures
            forall|k: int| 0 <= k < decisions@.len() ==> {
                let d = #[trigger] decisions@[k];
                &&& self.live_own(d.handle)
                &&& self.decision_of(self.storage_of(d.handle.target())->0.lookup(d.handle)->0) == Some(d.decision)
            },
            forall|a: int, b: int| 0 <= a < b < decisions@.len() ==> (#[trigger] decisions@[a]).handle != (
            #[trigger] decisions@[b]).handle,
            forall|a: int, b: int| 0 <= a < b < decisions@.len() ==> (#[trigger] decisions@[a]).handle.precedes(
                (#[trigger] decisions@[b]).handle,
            ),
            forall|h: ActiveEffectHandle| #[trigger] self.live_own(h) && self.decision_of(
                self.storage_of(h.target())->0.lookup(h)->0,
            ) is Some ==> exists|k: int| 0 <= k < decisions@.len() && (#[trigger] decisions@[k]).handle == h,
    {
        let targets = self.effect_targets();
        let mut decisions: Vec<RequirementDecisionEntry> = Vec::new();
        let mut ti: usize = 0;
        while ti < targets.len()
            invariant
                0 <= ti <= targets@.len(),
                self.wf(*tag_manager),
                forall|i: int, j: int| 0 <= i < j < targets@.len() ==> (#[trigger] targets@[i]).bits() < (#[trigger] targets@[j]).bits(),
                forall|k: int| 0 <= k < decisions@.len() ==> {
                    let d = #[trigger] decisions@[k];
                    &&& self.live_own(d.handle)
                    &&& self.decision_of(self.storage_of(d.handle.target())->0.lookup(d.handle)->0) == Some(d.decision)
                    &&& exists|j: int| 0 <= j < ti && targets@[j] == d.handle.target()
                },
                forall|a: int, b: int| 0 <= a < b < decisions@.len() ==> (#[trigger] decisions@[a]).handle != (
                #[trigger] decisions@[b]).handle,
                forall|a: int, b: int| 0 <= a < b < decisions@.len() ==> (#[trigger] decisions@[a]).handle.precedes(
                    (#[trigger] decisions@[b]).handle,
                ),
                forall|h: ActiveEffectHandle| #[trigger] self.live_own(h) && self.decision_of(
                    self.storage_of(h.target())->0.lookup(h)->0,
                ) is Some && (exists|j: int| 0 <= j < ti && targets@[j] == h.target()) ==> exists|k: int|
                    0 <= k < decisions@.len() && (#[trigger] decisions@[k]).handle == h,
            decreases targets@.len() - ti,
        {
            let t = targets[ti];
            let ghost d0 = decisions@;
            match self.find_storage(t) {
                None => {
                    proof {
                        assert forall|h: ActiveEffectHandle| #[trigger] self.live_own(h) && self.decision_of(
                            self.storage_of(h.target())->0.lookup(h)->0,
                        ) is Some && (exists|j: int| 0 <= j < ti + 1 && targets@[j] == h.target()) implies exists|k: int|
                            0 <= k < decisions@.len() && (#[trigger] decisions@[k]).handle == h by {
                            if h.target() == t {
                                assert(self.storage_of(t) is None);
                            } else {
                                let j = choose|j: int| 0 <= j < ti + 1 && targets@[j] == h.target();
                                assert(j < ti);
                            }
                        }
                        assert forall|k: int| 0 <= k < decisions@.len() implies exists|j: int|
                            0 <= j < ti + 1 && targets@[j] == (#[trigger] decisions@[k]).handle.target() by {
                            let j = choose|j: int| 0 <= j < ti && targets@[j] == decisions@[k].handle.target();
                        }
                    }
                },
                Some(si) => {
                    let effects = &self.storages[si].effects;
                    proof {
                        self.lemma_storage_of(si as int);
                    }
                    let handles = effects.handles(t);
                    let ghost slots = effects.slots_targeting(t, effects.slot_count() as int);
                    proof {
                        effects.lemma_slots_targeting(t, effects.slot_count() as int);
                    }
                    let mut k: usize = 0;
                    while k < handles.len()
                        invariant
                            0 <= k <= handles@.len(),
                            0 <= ti < targets@.len(),
                            t == targets@[ti as int],
                            si < self.storages@.len(),
                            self.storages@[si as int].entity == t,
                            self.storage_of(t) == Some(*effects),
                            self.wf(*tag_manager),
                            effects.wf(),
                            effects.lists_handles_of(t, handles@),
                            slots == effects.slots_targeting(t, effects.slot_count() as int),
                            forall|a: int, b: int| 0 <= a < b < slots.len() ==> #[trigger] slots[a] < #[trigger] slots[b],
                            forall|a: int| 0 <= a < slots.len() ==> 0 <= #[trigger] slots[a] < effects.slot_count()
                                && effects.targets_at(slots[a], t),
                            forall|x: int| 0 <= x < effects.slot_count() && effects.targets_at(x, t) ==> slots.contains(x),
                            forall|i: int, j: int| 0 <= i < j < targets@.len() ==> (#[trigger] targets@[i]).bits() < (
                            #[trigger] targets@[j]).bits(),
                            decisions@.len() >= d0.len(),
                            forall|q: int| 0 <= q < d0.len() ==> decisions@[q] == d0[q],
                            forall|q: int| 0 <= q < d0.len() ==> exists|j: int|
                                0 <= j < ti && targets@[j] == (#[trigger] d0[q]).handle.target(),
                            forall|q: int| d0.len() <= q < decisions@.len() ==> (#[trigger] decisions@[q]).handle.target() == t
                                && exists|a: int| 0 <= a < k && decisions@[q].handle == handles@[a],
                            forall|q: int| 0 <= q < decisions@.len() ==> {
                                let d = #[trigger] decisions@[q];
                                &&& self.live_own(d.handle)
                                &&& self.decision_of(self.storage_of(d.handle.target())->0.lookup(d.handle)->0) == Some(d.decision)
                            },
                            forall|a: int, b: int| 0 <= a < b < decisions@.len() ==> (#[trigger] decisions@[a]).handle != (
                            #[trigger] decisions@[b]).handle,
                            forall|a: int, b: int| 0 <= a < b < decisions@.len() ==> (#[trigger] decisions@[a]).handle.precedes(
                                (#[trigger] decisions@[b]).handle,
                            ),
                            forall|a: int| 0 <= a < k && self.decision_of(effects.lookup(#[trigger] handles@[a])->0) is Some
                                ==> exists|q: int| 0 <= q < decisions@.len() && decisions@[q].handle == handles@[a],
                        decreases handles@.len() - k,
                    {
                        let handle = handles[k];
                        assert(effects.lookup(handle) is Some) by {
                            assert(effects.effect_at(slots[k as int]) is Some);
                        }
                        let effect = effects.get(handle).unwrap();
                        let ghost dk = decisions@;
                        match requirement_decision(effect, self.tags_of(effect.get_source()), self.tags_of(effect.get_target())) {
                            None => {},
                            Some(decision) => {
                                decisions.push(RequirementDecisionEntry { handle, decision });
                                proof {
                                    assert forall|a: int, b: int| 0 <= a < b < decisions@.len() implies (#[trigger] decisions@[a]).handle.precedes(
                                        (#[trigger] decisions@[b]).handle,
                                    ) by {
                                        if b == decisions@.len() - 1 {
                                            assert(decisions@[a] == dk[a]);
                                            if a < d0.len() {
                                                let j = choose|j: int| 0 <= j < ti && targets@[j] == d0[a].handle.target();
                                                assert(targets@[j].bits() < targets@[ti as int].bits());
                                            } else {
                                                let x = choose|x: int| 0 <= x < k && dk[a].handle == handles@[x];
                                                assert(slots[x] < slots[k as int]);
                                            }
                                        } else {
                                            assert(decisions@[a] == dk[a]);
                                            assert(decisions@[b] == dk[b]);
                                        }
                                    }
                                    assert forall|a: int, b: int| 0 <= a < b < decisions@.len() implies (#[trigger] decisions@[a]).handle
                                        != (#[trigger] decisions@[b]).handle by {
                                        if b == decisions@.len() - 1 {
                                            assert(decisions@[a] == dk[a]);
                                            if a < d0.len() {
                                                let j = choose|j: int| 0 <= j < ti && targets@[j] == d0[a].handle.target();
                                                assert(targets@[j].bits() < targets@[ti as int].bits());
                                            } else {
                                                let x = choose|x: int| 0 <= x < k && dk[a].handle == handles@[x];
                                                assert(slots[x] < slots[k as int]);
                                            }
                                        }
                                    }
                                }
                            },
                        }
                        proof {
                            assert forall|q: int| d0.len() <= q < decisions@.len() implies (#[trigger] decisions@[q]).handle.target() == t
                                && exists|a: int| 0 <= a < k + 1 && decisions@[q].handle == handles@[a] by {
                                if q < dk.len() {
                                    assert(decisions@[q] == dk[q]);
                                    let a = choose|a: int| 0 <= a < k && dk[q].handle == handles@[a];
                                } else {
                                    assert(decisions@[q].handle == handles@[k as int]);
                                }
                            }
                            assert forall|a: int| 0 <= a < k + 1 && self.decision_of(effects.lookup(#[trigger] handles@[a])->0) is Some
                                implies exists|q: int| 0 <= q < decisions@.len() && decisions@[q].handle == handles@[a] by {
                                if a < k {
                                    let q = choose|q: int| 0 <= q < dk.len() && dk[q].handle == handles@[a];
                                    assert(decisions@[q] == dk[q]);
                                } else {
                                    assert(decisions@[decisions@.len() - 1].handle == handles@[a]);
                                }
                            }
                        }
                        k = k + 1;
                    }
                    proof {
                        assert forall|h: ActiveEffectHandle| #[trigger] self.live_own(h) && self.decision_of(
                            self.storage_of(h.target())->0.lookup(h)->0,
                        ) is Some && (exists|j: int| 0 <= j < ti + 1 && targets@[j] == h.target()) implies exists|q: int|
                            0 <= q < decisions@.len() && (#[trigger] decisions@[q]).handle == h by {
                            if h.target() == t {
                                let x = h.slot() as int;
                                assert(effects.targets_at(x, t));
                                assert(slots.contains(x));
                                let a = choose|a: int| 0 <= a < slots.len() && slots[a] == x;
                                ActiveEffectHandle::lemma_eq(handles@[a], h);
                                let q = choose|q: int| 0 <= q < decisions@.len() && decisions@[q].handle == handles@[a];
                            } else {
                                let j = choose|j: int| 0 <= j < ti + 1 && targets@[j] == h.target();
                                assert(j < ti);
                                let q = choose|q: int| 0 <= q < d0.len() && (#[trigger] d0[q]).handle == h;
                                assert(decisions@[q] == d0[q]);
                            }
                        }
                        assert forall|q: int| 0 <= q < decisions@.len() implies exists|j: int|
                            0 <= j < ti + 1 && targets@[j] == (#[trigger] decisions@[q]).handle.target() by {
                            if q < d0.len() {
                                let j = choose|j: int| 0 <= j < ti && targets@[j] == d0[q].handle.target();
                                assert(decisions@[q] == d0[q]);
                            } else {
                                assert(targets@[ti as int] == decisions@[q].handle.target());
                            }
                        }
                    }
                },
            }
            ti = ti + 1;
        }
        proof {
            assert forall|h: ActiveEffectHandle| #[trigger] self.live_own(h) && self.decision_of(
                self.storage_of(h.target())->0.lookup(h)->0,
            ) is Some implies exists|k: int| 0 <= k < decisions@.len() && (#[trigger] decisions@[k]).handle == h by {
                let st = self.storage_of(h.target())->0;
                let i = choose|i: int| 0 <= i < self.storages@.len() && (#[trigger] self.storages@[i]).entity == h.target();
                assert(st.targets_at(h.slot() as int, h.target()));
                assert(self.stores_effect_of(h.target()));
                assert(targets@.contains(h.target()));
                let j = choose|j: int| 0 <= j < targets@.len() && targets@[j] == h.target();
            }
        }
        decisions
    }

    /// Whether `self` and `other` hold storages and containers for the same entities, in the
    /// same order, and the same attribute holders.
    pub open spec fn same_layout(self, other: Self) -> bool {
        &&& self.storages@.len() == other.storages@.len()
        &&& forall|i: int| 0 <= i < self.storages@.len() ==> (#[trigger] self.storages@[i]).entity == other.storages@[i].entity
        &&& self.containers@.len() == other.containers@.len()
        &&& forall|i: int| 0 <= i < self.containers@.len() ==> (#[trigger] self.containers@[i]).entity == other.containers@[i].entity
        &&& self.attribute_holders@ == other.attribute_holders@
    }

    /// Every effect stored on its own target in `self` was stored so in `earlier`, the same
    /// but for, at most, whether it is inhibited.
    pub open spec fn differs_only_in_inhibition(self, earlier: Self) -> bool {
        forall|h: ActiveEffectHandle| #[trigger] self.live_own(h) ==> {
            let now = self.storage_of(h.target())->0.lookup(h)->0;
            &&& earlier.live_own(h)
            &&& now == earlier.storage_of(h.target())->0.lookup(h)->0.with_inhibited(now.inhibited())
        }
    }

    /// A world differs from itself only in inhibition.
    pub proof fn lemma_differs_only_in_inhibition_refl(self)
        ensures
            self.differs_only_in_inhibition(self),
    {
        assert forall|h: ActiveEffectHandle| #[trigger] self.live_own(h) implies {
            let now = self.storage_of(h.target())->0.lookup(h)->0;
            &&& self.live_own(h)
            &&& now == self.storage_of(h.target())->0.lookup(h)->0.with_inhibited(now.inhibited())
        } by {
            let now = self.storage_of(h.target())->0.lookup(h)->0;
            now.lemma_with_inhibited(now.inhibited(), now.inhibited());
        }
    }

    /// Differing only in inhibition is transitive.
    pub proof fn lemma_differs_only_in_inhibition_trans(self, middle: Self, earlier: Self)
        requires
            self.differs_only_in_inhibition(middle),
            middle.differs_only_in_inhibition(earlier),
        ensures
            self.differs_only_in_inhibition(earlier),
    {
        assert forall|h: ActiveEffectHandle| #[trigger] self.live_own(h) implies {
            let now = self.storage_of(h.target())->0.lookup(h)->0;
            &&& earlier.live_own(h)
            &&& now == earlier.storage_of(h.target())->0.lookup(h)->0.with_inhibited(now.inhibited())
        } by {
            assert(middle.live_own(h));
            let m = middle.storage_of(h.target())->0.lookup(h)->0;
            let e = earlier.storage_of(h.target())->0.lookup(h)->0;
            let now = self.storage_of(h.target())->0.lookup(h)->0;
            e.lemma_with_inhibited(m.inhibited(), now.inhibited());
        }
    }

    /// Whether the storage of entity `e` holds the effect that `h` names.
    pub open spec fn stores(self, e: EntityId, h: ActiveEffectHandle) -> bool {
        self.storage_of(e) matches Some(st) && st.lookup(h) is Some
    }

    /// Every effect stored in `self` was stored under the same handle in the same entity's
    /// storage in `earlier`.
    pub open spec fn holds_no_new_effects(self, earlier: Self) -> bool {
        forall|e: EntityId, h: ActiveEffectHandle| #[trigger] self.stores(e, h) ==> earlier.stores(e, h)
    }

    /// Restoring the inhibited effect `e` succeeds against the target tags `tags`: an attribute
    /// set is present where its modifiers are retained outside a period, and its granted tags,
    /// if any, are registered and fit the target's tags.
    pub open spec fn restore_allowed(
        e: ActiveGameplayEffect,
        tags: Option<GameplayTagContainer>,
        has_attribute_set: bool,
        tag_manager: GameplayTagManager,
    ) -> bool {
        let g = e.spec_of().tags().granted_tags();
        &&& !(e.period_state() is None && e.spec_of().modifier_count() > 0 && !has_attribute_set)
        &&& g.len() > 0 ==> (tags matches Some(c) && all_registered(tag_manager, g) && c.batch_fits(tag_manager, g))
    }

    /// Carries out one requirement decision on the effect it names, and returns whether that
    /// effect was still stored on its target.
    ///
    /// Removal releases the effect's granted tags first; when that fails the effect is removed
    /// regardless. A failed inhibit or restore transition also removes the effect.
    pub fn apply_requirement_decision(&mut self, entry: RequirementDecisionEntry, tag_manager: &GameplayTagManager) -> (applied: bool)
        requires
            old(self).wf(*tag_manager),
            tag_manager.wf(),
        ensures
            final(self).wf(*tag_manager),
            final(self).same_layout(*old(self)),
            applied == old(self).live_own(entry.handle),
            !applied ==> *final(self) == *old(self),
            final(self).holds_no_new_effects(*old(self)),
            forall|e: EntityId| e != entry.handle.target() ==> #[trigger] final(self).storage_of(e) == old(self).storage_of(e),
            forall|e: EntityId| e != entry.handle.target() ==> #[trigger] final(self).container_of(e) == old(self).container_of(e),
            final(self).storage_of(entry.handle.target()) is Some == old(self).storage_of(entry.handle.target()) is Some,
            applied ==> {
                let before = old(self).storage_of(entry.handle.target())->0;
                let after = final(self).storage_of(entry.handle.target())->0;
                &&& forall|h: ActiveEffectHandle| #[trigger] before.lookup(h) is Some && h.slot() != entry.handle.slot()
                    ==> after.lookup(h) == before.lookup(h)
                &&& forall|h: ActiveEffectHandle| #[trigger] before.retired(h) ==> after.retired(h)
                &&& entry.decision == ActiveEffectRequirementDecision::Remove ==> after.retired(entry.handle)
                &&& entry.decision != ActiveEffectRequirementDecision::Remove ==> (after.retired(entry.handle)
                    || after.lookup(entry.handle) == Some(
                    before.lookup(entry.handle)->0.with_inhibited(entry.decision == ActiveEffectRequirementDecision::Inhibit),
                ))
            },
            applied ==> {
                let before = old(self).storage_of(entry.handle.target())->0;
                let after = final(self).storage_of(entry.handle.target())->0;
                let e = before.lookup(entry.handle)->0;
                let g = e.spec_of().tags().granted_tags();
                let t0 = old(self).container_of(entry.handle.target());
                let t1 = final(self).container_of(entry.handle.target());
                let has_attribute_set = old(self).attribute_holders@.contains(entry.handle.target());
                &&& t1 is Some == t0 is Some
                &&& entry.decision == ActiveEffectRequirementDecision::Remove ==> {
                    &&& (!e.inhibited() && t0 is Some && all_registered(*tag_manager, g)) ==> released(t0->0, t1->0, g)
                    &&& !(!e.inhibited() && t0 is Some && all_registered(*tag_manager, g)) ==> t1 == t0
                }
                &&& (entry.decision == ActiveEffectRequirementDecision::Inhibit && (t0 is None || all_registered(
                    *tag_manager,
                    g,
                ))) ==> {
                    &&& after.lookup(entry.handle) == Some(e.with_inhibited(true))
                    &&& t0 is Some ==> released(t0->0, t1->0, g)
                }
                &&& (entry.decision == ActiveEffectRequirementDecision::Uninhibit && EffectWorld::restore_allowed(
                    e,
                    t0,
                    has_attribute_set,
                    *tag_manager,
                )) ==> {
                    &&& after.lookup(entry.handle) == Some(e.with_inhibited(false))
                    &&& g.len() > 0 ==> granted(t0->0, t1->0, g, *tag_manager)
                    &&& g.len() == 0 ==> t1 == t0
                }
            },
    {
        let target = entry.handle.get_target();
        let si = match self.find_storage(target) {
            None => {
                return false;
            },
            Some(si) => si,
        };
        proof {
            self.lemma_storage_of(si as int);
        }
        if self.storages[si].effects.get(entry.handle).is_none() {
            return false;
        }
        let ci = self.find_container(target);
        let has_attributes = self.has_attribute_set(target);
        let ghost old_world = *self;
        proof {
            match ci {
                Some(c) => {
                    self.lemma_container_of(c as int);
                },
                None => {},
            }
        }
        let mut tags: Option<GameplayTagContainer> = match ci {
            None => None,
            Some(c) => {
                let mut taken = GameplayTagContainer::default();
                let ce = &mut self.containers[c];
                std::mem::swap(&mut taken, &mut ce.tags);
                Some(taken)
            },
        };
        let ghost mid_world = *self;
        let se = &mut self.storages[si];
        let ghost before = se.effects;
        match entry.decision {
            ActiveEffectRequirementDecision::Remove => {
                match remove_active_effect(&mut se.effects, entry.handle, &mut tags, tag_manager) {
                    Ok(_) => {},
                    Err(_) => {
                        force_remove_effect(&mut se.effects, entry.handle, &mut tags, tag_manager);
                    },
                }
            },
            _ => {
                match apply_inhibit_transition(&mut se.effects, entry.handle, entry.decision, &mut tags, has_attributes, tag_manager) {
                    Ok(()) => {},
                    Err(_) => {
                        force_remove_effect(&mut se.effects, entry.handle, &mut tags, tag_manager);
                    },
                }
            },
        }
        match ci {
            None => {},
            Some(c) => {
                let ce = &mut self.containers[c];
                ce.tags = tags.unwrap();
            },
        }
        proof {
            assert forall|i: int| 0 <= i < self.storages@.len() && i != si implies #[trigger] self.storages@[i] == old_world.storages@[i] by {
            }
            assert forall|e: EntityId| e != entry.handle.target() implies #[trigger] self.storage_of(e) == old(self).storage_of(e) by {
                if exists|i: int| 0 <= i < self.storages@.len() && (#[trigger] self.storages@[i]).entity == e {
                    let i = choose|i: int| 0 <= i < self.storages@.len() && (#[trigger] self.storages@[i]).entity == e;
                    assert(i != si);
                    assert(old(self).storages@[i].entity == e);
                    self.lemma_storage_of(i);
                    old(self).lemma_storage_of(i);
                } else {
                    assert forall|i: int| 0 <= i < old(self).storages@.len() implies (#[trigger] old(self).storages@[i]).entity != e by {
                        assert(self.storages@[i].entity == old(self).storages@[i].entity);
                    }
                }
            }
            self.lemma_storage_of(si as int);
            self.lemma_containers_except(old_world, target);
            match ci {
                Some(c) => {
                    self.lemma_container_of(c as int);
                },
                None => {
                    assert forall|i: int| 0 <= i < self.containers@.len() implies (#[trigger] self.containers@[i]).entity != target by {
                        assert(self.containers@[i] == old_world.containers@[i]);
                    }
                },
            }
        }
        true
    }

    /// Runs one requirement pass: decides every effect stored on its own target against the
    /// current tags, then carries the decisions out in order. Returns the handles that changed.
    pub fn resolve_tag_requirement_pass(&mut self, tag_manager: &GameplayTagManager) -> (changed: Vec<ActiveEffectHandle>)
        requires
            old(self).wf(*tag_manager),
            tag_manager.wf(),
        ensures
            final(self).wf(*tag_manager),
            final(self).same_layout(*old(self)),
            final(self).holds_no_new_effects(*old(self)),
            changed@.len() == 0 ==> *final(self) == *old(self),
            forall|a: int, b: int| 0 <= a < b < changed@.len() ==> (#[trigger] changed@[a]).precedes(#[trigger] changed@[b]),
            final(self).differs_only_in_inhibition(*old(self)),
            forall|k: int| 0 <= k < changed@.len() ==> old(self).live_own(#[trigger] changed@[k]) && old(self).decision_of(
                old(self).storage_of(changed@[k].target())->0.lookup(changed@[k])->0,
            ) is Some,
            forall|h: ActiveEffectHandle| #[trigger] old(self).live_own(h) ==> {
                let e = old(self).storage_of(h.target())->0.lookup(h)->0;
                let after = final(self).storage_of(h.target())->0;
                &&& final(self).storage_of(h.target()) is Some
                &&& old(self).decision_of(e) is None ==> after.lookup(h) == Some(e)
                &&& old(self).decision_of(e) is Some ==> changed@.contains(h)
                &&& old(self).decision_of(e) == Some(ActiveEffectRequirementDecision::Remove) ==> after.retired(h)
                &&& old(self).decision_of(e) == Some(ActiveEffectRequirementDecision::Inhibit) ==> (after.retired(h)
                    || after.lookup(h) == Some(e.with_inhibited(true)))
                &&& old(self).decision_of(e) == Some(ActiveEffectRequirementDecision::Uninhibit) ==> (after.retired(h)
                    || after.lookup(h) == Some(e.with_inhibited(false)))
                &&& (old(self).decision_of(e) == Some(ActiveEffectRequirementDecision::Inhibit) && (old(self).container_of(
                    h.target(),
                ) is None || all_registered(*tag_manager, e.spec_of().tags().granted_tags()))) ==> after.lookup(h) == Some(
                    e.with_inhibited(true),
                )
                &&& (old(self).decision_of(e) == Some(ActiveEffectRequirementDecision::Uninhibit)
                    && e.spec_of().tags().granted_tags().len() == 0 && EffectWorld::restore_allowed(
                    e,
                    old(self).container_of(h.target()),
                    old(self).attribute_holders@.contains(h.target()),
                    *tag_manager,
                )) ==> after.lookup(h) == Some(e.with_inhibited(false))
            },
    {
        let decisions = self.requirement_decisions(tag_manager);
        let mut changed: Vec<ActiveEffectHandle> = Vec::new();
        let mut j: usize = 0;
        while j < decisions.len()
            invariant
                0 <= j <= decisions@.len(),
                tag_manager.wf(),
                old(self).wf(*tag_manager),
                self.wf(*tag_manager),
                self.same_layout(*old(self)),
                self.holds_no_new_effects(*old(self)),
                j == 0 ==> *self == *old(self),
                forall|k: int| 0 <= k < decisions@.len() ==> {
                    let d = #[trigger] decisions@[k];
                    &&& old(self).live_own(d.handle)
                    &&& old(self).decision_of(old(self).storage_of(d.handle.target())->0.lookup(d.handle)->0) == Some(d.decision)
                },
                forall|a: int, b: int| 0 <= a < b < decisions@.len() ==> (#[trigger] decisions@[a]).handle != (
                #[trigger] decisions@[b]).handle,
                forall|h: ActiveEffectHandle| #[trigger] old(self).live_own(h) && old(self).decision_of(
                    old(self).storage_of(h.target())->0.lookup(h)->0,
                ) is Some ==> exists|k: int| 0 <= k < decisions@.len() && (#[trigger] decisions@[k]).handle == h,
                changed@ == decisions@.take(j as int).map_values(|d: RequirementDecisionEntry| d.handle),
                forall|e: EntityId| #[trigger] self.storage_of(e) is Some == old(self).storage_of(e) is Some,
                forall|h: ActiveEffectHandle| #[trigger] old(self).live_own(h) ==> {
                    let e = old(self).storage_of(h.target())->0.lookup(h)->0;
                    let now = self.storage_of(h.target())->0;
                    &&& (!exists|a: int| 0 <= a < j && (#[trigger] decisions@[a]).handle == h) ==> now.lookup(h) == Some(e)
                    &&& (exists|a: int| 0 <= a < j && (#[trigger] decisions@[a]).handle == h) ==> {
                        &&& old(self).decision_of(e) == Some(ActiveEffectRequirementDecision::Remove) ==> now.retired(h)
                        &&& old(self).decision_of(e) == Some(ActiveEffectRequirementDecision::Inhibit) ==> (now.retired(h)
                            || now.lookup(h) == Some(e.with_inhibited(true)))
                        &&& old(self).decision_of(e) == Some(ActiveEffectRequirementDecision::Uninhibit) ==> (now.retired(h)
                            || now.lookup(h) == Some(e.with_inhibited(false)))
                        &&& (old(self).decision_of(e) == Some(ActiveEffectRequirementDecision::Inhibit) && (old(
                            self,
                        ).container_of(h.target()) is None || all_registered(*tag_manager, e.spec_of().tags().granted_tags())))
                            ==> now.lookup(h) == Some(e.with_inhibited(true))
                        &&& (old(self).decision_of(e) == Some(ActiveEffectRequirementDecision::Uninhibit)
                            && e.spec_of().tags().granted_tags().len() == 0 && EffectWorld::restore_allowed(
                            e,
                            old(self).container_of(h.target()),
                            old(self).attribute_holders@.contains(h.target()),
                            *tag_manager,
                        )) ==> now.lookup(h) == Some(e.with_inhibited(false))
                    }
                },
            decreases decisions@.len() - j,
        {
            let d = decisions[j];
            let ghost w0 = *self;
            proof {
                let e0 = old(self).storage_of(d.handle.target())->0.lookup(d.handle)->0;
                assert(old(self).live_own(d.handle));
                assert(!exists|a: int| 0 <= a < j && (#[trigger] decisions@[a]).handle == d.handle) by {
                    if exists|a: int| 0 <= a < j && (#[trigger] decisions@[a]).handle == d.handle {
                        let a = choose|a: int| 0 <= a < j && (#[trigger] decisions@[a]).handle == d.handle;
                    }
                }
                assert(w0.live_own(d.handle));
            }
            let applied = self.apply_requirement_decision(d, tag_manager);
            changed.push(d.handle);
            proof {
                w0.lemma_same_layout_containers(*old(self));
                assert(decisions@.take(j + 1).map_values(|x: RequirementDecisionEntry| x.handle) == decisions@.take(
                    j as int,
                ).map_values(|x: RequirementDecisionEntry| x.handle).push(d.handle));
                assert forall|e: EntityId| #[trigger] self.storage_of(e) is Some == old(self).storage_of(e) is Some by {
                    if e != d.handle.target() {
                        assert(self.storage_of(e) == w0.storage_of(e));
                    }
                }
                assert forall|h: ActiveEffectHandle| #[trigger] old(self).live_own(h) implies {
                    let e = old(self).storage_of(h.target())->0.lookup(h)->0;
                    let now = self.storage_of(h.target())->0;
                    &&& (!exists|a: int| 0 <= a < j + 1 && (#[trigger] decisions@[a]).handle == h) ==> now.lookup(h) == Some(e)
                    &&& (exists|a: int| 0 <= a < j + 1 && (#[trigger] decisions@[a]).handle == h) ==> {
                        &&& old(self).decision_of(e) == Some(ActiveEffectRequirementDecision::Remove) ==> now.retired(h)
                        &&& old(self).decision_of(e) == Some(ActiveEffectRequirementDecision::Inhibit) ==> (now.retired(h)
                            || now.lookup(h) == Some(e.with_inhibited(true)))
                        &&& old(self).decision_of(e) == Some(ActiveEffectRequirementDecision::Uninhibit) ==> (now.retired(h)
                            || now.lookup(h) == Some(e.with_inhibited(false)))
                        &&& (old(self).decision_of(e) == Some(ActiveEffectRequirementDecision::Inhibit) && (old(
                            self,
                        ).container_of(h.target()) is None || all_registered(*tag_manager, e.spec_of().tags().granted_tags())))
                            ==> now.lookup(h) == Some(e.with_inhibited(true))
                        &&& (old(self).decision_of(e) == Some(ActiveEffectRequirementDecision::Uninhibit)
                            && e.spec_of().tags().granted_tags().len() == 0 && EffectWorld::restore_allowed(
                            e,
                            old(self).container_of(h.target()),
                            old(self).attribute_holders@.contains(h.target()),
                            *tag_manager,
                        )) ==> now.lookup(h) == Some(e.with_inhibited(false))
                    }
                } by {
                    let e = old(self).storage_of(h.target())->0.lookup(h)->0;
                    let was = w0.storage_of(h.target())->0;
                    let now = self.storage_of(h.target())->0;
                    let processed_before = exists|a: int| 0 <= a < j && (#[trigger] decisions@[a]).handle == h;
                    if h.target() != d.handle.target() {
                        assert(now == was);
                        if exists|a: int| 0 <= a < j + 1 && (#[trigger] decisions@[a]).handle == h {
                            let a = choose|a: int| 0 <= a < j + 1 && (#[trigger] decisions@[a]).handle == h;
                            assert(a != j);
                        }
                    } else if h == d.handle {
                        assert(decisions@[j as int].handle == h);
                        assert(!processed_before);
                        assert(was.lookup(h) == Some(e));
                    } else {
                        let old_st = old(self).storage_of(h.target())->0;
                        if processed_before {
                            let a = choose|a: int| 0 <= a < j && (#[trigger] decisions@[a]).handle == h;
                            if was.lookup(h) is Some && h.slot() == d.handle.slot() {
                                assert(was.lookup(d.handle) is Some);
                                ActiveEffectHandle::lemma_eq(h, d.handle);
                            }
                        } else {
                            if h.slot() == d.handle.slot() {
                                assert(old_st.lookup(d.handle) is Some);
                                ActiveEffectHandle::lemma_eq(h, d.handle);
                            }
                            if exists|a: int| 0 <= a < j + 1 && (#[trigger] decisions@[a]).handle == h {
                                let a = choose|a: int| 0 <= a < j + 1 && (#[trigger] decisions@[a]).handle == h;
                                assert(a != j);
                            }
                        }
                    }
                }
            }
            j = j + 1;
        }
        proof {
            assert(decisions@.take(decisions@.len() as int) == decisions@);
            assert forall|h: ActiveEffectHandle| #[trigger] self.live_own(h) implies {
                let now = self.storage_of(h.target())->0.lookup(h)->0;
                &&& old(self).live_own(h)
                &&& now == old(self).storage_of(h.target())->0.lookup(h)->0.with_inhibited(now.inhibited())
            } by {
                assert(self.stores(h.target(), h));
                assert(old(self).stores(h.target(), h));
                assert(old(self).live_own(h));
                let e = old(self).storage_of(h.target())->0.lookup(h)->0;
                let st = self.storage_of(h.target())->0;
                e.lemma_with_inhibited(true, true);
                e.lemma_with_inhibited(false, false);
                e.lemma_with_inhibited(e.inhibited(), e.inhibited());
                if exists|a: int| 0 <= a < decisions@.len() && (#[trigger] decisions@[a]).handle == h {
                    let a = choose|a: int| 0 <= a < decisions@.len() && (#[trigger] decisions@[a]).handle == h;
                    assert(st.lookup(h) is Some);
                    assert(!st.retired(h));
                }
            }
            assert forall|k: int| 0 <= k < changed@.len() implies old(self).live_own(#[trigger] changed@[k]) && old(self).decision_of(
                old(self).storage_of(changed@[k].target())->0.lookup(changed@[k])->0,
            ) is Some by {
                assert(changed@[k] == decisions@[k].handle);
            }
            assert forall|h: ActiveEffectHandle| #[trigger] old(self).live_own(h) implies {
                let e = old(self).storage_of(h.target())->0.lookup(h)->0;
                old(self).decision_of(e) is Some ==> changed@.contains(h)
            } by {
                let e = old(self).storage_of(h.target())->0.lookup(h)->0;
                if old(self).decision_of(e) is Some {
                    let k = choose|k: int| 0 <= k < decisions@.len() && (#[trigger] decisions@[k]).handle == h;
                    assert(changed@[k] == h);
                }
            }
            assert forall|h: ActiveEffectHandle| #[trigger] old(self).live_own(h) implies {
                let e = old(self).storage_of(h.target())->0.lookup(h)->0;
                old(self).decision_of(e) is None ==> !exists|a: int| 0 <= a < decisions@.len() && (#[trigger] decisions@[a]).handle == h
            } by {
                let e = old(self).storage_of(h.target())->0.lookup(h)->0;
                if old(self).decision_of(e) is None && exists|a: int| 0 <= a < decisions@.len() && (#[trigger] decisions@[a]).handle == h {
                    let a = choose|a: int| 0 <= a < decisions@.len() && (#[trigger] decisions@[a]).handle == h;
                }
            }
        }
        changed
    }

    /// The effect stored under `h` on its own target is among `handles` and releases its granted
    /// tags when removed: it is active and its granted tags are registered.
    pub open spec fn removal_releases(
        self,
        h: ActiveEffectHandle,
        handles: Set<ActiveEffectHandle>,
        tag_manager: GameplayTagManager,
    ) -> bool {
        &&& self.live_own(h)
        &&& handles.contains(h)
        &&& !self.storage_of(h.target())->0.lookup(h)->0.inhibited()
        &&& all_registered(tag_manager, self.granted_of(h))
    }

    /// The tags of `t` in `after` are those of `self` with the granted tags of `t`'s effects
    /// among `handles` released: no explicit count rises, each releasing effect takes the
    /// occurrences of its granted tags off a count (down to zero), and a count that no releasing
    /// effect grants stays as it was.
    pub open spec fn removed_tags_released(
        self,
        after: Self,
        t: EntityId,
        handles: Set<ActiveEffectHandle>,
        tag_manager: GameplayTagManager,
    ) -> bool {
        &&& after.container_of(t) is Some == self.container_of(t) is Some
        &&& self.container_of(t) is Some ==> forall|j: int|
            #![trigger after.container_of(t)->0.explicit(j)]
            0 <= j < MAX_TAG_COUNTS ==> {
                let c0 = self.container_of(t)->0.explicit(j);
                let c = after.container_of(t)->0.explicit(j);
                &&& c <= c0
                &&& forall|h: ActiveEffectHandle| #[trigger] self.removal_releases(h, handles, tag_manager) && h.target() == t
                    ==> c == 0 || c + occurrences(self.granted_of(h), j) <= c0
                &&& (forall|h: ActiveEffectHandle| #[trigger] self.removal_releases(h, handles, tag_manager) && h.target() == t
                    ==> occurrences(self.granted_of(h), j) == 0) ==> c == c0
            }
    }

    /// Removing one more effect, `handle`, which releases its granted tags from its target or
    /// leaves them alone, keeps the tags released as `removed_tags_released` asks.
    proof fn lemma_removal_step(
        self,
        w0: Self,
        w1: Self,
        handle: ActiveEffectHandle,
        done: Set<ActiveEffectHandle>,
        tag_manager: GameplayTagManager,
    )
        requires
            forall|t: EntityId| #[trigger] self.removed_tags_released(w0, t, done, tag_manager),
            !done.contains(handle),
            forall|e: EntityId| e != handle.target() ==> #[trigger] w1.container_of(e) == w0.container_of(e),
            w1.container_of(handle.target()) is Some == w0.container_of(handle.target()) is Some,
            (self.removal_releases(handle, done.insert(handle), tag_manager) && w0.container_of(handle.target()) is Some)
                ==> released(w0.container_of(handle.target())->0, w1.container_of(handle.target())->0, self.granted_of(handle)),
            !(self.removal_releases(handle, done.insert(handle), tag_manager) && w0.container_of(handle.target()) is Some)
                ==> w1.container_of(handle.target()) == w0.container_of(handle.target()),
        ensures
            forall|t: EntityId| #[trigger] self.removed_tags_released(w1, t, done.insert(handle), tag_manager),
    {
        let next = done.insert(handle);
        assert forall|h: ActiveEffectHandle| h != handle implies #[trigger] self.removal_releases(h, next, tag_manager)
            == self.removal_releases(h, done, tag_manager) by {
        }
        assert forall|t: EntityId| #[trigger] self.removed_tags_released(w1, t, next, tag_manager) by {
            assert(self.removed_tags_released(w0, t, done, tag_manager));
            if t != handle.target() {
                assert(w1.container_of(t) == w0.container_of(t));
                if self.container_of(t) is Some {
                    assert forall|j: int|
                        #![trigger w1.container_of(t)->0.explicit(j)]
                        0 <= j < MAX_TAG_COUNTS implies {
                            let c0 = self.container_of(t)->0.explicit(j);
                            let c = w1.container_of(t)->0.explicit(j);
                            &&& c <= c0
                            &&& forall|h: ActiveEffectHandle| #[trigger] self.removal_releases(h, next, tag_manager) && h.target() == t
                                ==> c == 0 || c + occurrences(self.granted_of(h), j) <= c0
                            &&& (forall|h: ActiveEffectHandle| #[trigger] self.removal_releases(h, next, tag_manager) && h.target() == t
                                ==> occurrences(self.granted_of(h), j) == 0) ==> c == c0
                        } by {
                        assert(w0.container_of(t)->0.explicit(j) == w1.container_of(t)->0.explicit(j));
                        assert forall|h: ActiveEffectHandle| #[trigger] self.removal_releases(h, next, tag_manager) && h.target() == t
                            implies w1.container_of(t)->0.explicit(j) == 0 || w1.container_of(t)->0.explicit(j) + occurrences(
                            self.granted_of(h),
                            j,
                        ) <= self.container_of(t)->0.explicit(j) by {
                            assert(h != handle);
                            assert(self.removal_releases(h, done, tag_manager));
                        }
                        if forall|h: ActiveEffectHandle| #[trigger] self.removal_releases(h, next, tag_manager) && h.target() == t
                            ==> occurrences(self.granted_of(h), j) == 0 {
                            assert forall|h: ActiveEffectHandle| #[trigger] self.removal_releases(h, done, tag_manager) && h.target() == t
                                implies occurrences(self.granted_of(h), j) == 0 by {
                                assert(h != handle);
                                assert(self.removal_releases(h, next, tag_manager));
                            }
                        }
                    }
                }
            } else if self.container_of(t) is Some {
                assert forall|j: int|
                    #![trigger w1.container_of(t)->0.explicit(j)]
                    0 <= j < MAX_TAG_COUNTS implies {
                        let c0 = self.container_of(t)->0.explicit(j);
                        let c = w1.container_of(t)->0.explicit(j);
                        &&& c <= c0
                        &&& forall|h: ActiveEffectHandle| #[trigger] self.removal_releases(h, next, tag_manager) && h.target() == t
                            ==> c == 0 || c + occurrences(self.granted_of(h), j) <= c0
                        &&& (forall|h: ActiveEffectHandle| #[trigger] self.removal_releases(h, next, tag_manager) && h.target() == t
                            ==> occurrences(self.granted_of(h), j) == 0) ==> c == c0
                    } by {
                    let c0 = self.container_of(t)->0.explicit(j);
                    let cm = w0.container_of(t)->0.explicit(j);
                    let c = w1.container_of(t)->0.explicit(j);
                    lemma_occurrences_nonneg(self.granted_of(handle), j);
                    assert(cm <= c0);
                    assert(c <= cm);
                    assert forall|h: ActiveEffectHandle| #[trigger] self.removal_releases(h, next, tag_manager) && h.target() == t
                        implies c == 0 || c + occurrences(self.granted_of(h), j) <= c0 by {
                        lemma_occurrences_nonneg(self.granted_of(h), j);
                        if h != handle {
                            assert(self.removal_releases(h, done, tag_manager));
                        }
                    }
                    if forall|h: ActiveEffectHandle| #[trigger] self.removal_releases(h, next, tag_manager) && h.target() == t
                        ==> occurrences(self.granted_of(h), j) == 0 {
                        assert forall|h: ActiveEffectHandle| #[trigger] self.removal_releases(h, done, tag_manager) && h.target() == t
                            implies occurrences(self.granted_of(h), j) == 0 by {
                            assert(h != handle);
                            assert(self.removal_releases(h, next, tag_manager));
                        }
                        assert(cm == c0);
                        if self.removal_releases(handle, next, tag_manager) {
                            assert(occurrences(self.granted_of(handle), j) == 0);
                        }
                    }
                }
            }
        }
    }

    /// Removes the effects of a non-converging requirement cycle, each once, in handle order.
    ///
    /// Each effect still stored on its target releases its granted tags and leaves storage; when
    /// releasing fails it is removed regardless.
    pub fn remove_nonconverging_active_effects(&mut self, handles: &[ActiveEffectHandle], tag_manager: &GameplayTagManager)
        requires
            old(self).wf(*tag_manager),
            tag_manager.wf(),
        ensures
            final(self).wf(*tag_manager),
            final(self).same_layout(*old(self)),
            final(self).holds_no_new_effects(*old(self)),
            forall|e: EntityId| #[trigger] final(self).storage_of(e) is Some == old(self).storage_of(e) is Some,
            forall|h: ActiveEffectHandle| #[trigger] old(self).live_own(h) ==> {
                let after = final(self).storage_of(h.target())->0;
                &&& handles@.contains(h) ==> after.retired(h)
                &&& !handles@.contains(h) ==> after.lookup(h) == old(self).storage_of(h.target())->0.lookup(h)
            },
            forall|t: EntityId| #[trigger] old(self).removed_tags_released(*final(self), t, handles@.to_set(), *tag_manager),
            final(self).differs_only_in_inhibition(*old(self)),
    {
        let unique = sorted_unique_handles(handles);
        let mut j: usize = 0;
        proof {
            assert(unique@.take(0).to_set() =~= Set::<ActiveEffectHandle>::empty());
            assert forall|t: EntityId| #[trigger] old(self).removed_tags_released(*self, t, unique@.take(0).to_set(), *tag_manager) by {
            }
        }
        while j < unique.len()
            invariant
                0 <= j <= unique@.len(),
                tag_manager.wf(),
                old(self).wf(*tag_manager),
                self.wf(*tag_manager),
                self.same_layout(*old(self)),
                self.holds_no_new_effects(*old(self)),
                forall|a: int, b: int| 0 <= a < b < unique@.len() ==> (#[trigger] unique@[a]).precedes(#[trigger] unique@[b]),
                forall|h: ActiveEffectHandle| unique@.contains(h) <==> handles@.contains(h),
                forall|e: EntityId| #[trigger] self.storage_of(e) is Some == old(self).storage_of(e) is Some,
                forall|h: ActiveEffectHandle| #[trigger] old(self).live_own(h) ==> {
                    let now = self.storage_of(h.target())->0;
                    &&& (exists|a: int| 0 <= a < j && (#[trigger] unique@[a]) == h) ==> now.retired(h)
                    &&& (!exists|a: int| 0 <= a < j && (#[trigger] unique@[a]) == h) ==> now.lookup(h) == old(
                        self,
                    ).storage_of(h.target())->0.lookup(h)
                },
                forall|t: EntityId| #[trigger] old(self).removed_tags_released(*self, t, unique@.take(j as int).to_set(), *tag_manager),
            decreases unique@.len() - j,
        {
            let handle = unique[j];
            let ghost w0 = *self;
            let entry = RequirementDecisionEntry { handle, decision: ActiveEffectRequirementDecision::Remove };
            let applied = self.apply_requirement_decision(entry, tag_manager);
            proof {
                let done = unique@.take(j as int).to_set();
                assert(unique@.take(j + 1).to_set() =~= done.insert(handle)) by {
                    let s1 = unique@.take(j + 1);
                    let s0 = unique@.take(j as int);
                    assert forall|h: ActiveEffectHandle| s1.contains(h) == (s0.contains(h) || h == handle) by {
                        if s1.contains(h) {
                            let k = choose|k: int| 0 <= k < s1.len() && s1[k] == h;
                            if k < j {
                                assert(s0[k] == h);
                            }
                        }
                        if s0.contains(h) {
                            let k = choose|k: int| 0 <= k < s0.len() && s0[k] == h;
                            assert(s1[k] == h);
                        }
                        if h == handle {
                            assert(s1[j as int] == h);
                        }
                    }
                }
                assert(!done.contains(handle)) by {
                    if unique@.take(j as int).contains(handle) {
                        let a = choose|a: int| 0 <= a < j && unique@.take(j as int)[a] == handle;
                        assert(unique@[a] == unique@.take(j as int)[a]);
                        assert(unique@[a].precedes(unique@[j as int]));
                    }
                }
                let t = handle.target();
                if applied {
                    assert(old(self).stores(t, handle)) by {
                        assert(w0.stores(t, handle));
                    }
                    assert(old(self).live_own(handle));
                    assert(!exists|a: int| 0 <= a < j && (#[trigger] unique@[a]) == handle) by {
                        if exists|a: int| 0 <= a < j && (#[trigger] unique@[a]) == handle {
                            let a = choose|a: int| 0 <= a < j && (#[trigger] unique@[a]) == handle;
                            assert(unique@[a].precedes(unique@[j as int]));
                        }
                    }
                } else {
                    if old(self).live_own(handle) {
                        assert(!exists|a: int| 0 <= a < j && (#[trigger] unique@[a]) == handle) by {
                            if exists|a: int| 0 <= a < j && (#[trigger] unique@[a]) == handle {
                                let a = choose|a: int| 0 <= a < j && (#[trigger] unique@[a]) == handle;
                                assert(unique@[a].precedes(unique@[j as int]));
                            }
                        }
                        assert(w0.live_own(handle));
                    }
                }
                old(self).lemma_removal_step(w0, *self, handle, done, *tag_manager);
                assert forall|e: EntityId| #[trigger] self.storage_of(e) is Some == old(self).storage_of(e) is Some by {
                    if e != handle.target() {
                        assert(self.storage_of(e) == w0.storage_of(e));
                    }
                }
                assert forall|h: ActiveEffectHandle| #[trigger] old(self).live_own(h) implies {
                    let now = self.storage_of(h.target())->0;
                    &&& (exists|a: int| 0 <= a < j + 1 && (#[trigger] unique@[a]) == h) ==> now.retired(h)
                    &&& (!exists|a: int| 0 <= a < j + 1 && (#[trigger] unique@[a]) == h) ==> now.lookup(h) == old(
                        self,
                    ).storage_of(h.target())->0.lookup(h)
                } by {
                    let was = w0.storage_of(h.target())->0;
                    let now = self.storage_of(h.target())->0;
                    let done_before = exists|a: int| 0 <= a < j && (#[trigger] unique@[a]) == h;
                    if h.target() != handle.target() {
                        assert(now == was);
                        if exists|a: int| 0 <= a < j + 1 && (#[trigger] unique@[a]) == h {
                            let a = choose|a: int| 0 <= a < j + 1 && (#[trigger] unique@[a]) == h;
                            assert(a != j);
                        }
                    } else if h == handle {
                        assert(unique@[j as int] == h);
                        if !done_before {
                            assert(w0.live_own(h));
                        } else {
                            let a = choose|a: int| 0 <= a < j && (#[trigger] unique@[a]) == h;
                            assert(unique@[a].precedes(unique@[j as int]));
                        }
                    } else {
                        if done_before {
                        } else {
                            if h.slot() == handle.slot() && was.lookup(handle) is Some {
                                ActiveEffectHandle::lemma_eq(h, handle);
                            }
                            if exists|a: int| 0 <= a < j + 1 && (#[trigger] unique@[a]) == h {
                                let a = choose|a: int| 0 <= a < j + 1 && (#[trigger] unique@[a]) == h;
                                assert(a != j);
                            }
                        }
                    }
                }
            }
            j = j + 1;
        }
        proof {
            assert(unique@.take(unique@.len() as int) == unique@);
            assert forall|h: ActiveEffectHandle| #[trigger] self.live_own(h) implies {
                let now = self.storage_of(h.target())->0.lookup(h)->0;
                &&& old(self).live_own(h)
                &&& now == old(self).storage_of(h.target())->0.lookup(h)->0.with_inhibited(now.inhibited())
            } by {
                assert(self.stores(h.target(), h));
                assert(old(self).stores(h.target(), h));
                assert(old(self).live_own(h));
                let e = old(self).storage_of(h.target())->0.lookup(h)->0;
                e.lemma_with_inhibited(e.inhibited(), e.inhibited());
                let st = self.storage_of(h.target())->0;
                assert(st.lookup(h) is Some);
                assert(!st.retired(h));
                if exists|a: int| 0 <= a < unique@.len() && (#[trigger] unique@[a]) == h {
                    let a = choose|a: int| 0 <= a < unique@.len() && (#[trigger] unique@[a]) == h;
                }
            }
            assert(unique@.to_set() =~= handles@.to_set()) by {
                assert forall|h: ActiveEffectHandle| unique@.to_set().contains(h) == handles@.to_set().contains(h) by {
                    assert(unique@.contains(h) == handles@.contains(h));
                }
            }
            assert forall|h: ActiveEffectHandle| #[trigger] old(self).live_own(h) implies {
                let after = self.storage_of(h.target())->0;
                &&& handles@.contains(h) ==> after.retired(h)
                &&& !handles@.contains(h) ==> after.lookup(h) == old(self).storage_of(h.target())->0.lookup(h)
            } by {
                if handles@.contains(h) {
                    assert(unique@.contains(h));
                    let a = choose|a: int| 0 <= a < unique@.len() && unique@[a] == h;
                } else {
                    if exists|a: int| 0 <= a < unique@.len() && (#[trigger] unique@[a]) == h {
                        let a = choose|a: int| 0 <= a < unique@.len() && (#[trigger] unique@[a]) == h;
                        assert(unique@.contains(h));
                    }
                }
            }
        }
    }

    /// The entities that own a storage.
    pub open spec fn storage_entities(self) -> Seq<EntityId> {
        self.storages@.map_values(|s: EffectStorageEntry| s.entity)
    }

    /// Returns the entities that own a storage, ordered by bits.
    fn storage_order(&self) -> (order: Vec<EntityId>)
        ensures
            forall|i: int, j: int| 0 <= i < j < order@.len() ==> (#[trigger] order@[i]).bits() < (#[trigger] order@[j]).bits(),
            forall|e: EntityId| order@.contains(e) <==> self.storage_entities().contains(e),
    {
        let mut all: Vec<EntityId> = Vec::new();
        let mut i: usize = 0;
        while i < self.storages.len()
            invariant
                0 <= i <= self.storages@.len(),
                all@ == self.storage_entities().take(i as int),
            decreases self.storages@.len() - i,
        {
            all.push(self.storages[i].entity);
            proof {
                assert(self.storage_entities().take(i + 1) == self.storage_entities().take(i as int).push(
                    self.storages@[i as int].entity,
                ));
            }
            i = i + 1;
        }
        assert(self.storage_entities().take(self.storages@.len() as int) == self.storage_entities());
        sorted_unique_entities(all.as_slice())
    }

    /// The granted tags of the effect stored under `h` on its own target.
    pub open spec fn granted_of(self, h: ActiveEffectHandle) -> Seq<GameplayTag> {
        self.storage_of(h.target())->0.lookup(h)->0.spec_of().tags().granted_tags()
    }

    /// The effect stored under `h` on its own target expires on its next duration tick and then
    /// releases its granted tags: it is active and its granted tags are registered.
    pub open spec fn expiry_releases(self, h: ActiveEffectHandle, tag_manager: GameplayTagManager) -> bool {
        &&& self.live_own(h)
        &&& self.storage_of(h.target())->0.lookup(h)->0.duration_tick_outcome() == DurationTickOutcome::Expired
        &&& !self.storage_of(h.target())->0.lookup(h)->0.inhibited()
        &&& all_registered(tag_manager, self.granted_of(h))
    }

    /// The tags of `t` in `after` are those of `self` with the granted tags of `t`'s expiring
    /// effects released: no explicit count rises, each releasing effect takes the occurrences of
    /// its granted tags off a count (down to zero), and a count that no releasing effect grants
    /// stays as it was.
    pub open spec fn expired_tags_released(self, after: Self, t: EntityId, tag_manager: GameplayTagManager) -> bool {
        self.container_of(t) is Some ==> {
            &&& after.container_of(t) is Some
            &&& forall|j: int|
                #![trigger after.container_of(t)->0.explicit(j)]
                0 <= j < MAX_TAG_COUNTS ==> {
                    let c0 = self.container_of(t)->0.explicit(j);
                    let c = after.container_of(t)->0.explicit(j);
                    &&& c <= c0
                    &&& forall|h: ActiveEffectHandle| #[trigger] self.expiry_releases(h, tag_manager) && h.target() == t
                        ==> c == 0 || c + occurrences(self.granted_of(h), j) <= c0
                    &&& (forall|h: ActiveEffectHandle| #[trigger] self.expiry_releases(h, tag_manager) && h.target() == t
                        ==> occurrences(self.granted_of(h), j) == 0) ==> c == c0
                }
        }
    }

    /// Tags of `t` that did not change, with no effect of `t` releasing tags on expiry, are
    /// released as `expired_tags_released` asks.
    pub proof fn lemma_tags_released_unchanged(self, after: Self, t: EntityId, tag_manager: GameplayTagManager)
        requires
            after.container_of(t) == self.container_of(t),
            forall|h: ActiveEffectHandle| #[trigger] self.expiry_releases(h, tag_manager) ==> h.target() != t,
        ensures
            self.expired_tags_released(after, t, tag_manager),
    {
    }

    /// Worlds with the same container entities whose containers differ only in entries of `t`
    /// give every other entity the same tags.
    pub proof fn lemma_containers_except(self, other: Self, t: EntityId)
        requires
            self.containers@.len() == other.containers@.len(),
            forall|i: int| 0 <= i < self.containers@.len() ==> (#[trigger] self.containers@[i]).entity == other.containers@[i].entity,
            forall|a: int, b: int|
                0 <= a < b < self.containers@.len() ==> (#[trigger] self.containers@[a]).entity != (
                #[trigger] self.containers@[b]).entity,
            forall|i: int| 0 <= i < self.containers@.len() && (#[trigger] self.containers@[i]).entity != t
                ==> self.containers@[i] == other.containers@[i],
        ensures
            forall|e: EntityId| e != t ==> #[trigger] self.container_of(e) == other.container_of(e),
    {
        assert forall|a: int, b: int| 0 <= a < b < other.containers@.len() implies (#[trigger] other.containers@[a]).entity != (
            #[trigger] other.containers@[b]).entity by {
            assert(self.containers@[a].entity != self.containers@[b].entity);
        }
        assert forall|e: EntityId| e != t implies #[trigger] self.container_of(e) == other.container_of(e) by {
            if exists|i: int| 0 <= i < self.containers@.len() && (#[trigger] self.containers@[i]).entity == e {
                let i = choose|i: int| 0 <= i < self.containers@.len() && (#[trigger] self.containers@[i]).entity == e;
                self.lemma_container_of(i);
                other.lemma_container_of(i);
                assert(other.containers@[i].entity == e);
            } else {
                assert forall|i: int| 0 <= i < other.containers@.len() implies (#[trigger] other.containers@[i]).entity != e by {
                    assert(self.containers@[i].entity == other.containers@[i].entity);
                }
            }
        }
    }

    /// Advances every finite effect stored on its own target by one fixed tick, target by
    /// target in bits order.
    ///
    /// Expired effects leave storage and release their granted tags. Returns the effects that
    /// lost one stack and whose retained modifiers must be reapplied.
    pub fn tick_effect_durations(&mut self, tag_manager: &GameplayTagManager) -> (refreshed: Vec<StackRefresh>)
        requires
            old(self).wf(*tag_manager),
            tag_manager.wf(),
        ensures
            final(self).wf(*tag_manager),
            final(self).same_layout(*old(self)),
            forall|e: EntityId| #[trigger] final(self).storage_of(e) is Some == old(self).storage_of(e) is Some,
            forall|h: ActiveEffectHandle| #[trigger] old(self).live_own(h) ==> {
                let e = old(self).storage_of(h.target())->0.lookup(h)->0;
                let after = final(self).storage_of(h.target())->0;
                &&& e.duration_tick_outcome() == DurationTickOutcome::Expired ==> after.retired(h)
                &&& e.duration_tick_outcome() != DurationTickOutcome::Expired ==> after.lookup(h) == Some(
                    e.after_duration_tick(),
                )
                &&& e.duration_tick_outcome() == (DurationTickOutcome::StackExpired { refresh_modifiers: true })
                    ==> exists|k: int| 0 <= k < refreshed@.len() && (#[trigger] refreshed@[k]).handle == h
            },
            forall|k: int| 0 <= k < refreshed@.len() ==> {
                let x = #[trigger] refreshed@[k];
                let e = old(self).storage_of(x.handle.target())->0.lookup(x.handle)->0;
                &&& old(self).live_own(x.handle)
                &&& e.duration_tick_outcome() == (DurationTickOutcome::StackExpired { refresh_modifiers: true })
                &&& x.stack_count == e.after_duration_tick().stacks()
            },
            forall|t: EntityId| #[trigger] old(self).expired_tags_released(*final(self), t, *tag_manager),
    {
        let order = self.storage_order();
        let mut refreshed: Vec<StackRefresh> = Vec::new();
        let mut oi: usize = 0;
        while oi < order.len()
            invariant
                0 <= oi <= order@.len(),
                tag_manager.wf(),
                old(self).wf(*tag_manager),
                self.wf(*tag_manager),
                self.same_layout(*old(self)),
                forall|i: int, j: int| 0 <= i < j < order@.len() ==> (#[trigger] order@[i]).bits() < (#[trigger] order@[j]).bits(),
                forall|e: EntityId| #[trigger] self.storage_of(e) is Some == old(self).storage_of(e) is Some,
                forall|h: ActiveEffectHandle| #[trigger] old(self).live_own(h) ==> {
                    let e = old(self).storage_of(h.target())->0.lookup(h)->0;
                    let now = self.storage_of(h.target())->0;
                    &&& (exists|a: int| 0 <= a < oi && order@[a] == h.target()) ==> {
                        &&& e.duration_tick_outcome() == DurationTickOutcome::Expired ==> now.retired(h)
                        &&& e.duration_tick_outcome() != DurationTickOutcome::Expired ==> now.lookup(h) == Some(
                            e.after_duration_tick(),
                        )
                    }
                    &&& !(exists|a: int| 0 <= a < oi && order@[a] == h.target()) ==> now == old(self).storage_of(h.target())->0
                    &&& (exists|a: int| 0 <= a < oi && order@[a] == h.target()) && e.duration_tick_outcome() == (
                    DurationTickOutcome::StackExpired { refresh_modifiers: true }) ==> exists|k: int|
                        0 <= k < refreshed@.len() && (#[trigger] refreshed@[k]).handle == h
                },
                forall|e: EntityId| !(exists|a: int| 0 <= a < oi && order@[a] == e) ==> #[trigger] self.storage_of(e)
                    == old(self).storage_of(e),
                forall|e: EntityId| !(exists|a: int| 0 <= a < oi && order@[a] == e) ==> #[trigger] self.container_of(e)
                    == old(self).container_of(e),
                forall|t: EntityId| (exists|a: int| 0 <= a < oi && order@[a] == t) ==> #[trigger] old(self).expired_tags_released(
                    *self,
                    t,
                    *tag_manager,
                ),
                forall|k: int| 0 <= k < refreshed@.len() ==> {
                    let x = #[trigger] refreshed@[k];
                    let e = old(self).storage_of(x.handle.target())->0.lookup(x.handle)->0;
                    &&& old(self).live_own(x.handle)
                    &&& e.duration_tick_outcome() == (DurationTickOutcome::StackExpired { refresh_modifiers: true })
                    &&& x.stack_count == e.after_duration_tick().stacks()
                },
            decreases order@.len() - oi,
        {
            let target = order[oi];
            let ghost w0 = *self;
            match self.find_storage(target) {
                None => {
                    proof {
                        assert forall|h: ActiveEffectHandle| #[trigger] old(self).live_own(h) implies
                            (exists|a: int| 0 <= a < oi + 1 && order@[a] == h.target()) == (exists|a: int|
                                0 <= a < oi && order@[a] == h.target()) by {
                            if h.target() == target {
                                assert(self.storage_of(target) is None);
                            }
                            if exists|a: int| 0 <= a < oi + 1 && order@[a] == h.target() {
                                let a = choose|a: int| 0 <= a < oi + 1 && order@[a] == h.target();
                            }
                        }
                        assert forall|e: EntityId| !(exists|a: int| 0 <= a < oi + 1 && order@[a] == e) implies #[trigger] self.storage_of(e)
                            == old(self).storage_of(e) by {
                            assert(!(exists|a: int| 0 <= a < oi && order@[a] == e)) by {
                                if exists|a: int| 0 <= a < oi && order@[a] == e {
                                    let a = choose|a: int| 0 <= a < oi && order@[a] == e;
                                    assert(0 <= a < oi + 1 && order@[a] == e);
                                }
                            }
                        }
                        assert forall|e: EntityId| !(exists|a: int| 0 <= a < oi + 1 && order@[a] == e) implies #[trigger] self.container_of(e)
                            == old(self).container_of(e) by {
                            assert(!(exists|a: int| 0 <= a < oi && order@[a] == e)) by {
                                if exists|a: int| 0 <= a < oi && order@[a] == e {
                                    let a = choose|a: int| 0 <= a < oi && order@[a] == e;
                                    assert(0 <= a < oi + 1 && order@[a] == e);
                                }
                            }
                        }
                        assert(!(exists|a: int| 0 <= a < oi && order@[a] == target)) by {
                            if exists|a: int| 0 <= a < oi && order@[a] == target {
                                let a = choose|a: int| 0 <= a < oi && order@[a] == target;
                                assert(order@[a].bits() < order@[oi as int].bits());
                            }
                        }
                        assert forall|t: EntityId| (exists|a: int| 0 <= a < oi + 1 && order@[a] == t) implies #[trigger] old(
                            self,
                        ).expired_tags_released(*self, t, *tag_manager) by {
                            if t == target {
                                assert(old(self).storage_of(target) is None);
                                old(self).lemma_tags_released_unchanged(*self, t, *tag_manager);
                            } else {
                                let a = choose|a: int| 0 <= a < oi + 1 && order@[a] == t;
                                assert(a != oi);
                                assert(exists|a: int| 0 <= a < oi && order@[a] == t);
                            }
                        }
                    }
                },
                Some(si) => {
                    proof {
                        self.lemma_storage_of(si as int);
                    }
                    let ci = self.find_container(target);
                    let mut tags: Option<GameplayTagContainer> = match ci {
                        None => None,
                        Some(c) => {
                            let mut taken = GameplayTagContainer::default();
                            let ce = &mut self.containers[c];
                            std::mem::swap(&mut taken, &mut ce.tags);
                            Some(taken)
                        },
                    };
                    let se = &mut self.storages[si];
                    let ghost before = se.effects;
                    let report = se.effects.tick_durations(target);
                    let ghost tags0 = tags;
                    tags = match tags {
                        None => None,
                        Some(mut c) => {
                            release_discarded_effect_tags(report.expired.as_slice(), &mut c, tag_manager);
                            Some(c)
                        },
                    };
                    let ghost r0 = refreshed@;
                    let mut r: usize = 0;
                    while r < report.refreshed.len()
                        invariant
                            0 <= r <= report.refreshed@.len(),
                            refreshed@ == r0 + report.refreshed@.take(r as int),
                        decreases report.refreshed@.len() - r,
                    {
                        refreshed.push(report.refreshed[r]);
                        proof {
                            assert(report.refreshed@.take(r + 1) == report.refreshed@.take(r as int).push(
                                report.refreshed@[r as int],
                            ));
                        }
                        r = r + 1;
                    }
                    proof {
                        assert(report.refreshed@.take(report.refreshed@.len() as int) == report.refreshed@);
                        assert(!(exists|a: int| 0 <= a < oi && order@[a] == target)) by {
                            if exists|a: int| 0 <= a < oi && order@[a] == target {
                                let a = choose|a: int| 0 <= a < oi && order@[a] == target;
                                assert(order@[a].bits() < order@[oi as int].bits());
                            }
                        }
                        assert(w0.storage_of(target) == old(self).storage_of(target));
                        assert(before == old(self).storage_of(target)->0);
                        assert forall|k: int| 0 <= k < refreshed@.len() implies {
                            let x = #[trigger] refreshed@[k];
                            let e = old(self).storage_of(x.handle.target())->0.lookup(x.handle)->0;
                            &&& old(self).live_own(x.handle)
                            &&& e.duration_tick_outcome() == (DurationTickOutcome::StackExpired { refresh_modifiers: true })
                            &&& x.stack_count == e.after_duration_tick().stacks()
                        } by {
                            if k >= r0.len() {
                                let x = report.refreshed@[k - r0.len()];
                                assert(refreshed@[k] == x);
                            } else {
                                assert(refreshed@[k] == r0[k]);
                            }
                        }
                        assert forall|h: ActiveEffectHandle| #[trigger] old(self).live_own(h) && (exists|a: int|
                            0 <= a < oi + 1 && order@[a] == h.target()) && old(self).storage_of(h.target())->0.lookup(
                            h,
                        )->0.duration_tick_outcome() == (DurationTickOutcome::StackExpired { refresh_modifiers: true })
                            implies exists|k: int| 0 <= k < refreshed@.len() && (#[trigger] refreshed@[k]).handle == h by {
                            if h.target() == target {
                                assert(before.lookup(h) is Some);
                                let k = choose|k: int| 0 <= k < report.refreshed@.len() && (#[trigger] report.refreshed@[k]).handle == h;
                                assert(refreshed@[r0.len() + k] == report.refreshed@[k]);
                            } else {
                                let a = choose|a: int| 0 <= a < oi + 1 && order@[a] == h.target();
                                assert(a != oi);
                                assert(exists|a: int| 0 <= a < oi && order@[a] == h.target());
                                let k = choose|k: int| 0 <= k < r0.len() && (#[trigger] r0[k]).handle == h;
                                assert(refreshed@[k] == r0[k]);
                            }
                        }
                    }
                    match ci {
                        None => {},
                        Some(c) => {
                            let ce = &mut self.containers[c];
                            ce.tags = tags.unwrap();
                        },
                    }
                    proof {
                        assert forall|e: EntityId| e != target implies #[trigger] self.storage_of(e) == w0.storage_of(e) by {
                            if exists|i: int| 0 <= i < self.storages@.len() && (#[trigger] self.storages@[i]).entity == e {
                                let i = choose|i: int| 0 <= i < self.storages@.len() && (#[trigger] self.storages@[i]).entity == e;
                                assert(i != si);
                                self.lemma_storage_of(i);
                                w0.lemma_storage_of(i);
                            } else {
                                assert forall|i: int| 0 <= i < w0.storages@.len() implies (#[trigger] w0.storages@[i]).entity != e by {
                                    assert(self.storages@[i].entity == w0.storages@[i].entity);
                                }
                            }
                        }
                        self.lemma_storage_of(si as int);
                        assert forall|e: EntityId| #[trigger] self.storage_of(e) is Some == old(self).storage_of(e) is Some by {
                            if e != target {
                                assert(self.storage_of(e) == w0.storage_of(e));
                            }
                        }
                        assert forall|h: ActiveEffectHandle| #[trigger] old(self).live_own(h) implies {
                            let e = old(self).storage_of(h.target())->0.lookup(h)->0;
                            let now = self.storage_of(h.target())->0;
                            &&& (exists|a: int| 0 <= a < oi + 1 && order@[a] == h.target()) ==> {
                                &&& e.duration_tick_outcome() == DurationTickOutcome::Expired ==> now.retired(h)
                                &&& e.duration_tick_outcome() != DurationTickOutcome::Expired ==> now.lookup(h) == Some(
                                    e.after_duration_tick(),
                                )
                            }
                            &&& !(exists|a: int| 0 <= a < oi + 1 && order@[a] == h.target()) ==> now == old(self).storage_of(h.target())->0
                        } by {
                            if h.target() == target {
                                assert(!(exists|a: int| 0 <= a < oi && order@[a] == h.target())) by {
                                    if exists|a: int| 0 <= a < oi && order@[a] == h.target() {
                                        let a = choose|a: int| 0 <= a < oi && order@[a] == h.target();
                                        assert(order@[a].bits() < order@[oi as int].bits());
                                    }
                                }
                                assert(order@[oi as int] == h.target());
                            } else {
                                assert(self.storage_of(h.target()) == w0.storage_of(h.target()));
                                if exists|a: int| 0 <= a < oi + 1 && order@[a] == h.target() {
                                    let a = choose|a: int| 0 <= a < oi + 1 && order@[a] == h.target();
                                    assert(a != oi);
                                }
                            }
                        }
                    }
                    proof {
                        self.lemma_containers_except(w0, target);
                        assert(!(exists|a: int| 0 <= a < oi && order@[a] == target)) by {
                            if exists|a: int| 0 <= a < oi && order@[a] == target {
                                let a = choose|a: int| 0 <= a < oi && order@[a] == target;
                                assert(order@[a].bits() < order@[oi as int].bits());
                            }
                        }
                        assert(w0.container_of(target) == old(self).container_of(target));
                        match ci {
                            Some(c) => {
                                self.lemma_container_of(c as int);
                                w0.lemma_container_of(c as int);
                            },
                            None => {
                                assert forall|i: int| 0 <= i < self.containers@.len() implies (#[trigger] self.containers@[i]).entity
                                    != target by {
                                    assert(self.containers@[i].entity == w0.containers@[i].entity);
                                }
                            },
                        }
                        assert(tags0 == old(self).container_of(target));
                        assert(self.container_of(target) == tags);
                        if tags0 is Some {
                            let c0 = tags0->0;
                            let c1 = tags->0;
                            assert forall|j: int|
                                #![trigger self.container_of(target)->0.explicit(j)]
                                0 <= j < MAX_TAG_COUNTS implies {
                                    let x0 = old(self).container_of(target)->0.explicit(j);
                                    let x = self.container_of(target)->0.explicit(j);
                                    &&& x <= x0
                                    &&& forall|h: ActiveEffectHandle| #[trigger] old(self).expiry_releases(h, *tag_manager)
                                        && h.target() == target ==> x == 0 || x + occurrences(old(self).granted_of(h), j) <= x0
                                    &&& (forall|h: ActiveEffectHandle| #[trigger] old(self).expiry_releases(h, *tag_manager)
                                        && h.target() == target ==> occurrences(old(self).granted_of(h), j) == 0) ==> x == x0
                                } by {
                                lemma_release_bounds(c0.explicit(j), report.expired@, *tag_manager, j);
                                assert forall|h: ActiveEffectHandle| #[trigger] old(self).expiry_releases(h, *tag_manager)
                                    && h.target() == target implies c1.explicit(j) == 0 || c1.explicit(j) + occurrences(
                                    old(self).granted_of(h),
                                    j,
                                ) <= c0.explicit(j) by {
                                    assert(before.lookup(h) is Some);
                                    let k = choose|k: int| 0 <= k < report.expired@.len() && (#[trigger] report.expired@[k]).handle == h;
                                    before.lookup(h)->0.lemma_duration_tick_keeps_identity();
                                    assert(releases_on_expiry(report.expired@[k], *tag_manager));
                                }
                                if forall|h: ActiveEffectHandle| #[trigger] old(self).expiry_releases(h, *tag_manager)
                                    && h.target() == target ==> occurrences(old(self).granted_of(h), j) == 0 {
                                    assert forall|k: int| 0 <= k < report.expired@.len() && #[trigger] releases_on_expiry(
                                        report.expired@[k],
                                        *tag_manager,
                                    ) implies occurrences(report.expired@[k].effect.spec_of().tags().granted_tags(), j) == 0 by {
                                        let h = report.expired@[k].handle;
                                        before.lookup(h)->0.lemma_duration_tick_keeps_identity();
                                        assert(old(self).live_own(h));
                                        assert(old(self).expiry_releases(h, *tag_manager));
                                    }
                                }
                            }
                            assert(self.container_of(target) is Some);
                        }
                        assert(old(self).expired_tags_released(*self, target, *tag_manager));
                        assert forall|e: EntityId| !(exists|a: int| 0 <= a < oi + 1 && order@[a] == e) implies #[trigger] self.container_of(e)
                            == old(self).container_of(e) by {
                            assert(!(exists|a: int| 0 <= a < oi && order@[a] == e)) by {
                                if exists|a: int| 0 <= a < oi && order@[a] == e {
                                    let a = choose|a: int| 0 <= a < oi && order@[a] == e;
                                    assert(0 <= a < oi + 1 && order@[a] == e);
                                }
                            }
                            assert(e != target);
                        }
                        assert forall|t: EntityId| (exists|a: int| 0 <= a < oi + 1 && order@[a] == t) implies #[trigger] old(
                            self,
                        ).expired_tags_released(*self, t, *tag_manager) by {
                            if t != target {
                                let a = choose|a: int| 0 <= a < oi + 1 && order@[a] == t;
                                assert(a != oi);
                                assert(exists|a: int| 0 <= a < oi && order@[a] == t);
                                assert(old(self).expired_tags_released(w0, t, *tag_manager));
                                assert(self.container_of(t) == w0.container_of(t));
                            }
                        }
                    }
                },
            }
            oi = oi + 1;
        }
        proof {
            assert forall|h: ActiveEffectHandle| #[trigger] old(self).live_own(h) implies exists|a: int|
                0 <= a < order@.len() && order@[a] == h.target() by {
                let i = choose|i: int| 0 <= i < old(self).storages@.len() && (#[trigger] old(self).storages@[i]).entity == h.target();
                assert(old(self).storage_entities()[i] == h.target());
                assert(old(self).storage_entities().contains(h.target()));
                assert(self.storage_entities()[i] == h.target());
                assert(order@.contains(h.target()));
            }
            assert forall|t: EntityId| #[trigger] old(self).expired_tags_released(*self, t, *tag_manager) by {
                if !(exists|a: int| 0 <= a < order@.len() && order@[a] == t) {
                    assert forall|h: ActiveEffectHandle| #[trigger] old(self).expiry_releases(h, *tag_manager) implies h.target() != t by {
                        if h.target() == t {
                            assert(exists|a: int| 0 <= a < order@.len() && order@[a] == h.target());
                        }
                    }
                    old(self).lemma_tags_released_unchanged(*self, t, *tag_manager);
                }
            }
        }
        refreshed
    }

    /// Advances every periodic effect stored on its own target by one fixed tick, target by
    /// target in bits order, and returns the effects with modifiers that execute now.
    pub fn tick_effect_periods(&mut self, tag_manager: &GameplayTagManager) -> (executions: Vec<PeriodicExecution>)
        requires
            old(self).wf(*tag_manager),
        ensures
            final(self).wf(*tag_manager),
            final(self).same_layout(*old(self)),
            forall|e: EntityId| #[trigger] final(self).storage_of(e) is Some == old(self).storage_of(e) is Some,
            forall|h: ActiveEffectHandle| #[trigger] old(self).live_own(h) ==> final(self).storage_of(h.target())->0.lookup(h)
                == Some(old(self).storage_of(h.target())->0.lookup(h)->0.after_period_tick()),
            forall|k: int| 0 <= k < executions@.len() ==> {
                let x = #[trigger] executions@[k];
                &&& old(self).live_own(x.handle)
                &&& old(self).storage_of(x.handle.target())->0.lookup(x.handle)->0.period_tick_executes()
                &&& old(self).storage_of(x.handle.target())->0.lookup(x.handle)->0.spec_of().modifier_count() > 0
                &&& x.stack_count == old(self).storage_of(x.handle.target())->0.lookup(x.handle)->0.stacks()
            },
            forall|h: ActiveEffectHandle| #[trigger] old(self).live_own(h) && old(self).storage_of(h.target())->0.lookup(
                h,
            )->0.period_tick_executes() && old(self).storage_of(h.target())->0.lookup(h)->0.spec_of().modifier_count() > 0
                ==> exists|k: int| 0 <= k < executions@.len() && (#[trigger] executions@[k]).handle == h,
    {
        let order = self.storage_order();
        let mut executions: Vec<PeriodicExecution> = Vec::new();
        let mut oi: usize = 0;
        while oi < order.len()
            invariant
                0 <= oi <= order@.len(),
                old(self).wf(*tag_manager),
                self.wf(*tag_manager),
                self.same_layout(*old(self)),
                forall|i: int, j: int| 0 <= i < j < order@.len() ==> (#[trigger] order@[i]).bits() < (#[trigger] order@[j]).bits(),
                forall|e: EntityId| #[trigger] self.storage_of(e) is Some == old(self).storage_of(e) is Some,
                forall|e: EntityId| !(exists|a: int| 0 <= a < oi && order@[a] == e) ==> #[trigger] self.storage_of(e)
                    == old(self).storage_of(e),
                forall|h: ActiveEffectHandle| #[trigger] old(self).live_own(h) ==> {
                    let now = self.storage_of(h.target())->0;
                    &&& (exists|a: int| 0 <= a < oi && order@[a] == h.target()) ==> now.lookup(h) == Some(
                        old(self).storage_of(h.target())->0.lookup(h)->0.after_period_tick(),
                    )
                    &&& !(exists|a: int| 0 <= a < oi && order@[a] == h.target()) ==> now == old(self).storage_of(h.target())->0
                },
                forall|k: int| 0 <= k < executions@.len() ==> {
                    let x = #[trigger] executions@[k];
                    &&& old(self).live_own(x.handle)
                    &&& old(self).storage_of(x.handle.target())->0.lookup(x.handle)->0.period_tick_executes()
                    &&& old(self).storage_of(x.handle.target())->0.lookup(x.handle)->0.spec_of().modifier_count() > 0
                    &&& x.stack_count == old(self).storage_of(x.handle.target())->0.lookup(x.handle)->0.stacks()
                    &&& exists|a: int| 0 <= a < oi && order@[a] == x.handle.target()
                },
                forall|h: ActiveEffectHandle| #[trigger] old(self).live_own(h) && (exists|a: int| 0 <= a < oi && order@[a]
                    == h.target()) && old(self).storage_of(h.target())->0.lookup(h)->0.period_tick_executes() && old(
                    self,
                ).storage_of(h.target())->0.lookup(h)->0.spec_of().modifier_count() > 0 ==> exists|k: int|
                    0 <= k < executions@.len() && (#[trigger] executions@[k]).handle == h,
            decreases order@.len() - oi,
        {
            let target = order[oi];
            let ghost w0 = *self;
            let ghost e0 = executions@;
            match self.find_storage(target) {
                None => {
                    proof {
                        assert forall|h: ActiveEffectHandle| #[trigger] old(self).live_own(h) implies
                            (exists|a: int| 0 <= a < oi + 1 && order@[a] == h.target()) == (exists|a: int|
                                0 <= a < oi && order@[a] == h.target()) by {
                            if h.target() == target {
                                assert(self.storage_of(target) is None);
                            }
                            if exists|a: int| 0 <= a < oi + 1 && order@[a] == h.target() {
                                let a = choose|a: int| 0 <= a < oi + 1 && order@[a] == h.target();
                            }
                        }
                        assert forall|k: int| 0 <= k < executions@.len() implies exists|a: int|
                            0 <= a < oi + 1 && order@[a] == (#[trigger] executions@[k]).handle.target() by {
                            let a = choose|a: int| 0 <= a < oi && order@[a] == executions@[k].handle.target();
                        }
                        assert forall|e: EntityId| !(exists|a: int| 0 <= a < oi + 1 && order@[a] == e) implies #[trigger] self.storage_of(e)
                            == old(self).storage_of(e) by {
                        }
                        assert forall|h: ActiveEffectHandle| #[trigger] old(self).live_own(h) && (exists|a: int| 0 <= a < oi + 1
                            && order@[a] == h.target()) && old(self).storage_of(h.target())->0.lookup(h)->0.period_tick_executes()
                            && old(self).storage_of(h.target())->0.lookup(h)->0.spec_of().modifier_count() > 0 implies exists|k: int|
                            0 <= k < executions@.len() && (#[trigger] executions@[k]).handle == h by {
                            if h.target() == target {
                                assert(self.storage_of(target) is None);
                            }
                            let a = choose|a: int| 0 <= a < oi + 1 && order@[a] == h.target();
                            assert(a != oi);
                            assert(exists|a: int| 0 <= a < oi && order@[a] == h.target());
                        }
                    }
                },
                Some(si) => {
                    proof {
                        self.lemma_storage_of(si as int);
                    }
                    let se = &mut self.storages[si];
                    let fired = se.effects.tick_periods(target);
                    let mut r: usize = 0;
                    while r < fired.len()
                        invariant
                            0 <= r <= fired@.len(),
                            executions@.len() == e0.len() + r,
                            forall|q: int| 0 <= q < e0.len() ==> executions@[q] == e0[q],
                            forall|q: int| 0 <= q < r ==> executions@[e0.len() + q] == fired@[q],
                        decreases fired@.len() - r,
                    {
                        executions.push(fired[r]);
                        r = r + 1;
                    }
                    proof {
                        assert forall|e: EntityId| e != target implies #[trigger] self.storage_of(e) == w0.storage_of(e) by {
                            if exists|i: int| 0 <= i < self.storages@.len() && (#[trigger] self.storages@[i]).entity == e {
                                let i = choose|i: int| 0 <= i < self.storages@.len() && (#[trigger] self.storages@[i]).entity == e;
                                assert(i != si);
                                self.lemma_storage_of(i);
                                w0.lemma_storage_of(i);
                            } else {
                                assert forall|i: int| 0 <= i < w0.storages@.len() implies (#[trigger] w0.storages@[i]).entity != e by {
                                    assert(self.storages@[i].entity == w0.storages@[i].entity);
                                }
                            }
                        }
                        self.lemma_storage_of(si as int);
                        assert forall|e: EntityId| #[trigger] self.storage_of(e) is Some == old(self).storage_of(e) is Some by {
                            if e != target {
                                assert(self.storage_of(e) == w0.storage_of(e));
                            }
                        }
                        assert(w0.storage_of(target) == old(self).storage_of(target)) by {
                            assert(!(exists|a: int| 0 <= a < oi && order@[a] == target)) by {
                                if exists|a: int| 0 <= a < oi && order@[a] == target {
                                    let a = choose|a: int| 0 <= a < oi && order@[a] == target;
                                    assert(order@[a].bits() < order@[oi as int].bits());
                                }
                            }
                        }
                        assert forall|e: EntityId| !(exists|a: int| 0 <= a < oi + 1 && order@[a] == e) implies #[trigger] self.storage_of(e)
                            == old(self).storage_of(e) by {
                            if e != target {
                                assert(self.storage_of(e) == w0.storage_of(e));
                            } else {
                                assert(order@[oi as int] == e);
                            }
                        }
                        assert forall|h: ActiveEffectHandle| #[trigger] old(self).live_own(h) implies {
                            let now = self.storage_of(h.target())->0;
                            &&& (exists|a: int| 0 <= a < oi + 1 && order@[a] == h.target()) ==> now.lookup(h) == Some(
                                old(self).storage_of(h.target())->0.lookup(h)->0.after_period_tick(),
                            )
                            &&& !(exists|a: int| 0 <= a < oi + 1 && order@[a] == h.target()) ==> now == old(self).storage_of(h.target())->0
                        } by {
                            if h.target() == target {
                                assert(!(exists|a: int| 0 <= a < oi && order@[a] == h.target())) by {
                                    if exists|a: int| 0 <= a < oi && order@[a] == h.target() {
                                        let a = choose|a: int| 0 <= a < oi && order@[a] == h.target();
                                        assert(order@[a].bits() < order@[oi as int].bits());
                                    }
                                }
                                assert(order@[oi as int] == h.target());
                            } else {
                                assert(self.storage_of(h.target()) == w0.storage_of(h.target()));
                                if exists|a: int| 0 <= a < oi + 1 && order@[a] == h.target() {
                                    let a = choose|a: int| 0 <= a < oi + 1 && order@[a] == h.target();
                                    assert(a != oi);
                                }
                            }
                        }
                        assert forall|k: int| 0 <= k < executions@.len() implies {
                            let x = #[trigger] executions@[k];
                            &&& old(self).live_own(x.handle)
                            &&& old(self).storage_of(x.handle.target())->0.lookup(x.handle)->0.period_tick_executes()
                            &&& old(self).storage_of(x.handle.target())->0.lookup(x.handle)->0.spec_of().modifier_count() > 0
                            &&& x.stack_count == old(self).storage_of(x.handle.target())->0.lookup(x.handle)->0.stacks()
                            &&& exists|a: int| 0 <= a < oi + 1 && order@[a] == x.handle.target()
                        } by {
                            if k < e0.len() {
                                assert(executions@[k] == e0[k]);
                                let a = choose|a: int| 0 <= a < oi && order@[a] == e0[k].handle.target();
                            } else {
                                let x = fired@[k - e0.len()];
                                assert(executions@[k] == x);
                                assert(x.handle.target() == target);
                                assert(!(exists|a: int| 0 <= a < oi && order@[a] == target)) by {
                                    if exists|a: int| 0 <= a < oi && order@[a] == target {
                                        let a = choose|a: int| 0 <= a < oi && order@[a] == target;
                                        assert(order@[a].bits() < order@[oi as int].bits());
                                    }
                                }
                                assert(w0.storage_of(target) == old(self).storage_of(target));
                                assert(order@[oi as int] == target);
                            }
                        }
                        assert forall|h: ActiveEffectHandle| #[trigger] old(self).live_own(h) && (exists|a: int| 0 <= a < oi + 1
                            && order@[a] == h.target()) && old(self).storage_of(h.target())->0.lookup(h)->0.period_tick_executes()
                            && old(self).storage_of(h.target())->0.lookup(h)->0.spec_of().modifier_count() > 0 implies exists|k: int|
                            0 <= k < executions@.len() && (#[trigger] executions@[k]).handle == h by {
                            if h.target() == target {
                                assert(!(exists|a: int| 0 <= a < oi && order@[a] == target)) by {
                                    if exists|a: int| 0 <= a < oi && order@[a] == target {
                                        let a = choose|a: int| 0 <= a < oi && order@[a] == target;
                                        assert(order@[a].bits() < order@[oi as int].bits());
                                    }
                                }
                                assert(w0.storage_of(target) == old(self).storage_of(target));
                                assert(w0.storages@[si as int].effects.lookup(h) is Some);
                                let q = choose|q: int| 0 <= q < fired@.len() && (#[trigger] fired@[q]).handle == h;
                                assert(executions@[e0.len() + q] == fired@[q]);
                            } else {
                                let a = choose|a: int| 0 <= a < oi + 1 && order@[a] == h.target();
                                assert(a != oi);
                                assert(exists|a: int| 0 <= a < oi && order@[a] == h.target());
                                let q = choose|q: int| 0 <= q < e0.len() && (#[trigger] e0[q]).handle == h;
                                assert(executions@[q] == e0[q]);
                            }
                        }
                    }
                },
            }
            oi = oi + 1;
        }
        proof {
            assert forall|h: ActiveEffectHandle| #[trigger] old(self).live_own(h) implies exists|a: int|
                0 <= a < order@.len() && order@[a] == h.target() by {
                let i = choose|i: int| 0 <= i < old(self).storages@.len() && (#[trigger] old(self).storages@[i]).entity == h.target();
                assert(old(self).storage_entities()[i] == h.target());
                assert(self.storage_entities()[i] == h.target());
                assert(order@.contains(h.target()));
            }
        }
        executions
    }

    /// Returns the requirement signature of this world: one entry per stored effect, in
    /// canonical order.
    pub fn requirement_state_signature(&self, tag_manager: &GameplayTagManager) -> (signature: Vec<RequirementSignatureEntry>)
        requires
            self.wf(*tag_manager),
        ensures
            entries_sorted(signature@),
            signature@.to_multiset() == self.world_entries(self.storages@.len() as int).to_multiset(),
    {
        let mut raw: Vec<RequirementSignatureEntry> = Vec::new();
        let mut i: usize = 0;
        while i < self.storages.len()
            invariant
                0 <= i <= self.storages@.len(),
                self.wf(*tag_manager),
                raw@ == self.world_entries(i as int),
            decreases self.storages@.len() - i,
        {
            let effects = &self.storages[i].effects;
            let handles = effects.stored_handles();
            let ghost slots = effects.occupied_slots(effects.slot_count() as int);
            proof {
                effects.lemma_occupied_slots(effects.slot_count() as int);
            }
            let ghost before = raw@;
            let mut k: usize = 0;
            while k < handles.len()
                invariant
                    0 <= k <= handles@.len(),
                    self.wf(*tag_manager),
                    i < self.storages@.len(),
                    *effects == self.storages@[i as int].effects,
                    effects.wf(),
                    effects.lists_stored_handles(handles@),
                    slots == effects.occupied_slots(effects.slot_count() as int),
                    forall|a: int| 0 <= a < slots.len() ==> 0 <= #[trigger] slots[a] < effects.slot_count()
                        && effects.effect_at(slots[a]) is Some,
                    raw@ == before + self.storage_entries(*effects).take(k as int),
                decreases handles@.len() - k,
            {
                let handle = handles[k];
                assert(effects.lookup(handle) is Some);
                let effect = effects.get(handle).unwrap();
                let entry = signature_entry(handle, effect, self.tags_of(effect.get_source()), self.tags_of(effect.get_target()));
                raw.push(entry);
                proof {
                    let s = slots[k as int];
                    ActiveEffectHandle::lemma_from_parts(effects.effect_at(s)->0.target(), s as u32, effects.generation_at(s));
                    ActiveEffectHandle::lemma_eq(
                        handle,
                        ActiveEffectHandle::from_parts(effects.effect_at(s)->0.target(), s as u32, effects.generation_at(s)),
                    );
                    assert(entry == self.storage_entries(*effects)[k as int]);
                    assert(self.storage_entries(*effects).take(k + 1) == self.storage_entries(*effects).take(k as int).push(
                        entry,
                    ));
                }
                k = k + 1;
            }
            proof {
                assert(self.storage_entries(*effects).take(handles@.len() as int) == self.storage_entries(*effects));
            }
            i = i + 1;
        }
        sort_signature(raw)
    }
}

/// One requirement decision taken during a pass, for the effect `handle`.
#[derive(Debug, Clone, Copy, PartialEq, Eq, Structural)]
pub struct RequirementDecisionEntry {
    pub handle: ActiveEffectHandle,
    pub decision: ActiveEffectRequirementDecision,
}

/// Returns `entities` ordered by bits, without repetitions.
pub fn sorted_unique_entities(entities: &[EntityId]) -> (unique: Vec<EntityId>)
    ensures
        forall|i: int, j: int| 0 <= i < j < unique@.len() ==> (#[trigger] unique@[i]).bits() < (#[trigger] unique@[j]).bits(),
        forall|e: EntityId| unique@.contains(e) <==> entities@.contains(e),
{
    let mut unique: Vec<EntityId> = Vec::new();
    let mut i: usize = 0;
    while i < entities.len()
        invariant
            0 <= i <= entities@.len(),
            forall|a: int, b: int| 0 <= a < b < unique@.len() ==> (#[trigger] unique@[a]).bits() < (#[trigger] unique@[b]).bits(),
            forall|e: EntityId| unique@.contains(e) <==> entities@.take(i as int).contains(e),
        decreases entities@.len() - i,
    {
        let x = entities[i];
        let bits = x.to_bits();
        let mut p: usize = 0;
        while p < unique.len() && unique[p].to_bits() < bits
            invariant
                0 <= p <= unique@.len(),
                0 <= i < entities@.len(),
                x == entities@[i as int],
                bits == x.bits(),
                forall|a: int, b: int| 0 <= a < b < unique@.len() ==> (#[trigger] unique@[a]).bits() < (#[trigger] unique@[b]).bits(),
                forall|e: EntityId| unique@.contains(e) <==> entities@.take(i as int).contains(e),
                forall|k: int| 0 <= k < p ==> (#[trigger] unique@[k]).bits() < bits,
            decreases unique@.len() - p,
        {
            p = p + 1;
        }
        let ghost before = unique@;
        let duplicate = p < unique.len() && unique[p].to_bits() == bits;
        if !duplicate {
            unique.insert(p, x);
        }
        proof {
            assert(entities@.take(i + 1) == entities@.take(i as int).push(x));
            if duplicate {
                EntityId::lemma_bits_injective(before[p as int], x);
            }
            assert forall|a: int, b: int| 0 <= a < b < unique@.len() implies (#[trigger] unique@[a]).bits() < (
                #[trigger] unique@[b]).bits() by {
                if !duplicate {
                    if a < p && b == p {
                    } else if a == p && b > p {
                        assert(before[p as int].bits() <= before[b - 1].bits()) by {
                            if b - 1 > p {
                                assert(before[p as int].bits() < before[b - 1].bits());
                            }
                        }
                    } else if a < p && b > p {
                        assert(before[a].bits() < before[b - 1].bits());
                    } else if a > p {
                        assert(before[a - 1].bits() < before[b - 1].bits());
                    }
                }
            }
            assert forall|e: EntityId| unique@.contains(e) <==> entities@.take(i + 1).contains(e) by {
                if unique@.contains(e) {
                    let k = choose|k: int| 0 <= k < unique@.len() && unique@[k] == e;
                    if e == x {
                        assert(entities@.take(i + 1)[i as int] == x);
                    } else {
                        if !duplicate {
                            if k < p {
                                assert(before[k] == e);
                            } else {
                                assert(before[k - 1] == e);
                            }
                        } else {
                            assert(before[k] == e);
                        }
                        assert(before.contains(e));
                        let j = choose|j: int| 0 <= j < i && #[trigger] entities@.take(i as int)[j] == e;
                        assert(entities@.take(i + 1)[j] == e);
                    }
                }
                if entities@.take(i + 1).contains(e) {
                    if e == x {
                        assert(unique@[p as int] == x);
                    } else {
                        assert(entities@.take(i as int).contains(e)) by {
                            let k = choose|k: int| 0 <= k < i + 1 && #[trigger] entities@.take(i + 1)[k] == e;
                            assert(entities@.take(i as int)[k] == e);
                        }
                        assert(before.contains(e));
                        let k = choose|k: int| 0 <= k < before.len() && before[k] == e;
                        if !duplicate {
                            if k < p {
                                assert(unique@[k] == e);
                            } else {
                                assert(unique@[k + 1] == e);
                            }
                        } else {
                            assert(unique@[k] == e);
                        }
                    }
                }
            }
        }
        i = i + 1;
    }
    assert(entities@.take(entities@.len() as int) == entities@);
    unique
}

} // verus!
