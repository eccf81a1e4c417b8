use super::{ActiveEffectHandle, ActiveGameplayEffect, DurationTickOutcome, GameplayEffectSpec};
use crate::identifiers::EntityId;
use vstd::prelude::*;

verus! {

/// An effect that expired during a duration tick and was removed from storage.
pub struct ExpiredEffect {
    pub handle: ActiveEffectHandle,
    pub effect: ActiveGameplayEffect,
}

/// An effect that lost one stack during a duration tick and whose retained modifiers must be
/// reapplied for `stack_count` stacks.
#[derive(Debug, Clone, Copy, PartialEq, Eq, Structural)]
pub struct StackRefresh {
    pub handle: ActiveEffectHandle,
    pub stack_count: u32,
}

/// What one duration tick of a target's effects did.
pub struct DurationTickReport {
    /// Removed effects, in slot order.
    pub expired: Vec<ExpiredEffect>,
    /// Effects whose retained modifiers need reapplying, in slot order.
    pub refreshed: Vec<StackRefresh>,
}

/// A periodic effect that executes on this tick with `stack_count` stacks.
#[derive(Debug, Clone, Copy, PartialEq, Eq, Structural)]
pub struct PeriodicExecution {
    pub handle: ActiveEffectHandle,
    pub stack_count: u32,
}

struct ActiveEffectSlot {
    generation: u32,
    effect: Option<ActiveGameplayEffect>,
}

/// Why an active effect could not be stored.
#[derive(Debug, Clone, Copy, PartialEq, Eq, Structural)]
pub enum ActiveEffectStorageError {
    /// Every representable slot index of the target is in use.
    CapacityExceeded { target: EntityId },
}

/// Target-owned, stable-order storage for active gameplay effects.
///
/// Effects live in slots. A slot's generation grows by one each time its effect is removed,
/// so a handle names one stored effect and never a later one: once removed, a handle stays
/// invalid. A slot whose generation reached `u32::MAX` is retired instead of reused.
pub struct ActiveGameplayEffects {
    slots: Vec<ActiveEffectSlot>,
    free_slots: Vec<u32>,
}

impl ActiveGameplayEffects {
    /// The number of slots, occupied or not.
    pub closed spec fn slot_count(self) -> nat {
        self.slots@.len()
    }

    /// The generation of slot `s`.
    pub closed spec fn generation_at(self, s: int) -> u32 {
        self.slots@[s].generation
    }

    /// The effect stored in slot `s`, if any.
    pub closed spec fn effect_at(self, s: int) -> Option<ActiveGameplayEffect> {
        self.slots@[s].effect
    }

    /// Empty slots waiting for reuse; the last one is reused first.
    pub closed spec fn free_list(self) -> Seq<u32> {
        self.free_slots@
    }

    /// Internal consistency of the slots and the free list.
    pub open spec fn wf(self) -> bool {
        &&& self.slot_count() <= u32::MAX + 1
        &&& forall|s: int| 0 <= s < self.slot_count() ==> #[trigger] self.generation_at(s) >= 1
        &&& forall|k: int|
            0 <= k < self.free_list().len() ==> (#[trigger] self.free_list()[k]) < self.slot_count()
                && self.effect_at(self.free_list()[k] as int) is None
        &&& forall|j: int, k: int|
            0 <= j < k < self.free_list().len() ==> #[trigger] self.free_list()[j] != #[trigger] self.free_list()[k]
    }

    /// The effect a handle names: the effect in its slot, if the slot's generation and the
    /// effect's target match the handle.
    pub open spec fn lookup(self, h: ActiveEffectHandle) -> Option<ActiveGameplayEffect> {
        let s = h.slot() as int;
        if s < self.slot_count() && self.generation_at(s) == h.generation() {
            match self.effect_at(s) {
                Some(e) => if e.target() == h.target() {
                    Some(e)
                } else {
                    None
                },
                None => None,
            }
        } else {
            None
        }
    }

    /// Whether a handle can never name an effect again: its slot moved to a later generation,
    /// or its slot was emptied at the last generation and left out of reuse.
    pub open spec fn retired(self, h: ActiveEffectHandle) -> bool {
        let s = h.slot() as int;
        &&& s < self.slot_count()
        &&& {
            ||| self.generation_at(s) > h.generation()
            ||| (h.generation() == u32::MAX && self.generation_at(s) == u32::MAX
                && self.effect_at(s) is None && !self.free_list().contains(h.slot()))
        }
    }

    /// Every slot other than `s` holds the same generation and effect in `self` and `other`.
    pub open spec fn same_slots_except(self, other: Self, s: int) -> bool {
        &&& forall|t: int| 0 <= t < other.slot_count() && t != s ==> #[trigger] self.generation_at(t) == other.generation_at(t)
        &&& forall|t: int| 0 <= t < other.slot_count() && t != s ==> #[trigger] self.effect_at(t) == other.effect_at(t)
    }

    /// Whether slot `s` holds an effect of `target`.
    pub open spec fn targets_at(self, s: int, target: EntityId) -> bool {
        self.effect_at(s) matches Some(e) && e.target() == target
    }

    /// The occupied slots among the first `n`, in slot order, whose effect targets `target`.
    pub open spec fn slots_targeting(self, target: EntityId, n: int) -> Seq<int>
        decreases n,
    {
        if n <= 0 {
            Seq::empty()
        } else {
            let prev = self.slots_targeting(target, n - 1);
            match self.effect_at(n - 1) {
                Some(e) => if e.target() == target {
                    prev.push(n - 1)
                } else {
                    prev
                },
                None => prev,
            }
        }
    }

    /// The occupied slots among the first `n`, in slot order.
    pub open spec fn occupied_slots(self, n: int) -> Seq<int>
        decreases n,
    {
        if n <= 0 {
            Seq::empty()
        } else {
            let prev = self.occupied_slots(n - 1);
            if self.effect_at(n - 1) is Some {
                prev.push(n - 1)
            } else {
                prev
            }
        }
    }

    /// Whether `handles` names, in slot order, every effect of `target`.
    pub open spec fn lists_handles_of(self, target: EntityId, handles: Seq<ActiveEffectHandle>) -> bool {
        let slots = self.slots_targeting(target, self.slot_count() as int);
        &&& handles.len() == slots.len()
        &&& forall|k: int| 0 <= k < handles.len() ==> {
            &&& (#[trigger] handles[k]).target() == target
            &&& handles[k].slot() == slots[k]
            &&& handles[k].generation() == self.generation_at(slots[k])
        }
    }

    /// Whether `handles` names, in slot order, every stored effect.
    pub open spec fn lists_stored_handles(self, handles: Seq<ActiveEffectHandle>) -> bool {
        let slots = self.occupied_slots(self.slot_count() as int);
        &&& handles.len() == slots.len()
        &&& forall|k: int| 0 <= k < handles.len() ==> {
            &&& (#[trigger] handles[k]).target() == self.effect_at(slots[k])->0.target()
            &&& handles[k].slot() == slots[k]
            &&& handles[k].generation() == self.generation_at(slots[k])
        }
    }

    /// Creates empty storage.
    pub fn new() -> (effects: Self)
        ensures
            effects.wf(),
            effects.slot_count() == 0,
            effects.free_list().len() == 0,
    {
        ActiveGameplayEffects { slots: Vec::new(), free_slots: Vec::new() }
    }

    /// Returns the number of active effects.
    pub fn len(&self) -> (count: usize)
        ensures
            count == self.occupied_slots(self.slot_count() as int).len(),
    {
        let mut count: usize = 0;
        let mut i: usize = 0;
        while i < self.slots.len()
            invariant
                0 <= i <= self.slots@.len(),
                count == self.occupied_slots(i as int).len(),
                count <= i,
            decreases self.slots@.len() - i,
        {
            if self.slots[i].effect.is_some() {
                count = count + 1;
            }
            i = i + 1;
        }
        count
    }

    /// Returns whether the storage holds no active effect.
    pub fn is_empty(&self) -> (empty: bool)
        ensures
            empty == (forall|s: int| 0 <= s < self.slot_count() ==> #[trigger] self.effect_at(s) is None),
    {
        let mut i: usize = 0;
        while i < self.slots.len()
            invariant
                0 <= i <= self.slots@.len(),
                forall|s: int| 0 <= s < i ==> #[trigger] self.effect_at(s) is None,
            decreases self.slots@.len() - i,
        {
            if self.slots[i].effect.is_some() {
                assert(self.effect_at(i as int) is Some);
                return false;
            }
            i = i + 1;
        }
        true
    }

    /// Returns the active effect identified by `handle`.
    pub fn get(&self, handle: ActiveEffectHandle) -> (effect: Option<&ActiveGameplayEffect>)
        ensures
            effect is Some == self.lookup(handle) is Some,
            effect matches Some(e) ==> *e == self.lookup(handle)->0,
    {
        let s = handle.get_slot() as usize;
        if s >= self.slots.len() {
            return None;
        }
        let slot = &self.slots[s];
        if slot.generation != handle.get_generation() {
            return None;
        }
        match &slot.effect {
            Some(e) => if e.get_target() == handle.get_target() {
                Some(e)
            } else {
                None
            },
            None => None,
        }
    }

    /// Returns the handles of every effect targeting `target`, in stable slot order.
    pub fn handles(&self, target: EntityId) -> (handles: Vec<ActiveEffectHandle>)
        requires
            self.wf(),
        ensures
            self.lists_handles_of(target, handles@),
    {
        let mut handles: Vec<ActiveEffectHandle> = Vec::new();
        let mut i: usize = 0;
        while i < self.slots.len()
            invariant
                0 <= i <= self.slots@.len(),
                self.wf(),
                handles@.len() == self.slots_targeting(target, i as int).len(),
                forall|k: int| 0 <= k < handles@.len() ==> {
                    &&& (#[trigger] handles@[k]).target() == target
                    &&& handles@[k].slot() == self.slots_targeting(target, i as int)[k]
                    &&& handles@[k].generation() == self.generation_at(self.slots_targeting(target, i as int)[k])
                },
            decreases self.slots@.len() - i,
        {
            let slot = &self.slots[i];
            match &slot.effect {
                Some(e) => {
                    if e.get_target() == target {
                        handles.push(ActiveEffectHandle::new(target, i as u32, slot.generation));
                    }
                },
                None => {},
            }
            i = i + 1;
        }
        handles
    }

    /// Returns the handles of every stored effect, in stable slot order.
    pub fn stored_handles(&self) -> (handles: Vec<ActiveEffectHandle>)
        requires
            self.wf(),
        ensures
            self.lists_stored_handles(handles@),
    {
        let mut handles: Vec<ActiveEffectHandle> = Vec::new();
        let mut i: usize = 0;
        while i < self.slots.len()
            invariant
                0 <= i <= self.slots@.len(),
                self.wf(),
                handles@.len() == self.occupied_slots(i as int).len(),
                forall|k: int| 0 <= k < handles@.len() ==> {
                    &&& (#[trigger] handles@[k]).target() == self.effect_at(self.occupied_slots(i as int)[k])->0.target()
                    &&& handles@[k].slot() == self.occupied_slots(i as int)[k]
                    &&& handles@[k].generation() == self.generation_at(self.occupied_slots(i as int)[k])
                },
            decreases self.slots@.len() - i,
        {
            let slot = &self.slots[i];
            match &slot.effect {
                Some(e) => {
                    handles.push(ActiveEffectHandle::new(e.get_target(), i as u32, slot.generation));
                },
                None => {},
            }
            i = i + 1;
        }
        handles
    }

    /// Stores `effect` for `target`, reusing the most recently freed slot if there is one,
    /// and returns its handle.
    ///
    /// Fails with [`ActiveEffectStorageError::CapacityExceeded`] only when no slot is free
    /// and every `u32` slot index is taken; the storage is then unchanged.
    pub fn insert(&mut self, target: EntityId, effect: ActiveGameplayEffect) -> (result: Result<
        ActiveEffectHandle,
        ActiveEffectStorageError,
    >)
        requires
            old(self).wf(),
        ensures
            final(self).wf(),
            result is Err <==> (old(self).free_list().len() == 0 && old(self).slot_count() > u32::MAX),
            result is Err ==> result == Err::<ActiveEffectHandle, ActiveEffectStorageError>(
                ActiveEffectStorageError::CapacityExceeded { target },
            ) && *final(self) == *old(self),
            result matches Ok(h) ==> {
                &&& h.target() == target
                &&& final(self).effect_at(h.slot() as int) == Some(effect)
                &&& final(self).generation_at(h.slot() as int) == h.generation()
                &&& final(self).same_slots_except(*old(self), h.slot() as int)
                &&& old(self).free_list().len() > 0 ==> {
                    &&& h.slot() == old(self).free_list().last()
                    &&& h.generation() == old(self).generation_at(h.slot() as int)
                    &&& final(self).free_list() == old(self).free_list().drop_last()
                    &&& final(self).slot_count() == old(self).slot_count()
                }
                &&& old(self).free_list().len() == 0 ==> {
                    &&& h.slot() == old(self).slot_count()
                    &&& h.generation() == 1
                    &&& final(self).free_list() == old(self).free_list()
                    &&& final(self).slot_count() == old(self).slot_count() + 1
                }
                &&& effect.target() == target ==> final(self).lookup(h) == Some(effect)
            },
            forall|h: ActiveEffectHandle| #[trigger] old(self).lookup(h) is Some ==> final(self).lookup(h) == old(self).lookup(h),
            forall|h: ActiveEffectHandle| #[trigger] old(self).retired(h) ==> final(self).retired(h),
    {
        if self.free_slots.len() > 0 {
            let slot_index = self.free_slots.pop().unwrap();
            let ghost s = slot_index as int;
            assert(old(self).free_list().last() == slot_index);
            let generation = self.slots[slot_index as usize].generation;
            let slot = &mut self.slots[slot_index as usize];
            slot.effect = Some(effect);
            proof {
                assert forall|t: int| 0 <= t < self.slot_count() implies #[trigger] self.generation_at(t) >= 1 by {
                    assert(self.generation_at(t) == old(self).generation_at(t));
                }
                assert forall|j: int, k: int| 0 <= j < k < self.free_list().len() implies #[trigger] self.free_list()[j]
                    != #[trigger] self.free_list()[k] by {
                    assert(self.free_list()[j] == old(self).free_list()[j]);
                    assert(self.free_list()[k] == old(self).free_list()[k]);
                }
                assert forall|k: int| 0 <= k < self.free_list().len() implies (#[trigger] self.free_list()[k]) < self.slot_count()
                    && self.effect_at(self.free_list()[k] as int) is None by {
                    assert(old(self).free_list()[k] == self.free_list()[k]);
                    assert(old(self).free_list()[k] != old(self).free_list()[old(self).free_list().len() - 1]);
                }
                assert forall|h: ActiveEffectHandle| #[trigger] old(self).retired(h) implies self.retired(h) by {
                    if h.slot() == slot_index && !(old(self).generation_at(s) > h.generation()) {
                        assert(old(self).free_list().contains(slot_index));
                    }
                    if h.slot() != slot_index && old(self).free_list().contains(h.slot()) == false {
                        if self.free_list().contains(h.slot()) {
                            let k = choose|k: int| 0 <= k < self.free_list().len() && self.free_list()[k] == h.slot();
                            assert(old(self).free_list()[k] == h.slot());
                        }
                    }
                }
            }
            return Ok(ActiveEffectHandle::new(target, slot_index, generation));
        }
        if self.slots.len() > 4294967295usize {
            return Err(ActiveEffectStorageError::CapacityExceeded { target });
        }
        let slot_index = self.slots.len() as u32;
        self.slots.push(ActiveEffectSlot { generation: 1, effect: Some(effect) });
        proof {
            assert forall|t: int| 0 <= t < self.slot_count() implies #[trigger] self.generation_at(t) >= 1 by {
                if t < old(self).slot_count() {
                    assert(self.generation_at(t) == old(self).generation_at(t));
                }
            }
            assert forall|k: int| 0 <= k < self.free_list().len() implies (#[trigger] self.free_list()[k]) < self.slot_count()
                && self.effect_at(self.free_list()[k] as int) is None by {
                assert(self.free_list()[k] == old(self).free_list()[k]);
            }
            assert forall|h: ActiveEffectHandle| #[trigger] old(self).retired(h) implies self.retired(h) by {
                assert(self.generation_at(h.slot() as int) == old(self).generation_at(h.slot() as int));
            }
            assert forall|h: ActiveEffectHandle| #[trigger] old(self).lookup(h) is Some implies self.lookup(h) == old(self).lookup(h) by {
                assert(self.generation_at(h.slot() as int) == old(self).generation_at(h.slot() as int));
                assert(self.effect_at(h.slot() as int) == old(self).effect_at(h.slot() as int));
            }
        }
        Ok(ActiveEffectHandle::new(target, slot_index, 1))
    }

    /// Removes and returns the effect named by `handle`, or returns `None` and changes
    /// nothing for a stale or foreign handle.
    ///
    /// The slot moves to the next generation and becomes free for reuse, unless its
    /// generation is already `u32::MAX`, in which case it is retired.
    pub fn remove(&mut self, handle: ActiveEffectHandle) -> (removed: Option<ActiveGameplayEffect>)
        requires
            old(self).wf(),
        ensures
            final(self).wf(),
            removed == old(self).lookup(handle),
            removed is None ==> *final(self) == *old(self),
            removed is Some ==> {
                let s = handle.slot() as int;
                &&& final(self).slot_count() == old(self).slot_count()
                &&& final(self).effect_at(s) is None
                &&& final(self).same_slots_except(*old(self), s)
                &&& handle.generation() < u32::MAX ==> final(self).generation_at(s) == handle.generation() + 1
                    && final(self).free_list() == old(self).free_list().push(handle.slot())
                &&& handle.generation() == u32::MAX ==> final(self).generation_at(s) == u32::MAX
                    && final(self).free_list() == old(self).free_list()
                &&& final(self).retired(handle)
            },
            forall|h: ActiveEffectHandle| #[trigger] old(self).lookup(h) is Some && h.slot() != handle.slot()
                ==> final(self).lookup(h) == old(self).lookup(h),
            forall|h: ActiveEffectHandle| #[trigger] old(self).retired(h) ==> final(self).retired(h),
            forall|h: ActiveEffectHandle| #[trigger] final(self).lookup(h) is Some ==> old(self).lookup(h) is Some,
    {
        let s = handle.get_slot() as usize;
        if s >= self.slots.len() {
            return None;
        }
        if self.slots[s].generation != handle.get_generation() {
            return None;
        }
        let matches = match &self.slots[s].effect {
            Some(e) => e.get_target() == handle.get_target(),
            None => false,
        };
        if !matches {
            return None;
        }
        let generation = self.slots[s].generation;
        let slot = &mut self.slots[s];
        let removed = slot.effect.take();
        if generation < u32::MAX {
            slot.generation = generation + 1;
            self.free_slots.push(handle.get_slot());
        }
        proof {
            assert(old(self).free_list().contains(handle.slot()) == false) by {
                if old(self).free_list().contains(handle.slot()) {
                    let k = choose|k: int| 0 <= k < old(self).free_list().len() && old(self).free_list()[k] == handle.slot();
                    assert(old(self).effect_at(old(self).free_list()[k] as int) is None);
                }
            }
            assert forall|t: int| 0 <= t < self.slot_count() implies #[trigger] self.generation_at(t) >= 1 by {
                assert(t != s ==> self.generation_at(t) == old(self).generation_at(t));
            }
            assert forall|k: int| 0 <= k < self.free_list().len() implies (#[trigger] self.free_list()[k]) < self.slot_count()
                && self.effect_at(self.free_list()[k] as int) is None by {
                if k < old(self).free_list().len() {
                    assert(self.free_list()[k] == old(self).free_list()[k]);
                }
            }
            assert forall|h: ActiveEffectHandle| #[trigger] old(self).retired(h) implies self.retired(h) by {
                if h.slot() != handle.slot() && !(old(self).generation_at(h.slot() as int) > h.generation()) {
                    if self.free_list().contains(h.slot()) {
                        let k = choose|k: int| 0 <= k < self.free_list().len() && self.free_list()[k] == h.slot();
                        if k < old(self).free_list().len() {
                            assert(old(self).free_list()[k] == h.slot());
                        }
                    }
                }
            }
            assert forall|j: int, k: int| 0 <= j < k < self.free_list().len() implies #[trigger] self.free_list()[j]
                != #[trigger] self.free_list()[k] by {
                if k == old(self).free_list().len() {
                    assert(old(self).free_list().contains(old(self).free_list()[j]));
                } else {
                    assert(self.free_list()[j] == old(self).free_list()[j]);
                    assert(self.free_list()[k] == old(self).free_list()[k]);
                }
            }
        }
        removed
    }

    /// Returns the slot index of the effect `handle` names, if it names one.
    fn live_slot(&self, handle: ActiveEffectHandle) -> (slot: Option<usize>)
        ensures
            slot is Some == self.lookup(handle) is Some,
            slot matches Some(s) ==> s == handle.slot() && s < self.slot_count(),
    {
        let s = handle.get_slot() as usize;
        if s >= self.slots.len() {
            return None;
        }
        if self.slots[s].generation != handle.get_generation() {
            return None;
        }
        match &self.slots[s].effect {
            Some(e) => if e.get_target() == handle.get_target() {
                Some(s)
            } else {
                None
            },
            None => None,
        }
    }

    /// Takes the effect out of occupied slot `s`, leaving the slot empty.
    fn take_effect(&mut self, s: usize) -> (effect: ActiveGameplayEffect)
        requires
            s < old(self).slot_count(),
            old(self).effect_at(s as int) is Some,
        ensures
            effect == old(self).effect_at(s as int)->0,
            final(self).slot_count() == old(self).slot_count(),
            final(self).free_list() == old(self).free_list(),
            final(self).effect_at(s as int) is None,
            final(self).generation_at(s as int) == old(self).generation_at(s as int),
            final(self).same_slots_except(*old(self), s as int),
    {
        let slot = &mut self.slots[s];
        slot.effect.take().unwrap()
    }

    /// Puts `effect` back into slot `s`.
    fn put_effect(&mut self, s: usize, effect: ActiveGameplayEffect)
        requires
            s < old(self).slot_count(),
        ensures
            final(self).slot_count() == old(self).slot_count(),
            final(self).free_list() == old(self).free_list(),
            final(self).effect_at(s as int) == Some(effect),
            final(self).generation_at(s as int) == old(self).generation_at(s as int),
            final(self).same_slots_except(*old(self), s as int),
    {
        let slot = &mut self.slots[s];
        slot.effect = Some(effect);
    }

    /// Advances the remaining duration of the effect `handle` names by one fixed tick and
    /// returns what happened, or returns `None` and changes nothing for a stale handle.
    ///
    /// An expired effect stays stored; the caller removes it.
    pub fn tick_duration_at(&mut self, handle: ActiveEffectHandle) -> (outcome: Option<DurationTickOutcome>)
        requires
            old(self).wf(),
        ensures
            final(self).wf(),
            forall|h: ActiveEffectHandle| #[trigger] old(self).retired(h) ==> final(self).retired(h),
            outcome is None <==> old(self).lookup(handle) is None,
            outcome is None ==> *final(self) == *old(self),
            outcome matches Some(o) ==> {
                let e = old(self).lookup(handle)->0;
                &&& o == e.duration_tick_outcome()
                &&& final(self).lookup(handle) == Some(e.after_duration_tick())
                &&& final(self).effect_at(handle.slot() as int) == Some(e.after_duration_tick())
                &&& final(self).same_slots_except(*old(self), handle.slot() as int)
                &&& final(self).generation_at(handle.slot() as int) == old(self).generation_at(handle.slot() as int)
                &&& final(self).slot_count() == old(self).slot_count()
                &&& final(self).free_list() == old(self).free_list()
                &&& forall|h: ActiveEffectHandle| #[trigger] final(self).lookup(h) is Some && h != handle
                    ==> old(self).lookup(h) == final(self).lookup(h)
                &&& forall|h: ActiveEffectHandle| #[trigger] old(self).lookup(h) is Some && h != handle
                    ==> old(self).lookup(h) == final(self).lookup(h)
            },
    {
        let s = match self.live_slot(handle) {
            None => {
                return None;
            },
            Some(s) => s,
        };
        let mut effect = self.take_effect(s);
        let outcome = effect.tick_duration();
        self.put_effect(s, effect);
        proof {
            self.lemma_wf_after_slot_edit(*old(self), s as int);
            self.lemma_edit_keeps_retired(*old(self), s as int);
            assert forall|h: ActiveEffectHandle| #[trigger] self.lookup(h) is Some && h != handle
                implies old(self).lookup(h) == self.lookup(h) by {
                if h.slot() == handle.slot() {
                    ActiveEffectHandle::lemma_eq(h, handle);
                }
            }
            assert forall|h: ActiveEffectHandle| #[trigger] old(self).lookup(h) is Some && h != handle
                implies old(self).lookup(h) == self.lookup(h) by {
                if h.slot() == handle.slot() {
                    ActiveEffectHandle::lemma_eq(h, handle);
                }
            }
        }
        Some(outcome)
    }

    /// Advances the period of the effect `handle` names by one fixed tick and returns whether
    /// it executes now, or returns `None` and changes nothing for a stale handle.
    pub fn tick_period_at(&mut self, handle: ActiveEffectHandle) -> (execute: Option<bool>)
        requires
            old(self).wf(),
        ensures
            final(self).wf(),
            forall|h: ActiveEffectHandle| #[trigger] old(self).retired(h) ==> final(self).retired(h),
            execute is None <==> old(self).lookup(handle) is None,
            execute is None ==> *final(self) == *old(self),
            execute matches Some(x) ==> {
                let e = old(self).lookup(handle)->0;
                &&& x == e.period_tick_executes()
                &&& final(self).lookup(handle) == Some(e.after_period_tick())
                &&& final(self).effect_at(handle.slot() as int) == Some(e.after_period_tick())
                &&& final(self).same_slots_except(*old(self), handle.slot() as int)
                &&& final(self).generation_at(handle.slot() as int) == old(self).generation_at(handle.slot() as int)
                &&& final(self).slot_count() == old(self).slot_count()
                &&& final(self).free_list() == old(self).free_list()
            },
    {
        let s = match self.live_slot(handle) {
            None => {
                return None;
            },
            Some(s) => s,
        };
        let mut effect = self.take_effect(s);
        let execute = effect.tick_period();
        self.put_effect(s, effect);
        proof {
            self.lemma_wf_after_slot_edit(*old(self), s as int);
            self.lemma_edit_keeps_retired(*old(self), s as int);
        }
        Some(execute)
    }

    /// Records a successful stack on the effect `handle` names and returns whether its retained
    /// modifiers must be reapplied, or returns `None` and changes nothing for a stale handle.
    pub fn apply_stack_at(
        &mut self,
        handle: ActiveEffectHandle,
        new_stack_count: u32,
        incoming: &GameplayEffectSpec,
    ) -> (refresh_modifiers: Option<bool>)
        requires
            old(self).wf(),
        ensures
            final(self).wf(),
            forall|h: ActiveEffectHandle| #[trigger] old(self).retired(h) ==> final(self).retired(h),
            refresh_modifiers is None <==> old(self).lookup(handle) is None,
            refresh_modifiers is None ==> *final(self) == *old(self),
            refresh_modifiers matches Some(r) ==> {
                let e = old(self).lookup(handle)->0;
                &&& r == e.retains_stacked_modifiers()
                &&& final(self).lookup(handle) == Some(e.after_stack(new_stack_count, *incoming))
                &&& final(self).same_slots_except(*old(self), handle.slot() as int)
                &&& final(self).generation_at(handle.slot() as int) == old(self).generation_at(handle.slot() as int)
                &&& final(self).slot_count() == old(self).slot_count()
                &&& final(self).free_list() == old(self).free_list()
                &&& forall|h: ActiveEffectHandle| #[trigger] final(self).lookup(h) is Some && h != handle
                    ==> old(self).lookup(h) == final(self).lookup(h)
                &&& forall|h: ActiveEffectHandle| #[trigger] old(self).lookup(h) is Some && h != handle
                    ==> old(self).lookup(h) == final(self).lookup(h)
            },
    {
        let s = match self.live_slot(handle) {
            None => {
                return None;
            },
            Some(s) => s,
        };
        let mut effect = self.take_effect(s);
        let refresh = effect.apply_stack(new_stack_count, incoming);
        self.put_effect(s, effect);
        proof {
            self.lemma_wf_after_slot_edit(*old(self), s as int);
            self.lemma_edit_keeps_retired(*old(self), s as int);
            assert forall|h: ActiveEffectHandle| #[trigger] self.lookup(h) is Some && h != handle
                implies old(self).lookup(h) == self.lookup(h) by {
                if h.slot() == handle.slot() {
                    ActiveEffectHandle::lemma_eq(h, handle);
                }
            }
            assert forall|h: ActiveEffectHandle| #[trigger] old(self).lookup(h) is Some && h != handle
                implies old(self).lookup(h) == self.lookup(h) by {
                if h.slot() == handle.slot() {
                    ActiveEffectHandle::lemma_eq(h, handle);
                }
            }
        }
        Some(refresh)
    }

    /// Marks the effect `handle` names inhibited or active and returns whether the handle was
    /// live; a stale handle changes nothing.
    pub fn set_inhibited_at(&mut self, handle: ActiveEffectHandle, inhibited: bool) -> (live: bool)
        requires
            old(self).wf(),
        ensures
            final(self).wf(),
            forall|h: ActiveEffectHandle| #[trigger] old(self).retired(h) ==> final(self).retired(h),
            forall|h: ActiveEffectHandle| #[trigger] final(self).lookup(h) is Some <==> old(self).lookup(h) is Some,
            live == old(self).lookup(handle) is Some,
            !live ==> *final(self) == *old(self),
            live ==> {
                &&& final(self).lookup(handle) == Some(old(self).lookup(handle)->0.with_inhibited(inhibited))
                &&& final(self).same_slots_except(*old(self), handle.slot() as int)
                &&& final(self).generation_at(handle.slot() as int) == old(self).generation_at(handle.slot() as int)
                &&& final(self).slot_count() == old(self).slot_count()
                &&& final(self).free_list() == old(self).free_list()
            },
    {
        let s = match self.live_slot(handle) {
            None => {
                return false;
            },
            Some(s) => s,
        };
        let mut effect = self.take_effect(s);
        effect.set_inhibited(inhibited);
        self.put_effect(s, effect);
        proof {
            self.lemma_wf_after_slot_edit(*old(self), s as int);
            self.lemma_edit_keeps_retired(*old(self), s as int);
        }
        true
    }

    /// Replacing an occupied slot's effect with another effect keeps the storage consistent.
    proof fn lemma_wf_after_slot_edit(self, before: Self, s: int)
        requires
            before.wf(),
            0 <= s < before.slot_count(),
            before.effect_at(s) is Some,
            self.effect_at(s) is Some,
            self.slot_count() == before.slot_count(),
            self.free_list() == before.free_list(),
            self.generation_at(s) == before.generation_at(s),
            self.same_slots_except(before, s),
        ensures
            self.wf(),
    {
        assert forall|t: int| 0 <= t < self.slot_count() implies #[trigger] self.generation_at(t) >= 1 by {
            assert(t != s ==> self.generation_at(t) == before.generation_at(t));
        }
        assert forall|k: int| 0 <= k < self.free_list().len() implies (#[trigger] self.free_list()[k]) < self.slot_count()
            && self.effect_at(self.free_list()[k] as int) is None by {
            assert(before.effect_at(before.free_list()[k] as int) is None);
        }
    }

    /// The slots targeting `target` are increasing, below `n`, and hold effects of `target`.
    pub proof fn lemma_slots_targeting(self, target: EntityId, n: int)
        requires
            0 <= n <= self.slot_count(),
        ensures
            forall|i: int, j: int|
                0 <= i < j < self.slots_targeting(target, n).len() ==> #[trigger] self.slots_targeting(target, n)[i]
                    < #[trigger] self.slots_targeting(target, n)[j],
            forall|i: int|
                0 <= i < self.slots_targeting(target, n).len() ==> 0 <= #[trigger] self.slots_targeting(target, n)[i] < n
                    && self.targets_at(self.slots_targeting(target, n)[i], target),
            forall|t: int|
                0 <= t < n && self.targets_at(t, target) ==> self.slots_targeting(
                    target,
                    n,
                ).contains(t),
        decreases n,
    {
        if n > 0 {
            self.lemma_slots_targeting(target, n - 1);
            let prev = self.slots_targeting(target, n - 1);
            assert forall|t: int|
                0 <= t < n && self.targets_at(t, target) implies self.slots_targeting(
                    target,
                    n,
                ).contains(t) by {
                if t < n - 1 {
                    let k = choose|k: int| 0 <= k < prev.len() && prev[k] == t;
                    assert(self.slots_targeting(target, n)[k] == t);
                } else {
                    assert(self.slots_targeting(target, n).last() == t);
                }
            }
        }
    }

    /// Advances the duration of every effect targeting `target` by one fixed tick, in slot
    /// order, removing expired effects.
    ///
    /// Returns the removed effects and the effects whose retained modifiers must be reapplied
    /// because they lost one stack.
    pub fn tick_durations(&mut self, target: EntityId) -> (report: DurationTickReport)
        requires
            old(self).wf(),
        ensures
            final(self).wf(),
            forall|h: ActiveEffectHandle| #[trigger] old(self).retired(h) ==> final(self).retired(h),
            final(self).slot_count() == old(self).slot_count(),
            forall|t: int| 0 <= t < old(self).slot_count() && !old(self).targets_at(t, target)
                ==> #[trigger] final(self).effect_at(t) == old(self).effect_at(t) && final(self).generation_at(t)
                == old(self).generation_at(t),
            forall|h: ActiveEffectHandle| #[trigger] old(self).lookup(h) is Some && h.target() == target ==> {
                let e = old(self).lookup(h)->0;
                &&& e.duration_tick_outcome() == DurationTickOutcome::Expired ==> final(self).lookup(h) is None
                    && final(self).retired(h)
                &&& e.duration_tick_outcome() != DurationTickOutcome::Expired ==> final(self).lookup(h) == Some(
                    e.after_duration_tick(),
                )
                &&& e.duration_tick_outcome() == DurationTickOutcome::Expired ==> exists|k: int|
                    0 <= k < report.expired@.len() && (#[trigger] report.expired@[k]).handle == h
                &&& e.duration_tick_outcome() == (DurationTickOutcome::StackExpired { refresh_modifiers: true })
                    ==> exists|k: int| 0 <= k < report.refreshed@.len() && (#[trigger] report.refreshed@[k]).handle == h
            },
            forall|k: int| 0 <= k < report.expired@.len() ==> {
                let x = #[trigger] report.expired@[k];
                &&& old(self).lookup(x.handle) is Some && x.handle.target() == target
                &&& old(self).lookup(x.handle)->0.duration_tick_outcome() == DurationTickOutcome::Expired
                &&& x.effect == old(self).lookup(x.handle)->0.after_duration_tick()
            },
            forall|k: int| 0 <= k < report.refreshed@.len() ==> {
                let x = #[trigger] report.refreshed@[k];
                &&& old(self).lookup(x.handle) is Some && x.handle.target() == target
                &&& old(self).lookup(x.handle)->0.duration_tick_outcome() == (DurationTickOutcome::StackExpired {
                    refresh_modifiers: true,
                })
                &&& x.stack_count == old(self).lookup(x.handle)->0.after_duration_tick().stacks()
            },
    {
        let handles = self.handles(target);
        let ghost slots = old(self).slots_targeting(target, old(self).slot_count() as int);
        proof {
            old(self).lemma_slots_targeting(target, old(self).slot_count() as int);
        }
        let mut expired: Vec<ExpiredEffect> = Vec::new();
        let mut refreshed: Vec<StackRefresh> = Vec::new();
        let mut i: usize = 0;
        while i < handles.len()
            invariant
                0 <= i <= handles@.len(),
                old(self).wf(),
                self.wf(),
                forall|h: ActiveEffectHandle| #[trigger] old(self).retired(h) ==> self.retired(h),
                old(self).lists_handles_of(target, handles@),
                slots == old(self).slots_targeting(target, old(self).slot_count() as int),
                forall|a: int, b: int| 0 <= a < b < slots.len() ==> #[trigger] slots[a] < #[trigger] slots[b],
                forall|a: int| 0 <= a < slots.len() ==> 0 <= #[trigger] slots[a] < old(self).slot_count()
                    && old(self).targets_at(slots[a], target),
                forall|t: int| 0 <= t < old(self).slot_count() && old(self).targets_at(t, target) ==> slots.contains(t),
                self.slot_count() == old(self).slot_count(),
                forall|t: int| 0 <= t < old(self).slot_count() && !slots.contains(t)
                    ==> #[trigger] self.effect_at(t) == old(self).effect_at(t) && self.generation_at(t)
                    == old(self).generation_at(t),
                forall|a: int| i <= a < handles@.len() ==> #[trigger] self.lookup(handles@[a]) == old(self).lookup(handles@[a])
                    && self.effect_at(slots[a]) == old(self).effect_at(slots[a]) && self.generation_at(slots[a])
                    == old(self).generation_at(slots[a]),
                forall|a: int| 0 <= a < i ==> {
                    let e = old(self).lookup(#[trigger] handles@[a])->0;
                    &&& e.duration_tick_outcome() == DurationTickOutcome::Expired ==> self.lookup(handles@[a]) is None
                        && self.retired(handles@[a])
                    &&& e.duration_tick_outcome() != DurationTickOutcome::Expired ==> self.lookup(handles@[a]) == Some(
                        e.after_duration_tick(),
                    )
                    &&& e.duration_tick_outcome() == DurationTickOutcome::Expired ==> exists|k: int|
                        0 <= k < expired@.len() && (#[trigger] expired@[k]).handle == handles@[a]
                    &&& e.duration_tick_outcome() == (DurationTickOutcome::StackExpired { refresh_modifiers: true })
                        ==> exists|k: int| 0 <= k < refreshed@.len() && (#[trigger] refreshed@[k]).handle == handles@[a]
                },
                forall|k: int| 0 <= k < expired@.len() ==> {
                    let x = #[trigger] expired@[k];
                    &&& old(self).lookup(x.handle) is Some && x.handle.target() == target
                    &&& old(self).lookup(x.handle)->0.duration_tick_outcome() == DurationTickOutcome::Expired
                    &&& x.effect == old(self).lookup(x.handle)->0.after_duration_tick()
                },
                forall|k: int| 0 <= k < refreshed@.len() ==> {
                    let x = #[trigger] refreshed@[k];
                    &&& old(self).lookup(x.handle) is Some && x.handle.target() == target
                    &&& old(self).lookup(x.handle)->0.duration_tick_outcome() == (DurationTickOutcome::StackExpired {
                        refresh_modifiers: true,
                    })
                    &&& x.stack_count == old(self).lookup(x.handle)->0.after_duration_tick().stacks()
                },
            decreases handles@.len() - i,
        {
            let handle = handles[i];
            let ghost exp0 = expired@;
            let ghost ref0 = refreshed@;
            assert(old(self).lookup(handle) is Some) by {
                assert(old(self).effect_at(slots[i as int]) is Some);
            }
            let outcome = self.tick_duration_at(handle).unwrap();
            match outcome {
                DurationTickOutcome::Expired => {
                    let effect = self.remove(handle).unwrap();
                    expired.push(ExpiredEffect { handle, effect });
                },
                DurationTickOutcome::StackExpired { refresh_modifiers } => {
                    if refresh_modifiers {
                        let stack_count = self.get(handle).unwrap().get_stack_count();
                        refreshed.push(StackRefresh { handle, stack_count });
                    }
                },
                _ => {},
            }
            proof {
                assert forall|t: int| 0 <= t < old(self).slot_count() && !slots.contains(t)
                    implies #[trigger] self.effect_at(t) == old(self).effect_at(t) && self.generation_at(t)
                    == old(self).generation_at(t) by {
                    assert(t != slots[i as int]);
                }
                assert forall|a: int| i + 1 <= a < handles@.len() implies #[trigger] self.lookup(handles@[a])
                    == old(self).lookup(handles@[a]) && self.effect_at(slots[a]) == old(self).effect_at(slots[a])
                    && self.generation_at(slots[a]) == old(self).generation_at(slots[a]) by {
                    assert(slots[a] != slots[i as int]);
                }
                assert forall|a: int| 0 <= a < i + 1 implies {
                    let e = old(self).lookup(#[trigger] handles@[a])->0;
                    &&& e.duration_tick_outcome() == DurationTickOutcome::Expired ==> self.lookup(handles@[a]) is None
                        && self.retired(handles@[a])
                    &&& e.duration_tick_outcome() != DurationTickOutcome::Expired ==> self.lookup(handles@[a]) == Some(
                        e.after_duration_tick(),
                    )
                    &&& e.duration_tick_outcome() == DurationTickOutcome::Expired ==> exists|k: int|
                        0 <= k < expired@.len() && (#[trigger] expired@[k]).handle == handles@[a]
                    &&& e.duration_tick_outcome() == (DurationTickOutcome::StackExpired { refresh_modifiers: true })
                        ==> exists|k: int| 0 <= k < refreshed@.len() && (#[trigger] refreshed@[k]).handle == handles@[a]
                } by {
                    if a < i {
                        assert(slots[a] != slots[i as int]);
                        assert(handles@[a].slot() != handle.slot());
                        let e = old(self).lookup(handles@[a])->0;
                        if e.duration_tick_outcome() == DurationTickOutcome::Expired {
                            let k = choose|k: int| 0 <= k < exp0.len() && (#[trigger] exp0[k]).handle == handles@[a];
                            assert(expired@[k] == exp0[k]);
                        }
                        if e.duration_tick_outcome() == (DurationTickOutcome::StackExpired { refresh_modifiers: true }) {
                            let k = choose|k: int| 0 <= k < ref0.len() && (#[trigger] ref0[k]).handle == handles@[a];
                            assert(refreshed@[k] == ref0[k]);
                        }
                    }
                    if a == i {
                        let e = old(self).lookup(handles@[a])->0;
                        if e.duration_tick_outcome() == DurationTickOutcome::Expired {
                            assert(expired@[expired@.len() - 1].handle == handles@[a]);
                        }
                        if e.duration_tick_outcome() == (DurationTickOutcome::StackExpired { refresh_modifiers: true }) {
                            assert(refreshed@[refreshed@.len() - 1].handle == handles@[a]);
                        }
                    }
                }
            }
            i = i + 1;
        }
        proof {
            assert forall|h: ActiveEffectHandle| #[trigger] old(self).lookup(h) is Some && h.target() == target implies {
                let e = old(self).lookup(h)->0;
                &&& e.duration_tick_outcome() == DurationTickOutcome::Expired ==> self.lookup(h) is None && self.retired(h)
                &&& e.duration_tick_outcome() != DurationTickOutcome::Expired ==> self.lookup(h) == Some(
                    e.after_duration_tick(),
                )
                &&& e.duration_tick_outcome() == DurationTickOutcome::Expired ==> exists|k: int|
                    0 <= k < expired@.len() && (#[trigger] expired@[k]).handle == h
                &&& e.duration_tick_outcome() == (DurationTickOutcome::StackExpired { refresh_modifiers: true })
                    ==> exists|k: int| 0 <= k < refreshed@.len() && (#[trigger] refreshed@[k]).handle == h
            } by {
                let t = h.slot() as int;
                assert(slots.contains(t));
                let a = choose|a: int| 0 <= a < slots.len() && slots[a] == t;
                ActiveEffectHandle::lemma_eq(handles@[a], h);
            }
            assert forall|t: int| 0 <= t < old(self).slot_count() && !old(self).targets_at(t, target)
                implies #[trigger] self.effect_at(t) == old(self).effect_at(t) && self.generation_at(t)
                == old(self).generation_at(t) by {
                if slots.contains(t) {
                    let a = choose|a: int| 0 <= a < slots.len() && slots[a] == t;
                }
            }
        }
        DurationTickReport { expired, refreshed }
    }

    /// Advances the period of every effect targeting `target` by one fixed tick, in slot
    /// order, and returns the effects with modifiers that execute on this tick.
    pub fn tick_periods(&mut self, target: EntityId) -> (executions: Vec<PeriodicExecution>)
        requires
            old(self).wf(),
        ensures
            final(self).wf(),
            forall|h: ActiveEffectHandle| #[trigger] old(self).retired(h) ==> final(self).retired(h),
            final(self).slot_count() == old(self).slot_count(),
            final(self).free_list() == old(self).free_list(),
            forall|t: int| 0 <= t < old(self).slot_count() ==> #[trigger] final(self).generation_at(t)
                == old(self).generation_at(t),
            forall|t: int| 0 <= t < old(self).slot_count() && !old(self).targets_at(t, target)
                ==> #[trigger] final(self).effect_at(t) == old(self).effect_at(t),
            forall|h: ActiveEffectHandle| #[trigger] old(self).lookup(h) is Some && h.target() == target ==> {
                let e = old(self).lookup(h)->0;
                &&& final(self).lookup(h) == Some(e.after_period_tick())
                &&& (e.period_tick_executes() && e.spec_of().modifier_count() > 0) ==> exists|k: int|
                    0 <= k < executions@.len() && (#[trigger] executions@[k]).handle == h
            },
            forall|k: int| 0 <= k < executions@.len() ==> {
                let x = #[trigger] executions@[k];
                &&& old(self).lookup(x.handle) is Some && x.handle.target() == target
                &&& old(self).lookup(x.handle)->0.period_tick_executes()
                &&& old(self).lookup(x.handle)->0.spec_of().modifier_count() > 0
                &&& x.stack_count == old(self).lookup(x.handle)->0.stacks()
            },
    {
        let handles = self.handles(target);
        let ghost slots = old(self).slots_targeting(target, old(self).slot_count() as int);
        proof {
            old(self).lemma_slots_targeting(target, old(self).slot_count() as int);
        }
        let mut executions: Vec<PeriodicExecution> = Vec::new();
        let mut i: usize = 0;
        while i < handles.len()
            invariant
                0 <= i <= handles@.len(),
                old(self).wf(),
                self.wf(),
                forall|h: ActiveEffectHandle| #[trigger] old(self).retired(h) ==> self.retired(h),
                old(self).lists_handles_of(target, handles@),
                slots == old(self).slots_targeting(target, old(self).slot_count() as int),
                forall|a: int, b: int| 0 <= a < b < slots.len() ==> #[trigger] slots[a] < #[trigger] slots[b],
                forall|a: int| 0 <= a < slots.len() ==> 0 <= #[trigger] slots[a] < old(self).slot_count()
                    && old(self).targets_at(slots[a], target),
                forall|t: int| 0 <= t < old(self).slot_count() && old(self).targets_at(t, target) ==> slots.contains(t),
                self.slot_count() == old(self).slot_count(),
                self.free_list() == old(self).free_list(),
                forall|t: int| 0 <= t < old(self).slot_count() ==> #[trigger] self.generation_at(t)
                    == old(self).generation_at(t),
                forall|t: int| 0 <= t < old(self).slot_count() && !slots.contains(t)
                    ==> #[trigger] self.effect_at(t) == old(self).effect_at(t),
                forall|a: int| i <= a < handles@.len() ==> #[trigger] self.lookup(handles@[a]) == old(self).lookup(handles@[a])
                    && self.effect_at(slots[a]) == old(self).effect_at(slots[a]),
                forall|a: int| 0 <= a < i ==> {
                    let e = old(self).lookup(#[trigger] handles@[a])->0;
                    &&& self.lookup(handles@[a]) == Some(e.after_period_tick())
                    &&& (e.period_tick_executes() && e.spec_of().modifier_count() > 0) ==> exists|k: int|
                        0 <= k < executions@.len() && (#[trigger] executions@[k]).handle == handles@[a]
                },
                forall|k: int| 0 <= k < executions@.len() ==> {
                    let x = #[trigger] executions@[k];
                    &&& old(self).lookup(x.handle) is Some && x.handle.target() == target
                    &&& old(self).lookup(x.handle)->0.period_tick_executes()
                    &&& old(self).lookup(x.handle)->0.spec_of().modifier_count() > 0
                    &&& x.stack_count == old(self).lookup(x.handle)->0.stacks()
                },
            decreases handles@.len() - i,
        {
            let handle = handles[i];
            let ghost exe0 = executions@;
            assert(old(self).lookup(handle) is Some) by {
                assert(old(self).effect_at(slots[i as int]) is Some);
            }
            let stack_count = self.get(handle).unwrap().get_stack_count();
            let has_modifiers = self.get(handle).unwrap().get_spec().has_modifiers();
            let execute = self.tick_period_at(handle).unwrap();
            if execute && has_modifiers {
                executions.push(PeriodicExecution { handle, stack_count });
            }
            proof {
                assert forall|t: int| 0 <= t < old(self).slot_count() && !slots.contains(t)
                    implies #[trigger] self.effect_at(t) == old(self).effect_at(t) by {
                    assert(t != slots[i as int]);
                }
                assert forall|t: int| 0 <= t < old(self).slot_count() implies #[trigger] self.generation_at(t)
                    == old(self).generation_at(t) by {
                }
                assert forall|a: int| i + 1 <= a < handles@.len() implies #[trigger] self.lookup(handles@[a])
                    == old(self).lookup(handles@[a]) && self.effect_at(slots[a]) == old(self).effect_at(slots[a]) by {
                    assert(slots[a] != slots[i as int]);
                }
                assert forall|a: int| 0 <= a < i + 1 implies {
                    let e = old(self).lookup(#[trigger] handles@[a])->0;
                    &&& self.lookup(handles@[a]) == Some(e.after_period_tick())
                    &&& (e.period_tick_executes() && e.spec_of().modifier_count() > 0) ==> exists|k: int|
                        0 <= k < executions@.len() && (#[trigger] executions@[k]).handle == handles@[a]
                } by {
                    let e = old(self).lookup(handles@[a])->0;
                    if a < i {
                        assert(slots[a] != slots[i as int]);
                        if e.period_tick_executes() && e.spec_of().modifier_count() > 0 {
                            let k = choose|k: int| 0 <= k < exe0.len() && (#[trigger] exe0[k]).handle == handles@[a];
                            assert(executions@[k] == exe0[k]);
                        }
                    } else if e.period_tick_executes() && e.spec_of().modifier_count() > 0 {
                        assert(executions@[executions@.len() - 1].handle == handles@[a]);
                    }
                }
            }
            i = i + 1;
        }
        proof {
            assert forall|h: ActiveEffectHandle| #[trigger] old(self).lookup(h) is Some && h.target() == target implies {
                let e = old(self).lookup(h)->0;
                &&& self.lookup(h) == Some(e.after_period_tick())
                &&& (e.period_tick_executes() && e.spec_of().modifier_count() > 0) ==> exists|k: int|
                    0 <= k < executions@.len() && (#[trigger] executions@[k]).handle == h
            } by {
                let t = h.slot() as int;
                assert(slots.contains(t));
                let a = choose|a: int| 0 <= a < slots.len() && slots[a] == t;
                ActiveEffectHandle::lemma_eq(handles@[a], h);
            }
            assert forall|t: int| 0 <= t < old(self).slot_count() && !old(self).targets_at(t, target)
                implies #[trigger] self.effect_at(t) == old(self).effect_at(t) by {
                if slots.contains(t) {
                    let a = choose|a: int| 0 <= a < slots.len() && slots[a] == t;
                }
            }
        }
        executions
    }

    /// The handles of the stored effects.
    pub open spec fn live_handles(self) -> Set<ActiveEffectHandle> {
        Set::new(|h: ActiveEffectHandle| self.lookup(h) is Some)
    }

    /// The handle of the effect in occupied slot `t`.
    pub open spec fn handle_at(self, t: int) -> ActiveEffectHandle {
        ActiveEffectHandle::from_parts(self.effect_at(t)->0.target(), t as u32, self.generation_at(t))
    }

    /// The stored effects are finitely many: one handle per occupied slot.
    pub proof fn lemma_live_handles_count(self)
        requires
            self.wf(),
        ensures
            self.live_handles().finite(),
            self.live_handles().len() == self.occupied_slots(self.slot_count() as int).len(),
    {
        let n = self.slot_count() as int;
        let occ = self.occupied_slots(n);
        self.lemma_occupied_slots(n);
        assert(occ.no_duplicates()) by {
            assert forall|i: int, j: int| 0 <= i < occ.len() && 0 <= j < occ.len() && i != j implies occ[i] != occ[j] by {
                if i < j {
                    assert(occ[i] < occ[j]);
                } else {
                    assert(occ[j] < occ[i]);
                }
            }
        }
        occ.unique_seq_to_set();
        let slots = occ.to_set();
        let f = |t: int| self.handle_at(t);
        assert(slots.map(f) =~= self.live_handles()) by {
            assert forall|h: ActiveEffectHandle| #[trigger] self.live_handles().contains(h) implies slots.map(f).contains(h) by {
                let t = h.slot() as int;
                assert(occ.contains(t));
                ActiveEffectHandle::lemma_from_parts(self.effect_at(t)->0.target(), t as u32, self.generation_at(t));
                ActiveEffectHandle::lemma_eq(self.handle_at(t), h);
                assert(slots.contains(t) && f(t) == h);
            }
            assert forall|h: ActiveEffectHandle| #[trigger] slots.map(f).contains(h) implies self.live_handles().contains(h) by {
                let t = choose|t: int| slots.contains(t) && f(t) == h;
                let k = choose|k: int| 0 <= k < occ.len() && occ[k] == t;
                assert(0 <= t < n && self.effect_at(t) is Some);
                ActiveEffectHandle::lemma_from_parts(self.effect_at(t)->0.target(), t as u32, self.generation_at(t));
            }
        }
        assert(vstd::relations::injective_on(f, slots)) by {
            assert forall|a: int, b: int| slots.contains(a) && slots.contains(b) && #[trigger] f(a) == #[trigger] f(b) implies a == b by {
                let ka = choose|k: int| 0 <= k < occ.len() && occ[k] == a;
                let kb = choose|k: int| 0 <= k < occ.len() && occ[k] == b;
                ActiveEffectHandle::lemma_from_parts(self.effect_at(a)->0.target(), a as u32, self.generation_at(a));
                ActiveEffectHandle::lemma_from_parts(self.effect_at(b)->0.target(), b as u32, self.generation_at(b));
            }
        }
        vstd::set_lib::lemma_map_size(slots, self.live_handles(), f);
    }

    /// The occupied slots are increasing, below `n`, and hold effects.
    pub proof fn lemma_occupied_slots(self, n: int)
        requires
            0 <= n <= self.slot_count(),
        ensures
            forall|i: int, j: int|
                0 <= i < j < self.occupied_slots(n).len() ==> #[trigger] self.occupied_slots(n)[i]
                    < #[trigger] self.occupied_slots(n)[j],
            forall|i: int|
                0 <= i < self.occupied_slots(n).len() ==> 0 <= #[trigger] self.occupied_slots(n)[i] < n
                    && self.effect_at(self.occupied_slots(n)[i]) is Some,
            forall|t: int| 0 <= t < n && self.effect_at(t) is Some ==> self.occupied_slots(n).contains(t),
        decreases n,
    {
        if n > 0 {
            self.lemma_occupied_slots(n - 1);
            let prev = self.occupied_slots(n - 1);
            assert(self.occupied_slots(n) == if self.effect_at(n - 1) is Some {
                prev.push(n - 1)
            } else {
                prev
            });
            assert forall|t: int| 0 <= t < n && self.effect_at(t) is Some implies self.occupied_slots(n).contains(t) by {
                if t < n - 1 {
                    assert(prev.contains(t));
                    let k = choose|k: int| 0 <= k < prev.len() && prev[k] == t;
                    assert(self.occupied_slots(n)[k] == t);
                } else {
                    assert(self.occupied_slots(n).last() == t);
                }
            }
        }
    }

    /// A retired handle names no effect: once removed, a handle never becomes valid again,
    /// since every operation of the storage keeps retired handles retired.
    pub proof fn lemma_retired_handle_is_stale(self, h: ActiveEffectHandle)
        requires
            self.retired(h),
        ensures
            self.lookup(h) is None,
    {
    }

    /// Editing the effect of an occupied slot keeps retired handles retired.
    proof fn lemma_edit_keeps_retired(self, before: Self, s: int)
        requires
            0 <= s < before.slot_count(),
            before.effect_at(s) is Some,
            self.effect_at(s) is Some,
            self.slot_count() == before.slot_count(),
            self.free_list() == before.free_list(),
            self.generation_at(s) == before.generation_at(s),
            self.same_slots_except(before, s),
        ensures
            forall|h: ActiveEffectHandle| #[trigger] before.retired(h) ==> self.retired(h),
    {
        assert forall|h: ActiveEffectHandle| #[trigger] before.retired(h) implies self.retired(h) by {
            if h.slot() as int != s {
                assert(self.generation_at(h.slot() as int) == before.generation_at(h.slot() as int));
                assert(self.effect_at(h.slot() as int) == before.effect_at(h.slot() as int));
            }
        }
    }

    /// Takes every stored effect out, in slot order with its handle, leaving empty storage.
    pub fn take_effects(&mut self) -> (taken: Vec<ExpiredEffect>)
        requires
            old(self).wf(),
        ensures
            final(self).wf(),
            final(self).slot_count() == 0,
            old(self).lists_stored_handles(taken@.map_values(|x: ExpiredEffect| x.handle)),
            forall|k: int| 0 <= k < taken@.len() ==> old(self).lookup((#[trigger] taken@[k]).handle) == Some(taken@[k].effect),
    {
        let handles = self.stored_handles();
        let ghost slots = old(self).occupied_slots(old(self).slot_count() as int);
        proof {
            old(self).lemma_occupied_slots(old(self).slot_count() as int);
        }
        let mut slots_vec: Vec<ActiveEffectSlot> = Vec::new();
        std::mem::swap(&mut slots_vec, &mut self.slots);
        self.free_slots.clear();
        let mut taken: Vec<ExpiredEffect> = Vec::new();
        let mut k: usize = 0;
        while k < handles.len()
            invariant
                0 <= k <= handles@.len(),
                old(self).wf(),
                old(self).lists_stored_handles(handles@),
                slots == old(self).occupied_slots(old(self).slot_count() as int),
                forall|a: int, b: int| 0 <= a < b < slots.len() ==> #[trigger] slots[a] < #[trigger] slots[b],
                forall|a: int| 0 <= a < slots.len() ==> 0 <= #[trigger] slots[a] < old(self).slot_count()
                    && old(self).effect_at(slots[a]) is Some,
                slots_vec@.len() == old(self).slots@.len(),
                forall|t: int| 0 <= t < slots_vec@.len() ==> (#[trigger] slots_vec@[t]).generation == old(self).slots@[t].generation,
                forall|a: int| k <= a < slots.len() ==> slots_vec@[slots[a]].effect == old(self).slots@[slots[a]].effect,
                taken@.len() == k,
                forall|j: int| 0 <= j < k ==> (#[trigger] taken@[j]).handle == handles@[j] && old(self).lookup(handles@[j])
                    == Some(taken@[j].effect),
                self.slots@.len() == 0,
                self.free_slots@.len() == 0,
            decreases handles@.len() - k,
        {
            let handle = handles[k];
            let s = handle.get_slot() as usize;
            let slot = &mut slots_vec[s];
            let effect = slot.effect.take().unwrap();
            taken.push(ExpiredEffect { handle, effect });
            proof {
                assert forall|a: int| k + 1 <= a < slots.len() implies slots_vec@[slots[a]].effect == old(self).slots@[slots[a]].effect by {
                    assert(slots[k as int] < slots[a]);
                }
            }
            k = k + 1;
        }
        proof {
            let mapped = taken@.map_values(|x: ExpiredEffect| x.handle);
            assert(mapped =~= handles@);
        }
        taken
    }
}

/// Allocates deterministic identities for effect-storage installations: 1, 2, 3, and so on,
/// then 0 for every installation once the identities are exhausted.
pub struct ActiveEffectStorageRegistry {
    next_id: Option<u64>,
}

impl ActiveEffectStorageRegistry {
    /// The identity the next installation receives, or `None` once exhausted.
    pub closed spec fn next(self) -> Option<u64> {
        self.next_id
    }

    /// Returns the identity of a new installation.
    pub fn allocate(&mut self) -> (id: u64)
        ensures
            old(self).next() is None ==> id == 0 && final(self).next() is None,
            old(self).next() matches Some(n) ==> id == n && final(self).next() == (if n == u64::MAX {
                None
            } else {
                Some((n + 1) as u64)
            }),
    {
        match self.next_id {
            None => 0,
            Some(id) => {
                self.next_id = id.checked_add(1);
                id
            },
        }
    }
}

impl Default for ActiveEffectStorageRegistry {
    /// Creates a registry whose first identity is 1.
    fn default() -> (registry: Self)
        ensures
            registry.next() == Some(1u64),
    {
        ActiveEffectStorageRegistry { next_id: Some(1) }
    }
}

} // verus!
