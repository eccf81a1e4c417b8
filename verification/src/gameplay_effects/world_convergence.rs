//! Requirement convergence over a whole effect world.

use super::convergence::{first_seen, RequirementConvergence, RequirementSignatureEntry};
use super::world::EffectWorld;
use super::world_count::{bounded_sequences, entries_over, lemma_bounded_sequences, lemma_entries_over_finite};
use super::ActiveEffectHandle;
use crate::gameplay_tags::GameplayTagManager;
use vstd::prelude::*;

verus! {

/// A signature that occurs in `seen` occurs there a first time.
proof fn lemma_first_occurrence(seen: Seq<(Seq<RequirementSignatureEntry>, nat)>, state: Seq<RequirementSignatureEntry>, w: int)
    requires
        0 <= w < seen.len(),
        seen[w].0 == state,
    ensures
        exists|k: int| 0 <= k < seen.len() && (#[trigger] seen[k]).0 == state && forall|j: int| 0 <= j < k ==> (#[trigger] seen[j]).0 != state,
    decreases w,
{
    if exists|j: int| 0 <= j < w && (#[trigger] seen[j]).0 == state {
        let j = choose|j: int| 0 <= j < w && (#[trigger] seen[j]).0 == state;
        lemma_first_occurrence(seen, state, j);
    } else {
        assert(forall|j: int| 0 <= j < w ==> (#[trigger] seen[j]).0 != state);
    }
}

/// `first_seen` finds an occurrence of a signature that occurs, and nothing otherwise.
proof fn lemma_first_seen(seen: Seq<(Seq<RequirementSignatureEntry>, nat)>, state: Seq<RequirementSignatureEntry>)
    ensures
        first_seen(seen, state) matches Some(k) ==> 0 <= k < seen.len() && seen[k].0 == state,
        first_seen(seen, state) is None ==> forall|k: int| 0 <= k < seen.len() ==> (#[trigger] seen[k]).0 != state,
{
    if exists|k: int| 0 <= k < seen.len() && (#[trigger] seen[k]).0 == state {
        let w = choose|k: int| 0 <= k < seen.len() && (#[trigger] seen[k]).0 == state;
        lemma_first_occurrence(seen, state, w);
    }
}

/// Distinct signatures, all drawn from a finite set, are at most as many as its members.
proof fn lemma_distinct_signatures_bounded(
    seen: Seq<(Seq<RequirementSignatureEntry>, nat)>,
    universe: Set<Seq<RequirementSignatureEntry>>,
)
    requires
        universe.finite(),
        forall|i: int, j: int| 0 <= i < j < seen.len() ==> (#[trigger] seen[i]).0 != (#[trigger] seen[j]).0,
        forall|k: int| 0 <= k < seen.len() ==> universe.contains((#[trigger] seen[k]).0),
    ensures
        seen.len() <= universe.len(),
{
    let sigs = seen.map_values(|p: (Seq<RequirementSignatureEntry>, nat)| p.0);
    assert(sigs.no_duplicates()) by {
        assert forall|i: int, j: int| 0 <= i < sigs.len() && 0 <= j < sigs.len() && i != j implies sigs[i] != sigs[j] by {
            if i < j {
                assert(seen[i].0 != seen[j].0);
            } else {
                assert(seen[j].0 != seen[i].0);
            }
        }
    }
    sigs.unique_seq_to_set();
    assert(sigs.to_set().subset_of(universe)) by {
        assert forall|s: Seq<RequirementSignatureEntry>| sigs.to_set().contains(s) implies universe.contains(s) by {
            let k = choose|k: int| 0 <= k < sigs.len() && sigs[k] == s;
            assert(universe.contains(seen[k].0));
        }
    }
    vstd::set_lib::lemma_len_subset(sigs.to_set(), universe);
}

impl EffectWorld {
    /// The signatures of a tracking window that starts at `self`: sequences of at most as many
    /// entries as `self` stores, over the handles it stores.
    pub open spec fn window_signatures(self) -> Set<Seq<RequirementSignatureEntry>> {
        bounded_sequences(
            entries_over(self.handle_pool(self.storages@.len() as int)),
            self.entry_count(self.storages@.len() as int),
        )
    }

    /// Whether `self` has the layout of `other`: the same entities own storages at the same
    /// indices.
    pub open spec fn same_storage_entities(self, other: Self) -> bool {
        &&& self.storages@.len() == other.storages@.len()
        &&& forall|i: int| 0 <= i < self.storages@.len() ==> (#[trigger] self.storages@[i]).entity == other.storages@[i].entity
    }

    /// Resolves the removal and ongoing tag requirements of every effect stored on its own
    /// target to a fixed point, and returns once a pass changes nothing.
    ///
    /// Before each pass the world's requirement signature is observed. A signature seen before
    /// means the passes cycle: the effects that changed since then are removed and tracking
    /// starts over.
    pub fn resolve_active_effect_tag_requirements(&mut self, tag_manager: &GameplayTagManager)
        requires
            old(self).wf(*tag_manager),
            tag_manager.wf(),
        ensures
            final(self).wf(*tag_manager),
            final(self).same_layout(*old(self)),
            final(self).holds_no_new_effects(*old(self)),
            forall|h: ActiveEffectHandle| #[trigger] final(self).live_own(h) ==> final(self).decision_of(
                final(self).storage_of(h.target())->0.lookup(h)->0,
            ) is None,
            final(self).differs_only_in_inhibition(*old(self)),
    {
        let n: Ghost<int> = Ghost(self.storages@.len() as int);
        let mut tracker = RequirementConvergence::new();
        let ghost mut start: EffectWorld = *self;
        let ghost mut history: Seq<EffectWorld> = Seq::empty();
        proof {
            self.lemma_differs_only_in_inhibition_refl();
            start.lemma_entries_count(n@);
            lemma_entries_over_finite(start.handle_pool(n@));
            lemma_bounded_sequences(entries_over(start.handle_pool(n@)), start.entry_count(n@));
        }
        loop
            invariant
                tag_manager.wf(),
                self.wf(*tag_manager),
                tracker.wf(),
                n@ == self.storages@.len(),
                self.same_layout(*old(self)),
                self.holds_no_new_effects(*old(self)),
                self.differs_only_in_inhibition(*old(self)),
                start.wf(*tag_manager),
                start.same_storage_entities(*self),
                self.holds_no_new_effects(start),
                start.window_signatures().finite(),
                history.len() == tracker.seen().len(),
                forall|k: int| 0 <= k < history.len() ==> {
                    let w = #[trigger] history[k];
                    &&& w.wf(*tag_manager)
                    &&& w.same_storage_entities(*self)
                    &&& self.holds_no_new_effects(w)
                    &&& tracker.seen()[k].0.to_multiset() == w.world_entries(n@).to_multiset()
                    &&& tracker.seen()[k].1 < tracker.recorded().len()
                    &&& forall|q: int| tracker.seen()[k].1 <= q < tracker.recorded().len() ==> w.live_own(
                        #[trigger] tracker.recorded()[q],
                    )
                },
                forall|i: int, j: int|
                    0 <= i < j < tracker.seen().len() ==> (#[trigger] tracker.seen()[i]).0 != (#[trigger] tracker.seen()[j]).0,
                forall|k: int| 0 <= k < tracker.seen().len() ==> start.window_signatures().contains(
                    (#[trigger] tracker.seen()[k]).0,
                ),
            decreases self.entry_count(n@), start.window_signatures().len() - tracker.seen().len(),
        {
            proof {
                self.lemma_no_new_effects_count(start, n@);
                lemma_distinct_signatures_bounded(tracker.seen(), start.window_signatures());
            }
            let ghost before = *self;
            let ghost seen0 = tracker.seen();
            let ghost recorded0 = tracker.recorded();
            let state = self.requirement_state_signature(tag_manager);
            proof {
                lemma_first_seen(seen0, state@);
            }
            match tracker.observe(state) {
                Some(cycle) => {
                    let ghost k = first_seen(seen0, state@)->0;
                    let ghost w = history[k];
                    proof {
                        broadcast use vstd::seq_lib::group_to_multiset_ensures;

                        assert(seen0[k].0 == state@);
                        self.lemma_entries_count(n@);
                        w.lemma_entries_count(n@);
                        assert(state@.to_multiset().len() == w.world_entries(n@).to_multiset().len());
                        assert(self.world_entries(n@).to_multiset().len() == w.world_entries(n@).to_multiset().len());
                        self.lemma_no_new_effects_count(w, n@);
                        assert(seen0[k].1 < recorded0.len());
                        assert(cycle@.len() > 0);
                        assert(cycle@[0] == recorded0[seen0[k].1 as int]);
                        assert(w.live_own(cycle@[0]));
                    }
                    let ghost h0 = cycle@[0];
                    proof {
                        let t = h0.target();
                        let i = choose|i: int| 0 <= i < w.storages@.len() && (#[trigger] w.storages@[i]).entity == t;
                        w.lemma_storage_of(i);
                        self.lemma_storage_of(i);
                        assert(w.storages@[i].effects.live_handles().contains(h0));
                        assert(self.storages@[i].effects.live_handles() == w.storages@[i].effects.live_handles());
                        assert(self.live_own(h0));
                    }
                    self.remove_nonconverging_active_effects(cycle.as_slice(), tag_manager);
                    proof {
                        self.lemma_differs_only_in_inhibition_trans(before, *old(self));
                        let t = h0.target();
                        let i = choose|i: int| 0 <= i < before.storages@.len() && (#[trigger] before.storages@[i]).entity == t;
                        before.lemma_storage_of(i);
                        self.lemma_storage_of(i);
                        assert(cycle@.contains(h0));
                        assert(self.storages@[i].effects.retired(h0));
                        assert(self.storages@[i].effects.lookup(h0) is None);
                        self.lemma_no_new_effects_count(before, n@);
                        assert(!self.storages@[i].effects.live_handles().contains(h0));
                        assert(before.storages@[i].effects.live_handles().contains(h0));
                        assert(self.entry_count(n@) < before.entry_count(n@));
                        start = *self;
                        history = Seq::empty();
                        self.lemma_entries_count(n@);
                        lemma_entries_over_finite(self.handle_pool(n@));
                        lemma_bounded_sequences(entries_over(self.handle_pool(n@)), self.entry_count(n@));
                    }
                },
                None => {
                    proof {
                        before.lemma_signature_bounded(start, state@);
                        history = history.push(before);
                    }
                    let changed = self.resolve_tag_requirement_pass(tag_manager);
                    proof {
                        self.lemma_differs_only_in_inhibition_trans(before, *old(self));
                    }
                    if changed.len() == 0 {
                        proof {
                            assert forall|h: ActiveEffectHandle| #[trigger] self.live_own(h) implies self.decision_of(
                                self.storage_of(h.target())->0.lookup(h)->0,
                            ) is None by {
                                assert(before.live_own(h));
                                if before.decision_of(before.storage_of(h.target())->0.lookup(h)->0) is Some {
                                    assert(changed@.contains(h));
                                }
                            }
                        }
                        return;
                    }
                    tracker.record_transitions(changed.as_slice());
                    proof {
                        self.lemma_no_new_effects_count(before, n@);
                        assert(tracker.seen().len() == seen0.len() + 1);
                        assert(self.entry_count(n@) <= before.entry_count(n@));
                        assert forall|k: int| 0 <= k < history.len() implies {
                            let w = #[trigger] history[k];
                            &&& w.wf(*tag_manager)
                            &&& w.same_storage_entities(*self)
                            &&& self.holds_no_new_effects(w)
                            &&& tracker.seen()[k].0.to_multiset() == w.world_entries(n@).to_multiset()
                            &&& tracker.seen()[k].1 < tracker.recorded().len()
                            &&& forall|q: int| tracker.seen()[k].1 <= q < tracker.recorded().len() ==> w.live_own(
                                #[trigger] tracker.recorded()[q],
                            )
                        } by {
                            let w = history[k];
                            assert forall|q: int| tracker.seen()[k].1 <= q < tracker.recorded().len() implies w.live_own(
                                #[trigger] tracker.recorded()[q],
                            ) by {
                                if q >= recorded0.len() {
                                    let h = tracker.recorded()[q];
                                    assert(h == changed@[q - recorded0.len()]);
                                    assert(before.live_own(h));
                                    assert(before.stores(h.target(), h));
                                    assert(w.stores(h.target(), h));
                                }
                            }
                        }
                        lemma_distinct_signatures_bounded(tracker.seen(), start.window_signatures());
                        assert(start.window_signatures().len() - tracker.seen().len() < start.window_signatures().len()
                            - seen0.len());
                    }
                },
            }
        }
    }
}

} // verus!
