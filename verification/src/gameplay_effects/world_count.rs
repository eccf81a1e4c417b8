//! Counting the effects an effect world stores.

use super::convergence::RequirementSignatureEntry;
use super::world::EffectWorld;
use super::ActiveEffectHandle;
use vstd::prelude::*;

verus! {

impl EffectWorld {
    /// Storages are consistent and their entities distinct.
    pub open spec fn storages_wf(self) -> bool {
        &&& forall|a: int, b: int|
            0 <= a < b < self.storages@.len() ==> (#[trigger] self.storages@[a]).entity != (
            #[trigger] self.storages@[b]).entity
        &&& forall|i: int| 0 <= i < self.storages@.len() ==> (#[trigger] self.storages@[i]).effects.wf()
    }

    /// The number of effects stored in the first `n` storages.
    pub open spec fn entry_count(self, n: int) -> nat
        decreases n,
    {
        if n <= 0 {
            0
        } else {
            self.entry_count(n - 1) + self.storages@[n - 1].effects.live_handles().len()
        }
    }

    /// The handles of the effects stored in the first `n` storages.
    pub open spec fn handle_pool(self, n: int) -> Set<ActiveEffectHandle>
        decreases n,
    {
        if n <= 0 {
            Set::empty()
        } else {
            self.handle_pool(n - 1).union(self.storages@[n - 1].effects.live_handles())
        }
    }

    /// The signature entries of the first `n` storages number their stored effects, and name
    /// only handles of the pool.
    pub proof fn lemma_entries_count(self, n: int)
        requires
            self.storages_wf(),
            0 <= n <= self.storages@.len(),
        ensures
            self.world_entries(n).len() == self.entry_count(n),
            self.handle_pool(n).finite(),
            forall|j: int| 0 <= j < self.world_entries(n).len() ==> self.handle_pool(n).contains(
                (#[trigger] self.world_entries(n)[j]).handle,
            ),
        decreases n,
    {
        if n > 0 {
            self.lemma_entries_count(n - 1);
            let st = self.storages@[n - 1].effects;
            st.lemma_live_handles_count();
            st.lemma_occupied_slots(st.slot_count() as int);
            let prev = self.world_entries(n - 1);
            let last = self.storage_entries(st);
            assert(self.world_entries(n) == prev + last);
            assert forall|j: int| 0 <= j < self.world_entries(n).len() implies self.handle_pool(n).contains(
                (#[trigger] self.world_entries(n)[j]).handle,
            ) by {
                if j < prev.len() {
                    assert(self.world_entries(n)[j] == prev[j]);
                } else {
                    let s = st.occupied_slots(st.slot_count() as int)[j - prev.len()];
                    assert(self.world_entries(n)[j] == last[j - prev.len()]);
                    ActiveEffectHandle::lemma_from_parts(st.effect_at(s)->0.target(), s as u32, st.generation_at(s));
                    assert(st.live_handles().contains(st.handle_at(s)));
                }
            }
        }
    }

    /// A world that holds no new effects stores no more effects than `earlier`, and when it
    /// stores as many, every storage holds the same handles.
    pub proof fn lemma_no_new_effects_count(self, earlier: Self, n: int)
        requires
            self.storages_wf(),
            earlier.storages_wf(),
            self.storages@.len() == earlier.storages@.len(),
            forall|i: int| 0 <= i < self.storages@.len() ==> (#[trigger] self.storages@[i]).entity == earlier.storages@[i].entity,
            self.holds_no_new_effects(earlier),
            0 <= n <= self.storages@.len(),
        ensures
            self.entry_count(n) <= earlier.entry_count(n),
            self.entry_count(n) == earlier.entry_count(n) ==> forall|i: int|
                0 <= i < n ==> (#[trigger] self.storages@[i]).effects.live_handles() == earlier.storages@[i].effects.live_handles(),
        decreases n,
    {
        if n > 0 {
            self.lemma_no_new_effects_count(earlier, n - 1);
            let i = n - 1;
            let a = self.storages@[i].effects;
            let b = earlier.storages@[i].effects;
            a.lemma_live_handles_count();
            b.lemma_live_handles_count();
            self.lemma_storage_of(i);
            earlier.lemma_storage_of(i);
            assert(a.live_handles().subset_of(b.live_handles())) by {
                assert forall|h: ActiveEffectHandle| a.live_handles().contains(h) implies b.live_handles().contains(h) by {
                    assert(self.stores(self.storages@[i].entity, h));
                }
            }
            vstd::set_lib::lemma_len_subset(a.live_handles(), b.live_handles());
            if self.entry_count(n) == earlier.entry_count(n) {
                vstd::set_lib::lemma_subset_equality(a.live_handles(), b.live_handles());
            }
        }
    }

    /// A world that holds no new effects draws its handles from the pool of `earlier`.
    pub proof fn lemma_no_new_effects_pool(self, earlier: Self, n: int)
        requires
            self.storages_wf(),
            earlier.storages_wf(),
            self.storages@.len() == earlier.storages@.len(),
            forall|i: int| 0 <= i < self.storages@.len() ==> (#[trigger] self.storages@[i]).entity == earlier.storages@[i].entity,
            self.holds_no_new_effects(earlier),
            0 <= n <= self.storages@.len(),
        ensures
            self.handle_pool(n).subset_of(earlier.handle_pool(n)),
        decreases n,
    {
        if n > 0 {
            self.lemma_no_new_effects_pool(earlier, n - 1);
            let i = n - 1;
            self.lemma_storage_of(i);
            earlier.lemma_storage_of(i);
            assert forall|h: ActiveEffectHandle| self.storages@[i].effects.live_handles().contains(h) implies earlier.storages@[i].effects.live_handles().contains(h) by {
                assert(self.stores(self.storages@[i].entity, h));
            }
        }
    }

    /// A signature of a world that holds no new effects compared with `earlier` is a sequence of
    /// at most as many entries as `earlier` stores, over the handles `earlier` stores.
    pub proof fn lemma_signature_bounded(self, earlier: Self, signature: Seq<RequirementSignatureEntry>)
        requires
            self.storages_wf(),
            earlier.storages_wf(),
            self.storages@.len() == earlier.storages@.len(),
            forall|i: int| 0 <= i < self.storages@.len() ==> (#[trigger] self.storages@[i]).entity == earlier.storages@[i].entity,
            self.holds_no_new_effects(earlier),
            signature.to_multiset() == self.world_entries(self.storages@.len() as int).to_multiset(),
        ensures
            bounded_sequences(
                entries_over(earlier.handle_pool(earlier.storages@.len() as int)),
                earlier.entry_count(earlier.storages@.len() as int),
            ).contains(signature),
    {
        broadcast use vstd::seq_lib::group_to_multiset_ensures;

        let n = self.storages@.len() as int;
        let entries = self.world_entries(n);
        self.lemma_entries_count(n);
        earlier.lemma_entries_count(n);
        self.lemma_no_new_effects_count(earlier, n);
        self.lemma_no_new_effects_pool(earlier, n);
        let pool = earlier.handle_pool(n);
        lemma_entries_over_finite(pool);
        lemma_bounded_sequences(entries_over(pool), earlier.entry_count(n));
        assert(signature.to_multiset().len() == entries.to_multiset().len());
        assert(signature.len() == entries.len());
        assert forall|i: int| 0 <= i < signature.len() implies entries_over(pool).contains(#[trigger] signature[i]) by {
            assert(signature.contains(signature[i]));
            assert(signature.to_multiset().count(signature[i]) > 0);
            assert(entries.to_multiset().count(signature[i]) > 0);
            assert(entries.contains(signature[i]));
            let j = choose|j: int| 0 <= j < entries.len() && entries[j] == signature[i];
            assert(self.handle_pool(n).contains(entries[j].handle));
        }
    }
}

/// Entries whose handles belong to `pool`, with any requirement results.
pub open spec fn entries_over(pool: Set<ActiveEffectHandle>) -> Set<RequirementSignatureEntry> {
    Set::new(|e: RequirementSignatureEntry| pool.contains(e.handle))
}

/// The entries over a finite pool of handles are finitely many.
pub proof fn lemma_entries_over_finite(pool: Set<ActiveEffectHandle>)
    requires
        pool.finite(),
    ensures
        entries_over(pool).finite(),
{
    let f = |h: ActiveEffectHandle, a: bool, b: bool, c: bool| RequirementSignatureEntry {
        handle: h,
        inhibited: a,
        should_remove: b,
        passes_ongoing: c,
    };
    let m0 = pool.map(|h: ActiveEffectHandle| f(h, false, false, false));
    let m1 = pool.map(|h: ActiveEffectHandle| f(h, false, false, true));
    let m2 = pool.map(|h: ActiveEffectHandle| f(h, false, true, false));
    let m3 = pool.map(|h: ActiveEffectHandle| f(h, false, true, true));
    let m4 = pool.map(|h: ActiveEffectHandle| f(h, true, false, false));
    let m5 = pool.map(|h: ActiveEffectHandle| f(h, true, false, true));
    let m6 = pool.map(|h: ActiveEffectHandle| f(h, true, true, false));
    let m7 = pool.map(|h: ActiveEffectHandle| f(h, true, true, true));
    pool.lemma_map_finite(|h: ActiveEffectHandle| f(h, false, false, false));
    pool.lemma_map_finite(|h: ActiveEffectHandle| f(h, false, false, true));
    pool.lemma_map_finite(|h: ActiveEffectHandle| f(h, false, true, false));
    pool.lemma_map_finite(|h: ActiveEffectHandle| f(h, false, true, true));
    pool.lemma_map_finite(|h: ActiveEffectHandle| f(h, true, false, false));
    pool.lemma_map_finite(|h: ActiveEffectHandle| f(h, true, false, true));
    pool.lemma_map_finite(|h: ActiveEffectHandle| f(h, true, true, false));
    pool.lemma_map_finite(|h: ActiveEffectHandle| f(h, true, true, true));
    let u = m0.union(m1).union(m2).union(m3).union(m4).union(m5).union(m6).union(m7);
    assert(entries_over(pool) =~= u) by {
        assert forall|e: RequirementSignatureEntry| #[trigger] entries_over(pool).contains(e) implies u.contains(e) by {
            assert(e == f(e.handle, e.inhibited, e.should_remove, e.passes_ongoing));
        }
    }
}

/// The sequences of at most `n` elements of `alphabet`.
pub open spec fn bounded_sequences<A>(alphabet: Set<A>, n: nat) -> Set<Seq<A>>
    decreases n,
{
    if n == 0 {
        Set::empty().insert(Seq::empty())
    } else {
        let shorter = bounded_sequences(alphabet, (n - 1) as nat);
        shorter.union(shorter.map(|s: Seq<A>| alphabet.map(|a: A| s.push(a))).flatten())
    }
}

/// Over a finite alphabet, the sequences of at most `n` elements are finitely many, and every
/// such sequence is one of them.
pub proof fn lemma_bounded_sequences<A>(alphabet: Set<A>, n: nat)
    requires
        alphabet.finite(),
    ensures
        bounded_sequences(alphabet, n).finite(),
        forall|s: Seq<A>|
            s.len() <= n && (forall|i: int| 0 <= i < s.len() ==> alphabet.contains(#[trigger] s[i]))
                ==> #[trigger] bounded_sequences(alphabet, n).contains(s),
    decreases n,
{
    if n == 0 {
        assert forall|s: Seq<A>|
            s.len() <= n && (forall|i: int| 0 <= i < s.len() ==> alphabet.contains(#[trigger] s[i]))
                implies #[trigger] bounded_sequences(alphabet, n).contains(s) by {
            assert(s =~= Seq::<A>::empty());
        }
    } else {
        lemma_bounded_sequences(alphabet, (n - 1) as nat);
        let shorter = bounded_sequences(alphabet, (n - 1) as nat);
        let g = |s: Seq<A>| alphabet.map(|a: A| s.push(a));
        let longer = shorter.map(g);
        shorter.lemma_map_finite(g);
        assert forall|t: Set<Seq<A>>| longer.contains(t) implies #[trigger] t.finite() by {
            let s = choose|s: Seq<A>| shorter.contains(s) && g(s) == t;
            alphabet.lemma_map_finite(|a: A| s.push(a));
        }
        longer.lemma_flatten_finite();
        assert forall|s: Seq<A>|
            s.len() <= n && (forall|i: int| 0 <= i < s.len() ==> alphabet.contains(#[trigger] s[i]))
                implies #[trigger] bounded_sequences(alphabet, n).contains(s) by {
            if s.len() < n {
                assert(shorter.contains(s));
            } else {
                let p = s.drop_last();
                assert(forall|i: int| 0 <= i < p.len() ==> p[i] == s[i]);
                assert(forall|i: int| 0 <= i < p.len() ==> alphabet.contains(#[trigger] p[i])) by {
                    assert forall|i: int| 0 <= i < p.len() implies alphabet.contains(#[trigger] p[i]) by {
                        assert(p[i] == s[i]);
                    }
                }
                assert(shorter.contains(p));
                assert(alphabet.contains(s.last()));
                assert(p.push(s.last()) =~= s);
                assert(g(p).contains(s));
                assert(longer.contains(g(p)));
            }
        }
    }
}

} // verus!
