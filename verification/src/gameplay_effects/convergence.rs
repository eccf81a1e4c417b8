//! Deterministic convergence of active-effect tag requirements.
//!
//! Each pass over the active effects is summarized by a signature: one entry per stored effect
//! with its handle, inhibited state, and requirement results, in canonical order. Passes repeat
//! until one changes nothing. A signature seen before means the passes cycle; the effects that
//! changed since that signature are then removed and tracking starts over.

use super::{ActiveEffectHandle, ActiveGameplayEffect};
use super::requirements::{ongoing_allowed, removal_requested};
use crate::gameplay_tags::GameplayTagContainer;
use vstd::prelude::*;
use vstd::seq_lib::to_multiset_insert;

verus! {

/// One stored effect's contribution to a requirement signature.
#[derive(Debug, Clone, Copy, PartialEq, Eq, Structural)]
pub struct RequirementSignatureEntry {
    pub handle: ActiveEffectHandle,
    pub inhibited: bool,
    pub should_remove: bool,
    pub passes_ongoing: bool,
}

/// `false` orders before `true`.
pub open spec fn bool_lt(a: bool, b: bool) -> bool {
    !a && b
}

/// Entries are ordered by handle, then inhibited state, removal result, and ongoing result.
pub open spec fn entry_lt(a: RequirementSignatureEntry, b: RequirementSignatureEntry) -> bool {
    ||| a.handle.precedes(b.handle)
    ||| (a.handle == b.handle && bool_lt(a.inhibited, b.inhibited))
    ||| (a.handle == b.handle && a.inhibited == b.inhibited && bool_lt(a.should_remove, b.should_remove))
    ||| (a.handle == b.handle && a.inhibited == b.inhibited && a.should_remove == b.should_remove && bool_lt(
        a.passes_ongoing,
        b.passes_ongoing,
    ))
}

/// `a` orders no later than `b`.
pub open spec fn entry_le(a: RequirementSignatureEntry, b: RequirementSignatureEntry) -> bool {
    a == b || entry_lt(a, b)
}

/// Whether `s` is in canonical order.
pub open spec fn entries_sorted(s: Seq<RequirementSignatureEntry>) -> bool {
    forall|i: int, j: int| 0 <= i < j < s.len() ==> entry_le(#[trigger] s[i], #[trigger] s[j])
}

/// Handles equal in target bits, slot, and generation are equal.
proof fn lemma_handle_order(a: ActiveEffectHandle, b: ActiveEffectHandle)
    ensures
        a.precedes(b) || b.precedes(a) || a == b,
        !(a.precedes(b) && b.precedes(a)),
        !a.precedes(a),
{
    if !a.precedes(b) && !b.precedes(a) {
        crate::identifiers::EntityId::lemma_bits_injective(a.target(), b.target());
        ActiveEffectHandle::lemma_eq(a, b);
    }
}

/// The entry order is total and transitive.
proof fn lemma_entry_order(a: RequirementSignatureEntry, b: RequirementSignatureEntry, c: RequirementSignatureEntry)
    ensures
        entry_le(a, b) || entry_le(b, a),
        entry_le(a, b) && entry_le(b, c) ==> entry_le(a, c),
        !entry_lt(a, a),
{
    lemma_handle_order(a.handle, b.handle);
    lemma_handle_order(b.handle, c.handle);
    lemma_handle_order(a.handle, c.handle);
}

/// Returns the signature entry of the stored effect `handle` given its source's and target's tags.
pub fn signature_entry(
    handle: ActiveEffectHandle,
    effect: &ActiveGameplayEffect,
    source_tags: Option<&GameplayTagContainer>,
    target_tags: Option<&GameplayTagContainer>,
) -> (entry: RequirementSignatureEntry)
    ensures
        entry.handle == handle,
        entry.inhibited == effect.inhibited(),
        entry.should_remove == removal_requested(effect.spec_of().tags(), source_tags, target_tags),
        entry.passes_ongoing == ongoing_allowed(effect.spec_of().tags(), source_tags, target_tags),
{
    RequirementSignatureEntry {
        handle,
        inhibited: effect.is_inhibited(),
        should_remove: super::should_remove_active_effect(effect, source_tags, target_tags),
        passes_ongoing: super::passes_ongoing_requirements(effect, source_tags, target_tags),
    }
}

fn entry_before(a: &RequirementSignatureEntry, b: &RequirementSignatureEntry) -> (before: bool)
    ensures
        before == entry_lt(*a, *b),
{
    if a.handle.is_before(b.handle) {
        return true;
    }
    if !a.handle.same_as(b.handle) {
        return false;
    }
    if a.inhibited != b.inhibited {
        return !a.inhibited;
    }
    if a.should_remove != b.should_remove {
        return !a.should_remove;
    }
    !a.passes_ongoing && b.passes_ongoing
}

/// Puts signature entries into canonical order, keeping every entry.
pub fn sort_signature(entries: Vec<RequirementSignatureEntry>) -> (sorted: Vec<RequirementSignatureEntry>)
    ensures
        entries_sorted(sorted@),
        sorted@.to_multiset() == entries@.to_multiset(),
        sorted@.len() == entries@.len(),
{
    let mut sorted: Vec<RequirementSignatureEntry> = Vec::new();
    let mut i: usize = 0;
    assert(entries@.take(0) =~= sorted@);
    while i < entries.len()
        invariant
            0 <= i <= entries@.len(),
            entries_sorted(sorted@),
            sorted@.to_multiset() == entries@.take(i as int).to_multiset(),
            sorted@.len() == i,
        decreases entries@.len() - i,
    {
        let x = entries[i];
        let mut p: usize = 0;
        while p < sorted.len() && !entry_before(&x, &sorted[p])
            invariant
                0 <= p <= sorted@.len(),
                0 <= i < entries@.len(),
                x == entries@[i as int],
                entries_sorted(sorted@),
                sorted@.to_multiset() == entries@.take(i as int).to_multiset(),
                sorted@.len() == i,
                forall|k: int| 0 <= k < p ==> !entry_lt(x, #[trigger] sorted@[k]),
            decreases sorted@.len() - p,
        {
            p = p + 1;
        }
        let ghost before = sorted@;
        sorted.insert(p, x);
        proof {
            to_multiset_insert(before, p as int, x);
            assert(entries@.take(i + 1) == entries@.take(i as int).push(x));
            vstd::seq_lib::to_multiset_build(entries@.take(i as int), x);
            assert forall|a: int, b: int| 0 <= a < b < sorted@.len() implies entry_le(#[trigger] sorted@[a], #[trigger] sorted@[b]) by {
                if a < p && b == p {
                    lemma_entry_order(before[a], x, x);
                } else if a == p && b > p {
                    lemma_entry_order(x, before[b - 1], x);
                    if p < before.len() {
                        lemma_entry_order(x, before[p as int], before[b - 1]);
                    }
                } else if a < p && b > p {
                    assert(entry_le(before[a], before[b - 1]));
                } else if a > p {
                    assert(entry_le(before[a - 1], before[b - 1]));
                }
            }
        }
        i = i + 1;
    }
    assert(entries@.take(entries@.len() as int) == entries@);
    sorted
}

/// Returns whether two signatures are equal entry by entry.
pub fn same_signature(a: &Vec<RequirementSignatureEntry>, b: &Vec<RequirementSignatureEntry>) -> (same: bool)
    ensures
        same == (a@ == b@),
{
    if a.len() != b.len() {
        return false;
    }
    let mut k: usize = 0;
    while k < a.len()
        invariant
            0 <= k <= a@.len(),
            a@.len() == b@.len(),
            forall|j: int| 0 <= j < k ==> a@[j] == b@[j],
        decreases a@.len() - k,
    {
        if a[k] != b[k] {
            return false;
        }
        k = k + 1;
    }
    assert(a@ =~= b@);
    true
}

/// A signature seen during convergence, with the number of transitions recorded before it.
pub struct SeenSignature {
    pub entries: Vec<RequirementSignatureEntry>,
    pub transition_start: usize,
}

/// Tracks the signatures and transitions of one requirement convergence.
pub struct RequirementConvergence {
    seen_states: Vec<SeenSignature>,
    transitions: Vec<ActiveEffectHandle>,
}

/// The first index of `seen` whose signature is `state`, if any.
pub open spec fn first_seen(seen: Seq<(Seq<RequirementSignatureEntry>, nat)>, state: Seq<RequirementSignatureEntry>) -> Option<int> {
    if exists|k: int| 0 <= k < seen.len() && (#[trigger] seen[k]).0 == state {
        Some(choose|k: int| 0 <= k < seen.len() && (#[trigger] seen[k]).0 == state && forall|j: int|
            0 <= j < k ==> (#[trigger] seen[j]).0 != state)
    } else {
        None
    }
}

impl RequirementConvergence {
    /// The signatures seen since tracking last started, with their transition counts.
    pub closed spec fn seen(self) -> Seq<(Seq<RequirementSignatureEntry>, nat)> {
        self.seen_states@.map_values(|s: SeenSignature| (s.entries@, s.transition_start as nat))
    }

    /// The transitions recorded since tracking last started, in order.
    pub closed spec fn recorded(self) -> Seq<ActiveEffectHandle> {
        self.transitions@
    }

    /// Every seen signature was recorded after a prefix of the transitions.
    pub open spec fn wf(self) -> bool {
        forall|k: int| 0 <= k < self.seen().len() ==> (#[trigger] self.seen()[k]).1 <= self.recorded().len()
    }

    /// Starts tracking with no signatures and no transitions.
    pub fn new() -> (tracker: Self)
        ensures
            tracker.wf(),
            tracker.seen().len() == 0,
            tracker.recorded().len() == 0,
    {
        RequirementConvergence { seen_states: Vec::new(), transitions: Vec::new() }
    }

    /// Observes the signature before a pass.
    ///
    /// When the signature was seen before, returns the transitions recorded since the first
    /// time it was seen — the effects that take part in the cycle — and starts tracking over.
    /// Otherwise remembers the signature and returns `None`.
    pub fn observe(&mut self, state: Vec<RequirementSignatureEntry>) -> (cycle: Option<Vec<ActiveEffectHandle>>)
        requires
            old(self).wf(),
        ensures
            final(self).wf(),
            match first_seen(old(self).seen(), state@) {
                Some(k) => {
                    &&& cycle matches Some(v) && v@ == old(self).recorded().subrange(
                        old(self).seen()[k].1 as int,
                        old(self).recorded().len() as int,
                    )
                    &&& final(self).seen().len() == 0
                    &&& final(self).recorded().len() == 0
                },
                None => {
                    &&& cycle is None
                    &&& final(self).seen() == old(self).seen().push((state@, old(self).recorded().len()))
                    &&& final(self).recorded() == old(self).recorded()
                },
            },
    {
        let mut k: usize = 0;
        while k < self.seen_states.len()
            invariant
                0 <= k <= self.seen_states@.len(),
                self.wf(),
                *self == *old(self),
                forall|j: int| 0 <= j < k ==> (#[trigger] self.seen()[j]).0 != state@,
            decreases self.seen_states@.len() - k,
        {
            if same_signature(&self.seen_states[k].entries, &state) {
                let start = self.seen_states[k].transition_start;
                let ghost seen = self.seen();
                assert(seen[k as int].0 == state@);
                assert(first_seen(seen, state@) == Some(k as int)) by {
                    let c = choose|c: int| 0 <= c < seen.len() && (#[trigger] seen[c]).0 == state@ && forall|j: int|
                        0 <= j < c ==> (#[trigger] seen[j]).0 != state@;
                    if c < k {
                    } else if c > k {
                        assert(seen[k as int].0 != state@);
                    }
                }
                assert(self.seen()[k as int].1 <= self.recorded().len());
                let mut cycle: Vec<ActiveEffectHandle> = Vec::new();
                let mut t: usize = start;
                while t < self.transitions.len()
                    invariant
                        start <= t <= self.transitions@.len(),
                        cycle@ == self.transitions@.subrange(start as int, t as int),
                    decreases self.transitions@.len() - t,
                {
                    cycle.push(self.transitions[t]);
                    proof {
                        assert(self.transitions@.subrange(start as int, t + 1) == self.transitions@.subrange(
                            start as int,
                            t as int,
                        ).push(self.transitions@[t as int]));
                    }
                    t = t + 1;
                }
                self.seen_states.clear();
                self.transitions.clear();
                proof {
                    assert(self.seen() =~= Seq::empty());
                }
                return Some(cycle);
            }
            k = k + 1;
        }
        let transition_start = self.transitions.len();
        self.seen_states.push(SeenSignature { entries: state, transition_start });
        proof {
            assert(self.seen() =~= old(self).seen().push((state@, old(self).recorded().len())));
            assert(first_seen(old(self).seen(), state@) is None);
        }
        None
    }

    /// Records the handles a pass changed.
    pub fn record_transitions(&mut self, changed: &[ActiveEffectHandle])
        requires
            old(self).wf(),
        ensures
            final(self).wf(),
            final(self).seen() == old(self).seen(),
            final(self).recorded() == old(self).recorded() + changed@,
    {
        let mut k: usize = 0;
        while k < changed.len()
            invariant
                0 <= k <= changed@.len(),
                self.seen() == old(self).seen(),
                self.recorded() == old(self).recorded() + changed@.take(k as int),
                old(self).wf(),
            decreases changed@.len() - k,
        {
            self.transitions.push(changed[k]);
            proof {
                assert(changed@.take(k + 1) == changed@.take(k as int).push(changed@[k as int]));
                assert(old(self).recorded() + changed@.take(k + 1) == (old(self).recorded() + changed@.take(
                    k as int,
                )).push(changed@[k as int]));
            }
            k = k + 1;
        }
        assert(changed@.take(changed@.len() as int) == changed@);
    }
}

/// Returns the handles of `handles` in canonical order without repetitions.
pub fn sorted_unique_handles(handles: &[ActiveEffectHandle]) -> (unique: Vec<ActiveEffectHandle>)
    ensures
        forall|i: int, j: int| 0 <= i < j < unique@.len() ==> (#[trigger] unique@[i]).precedes(#[trigger] unique@[j]),
        forall|h: ActiveEffectHandle| unique@.contains(h) <==> handles@.contains(h),
{
    let mut unique: Vec<ActiveEffectHandle> = Vec::new();
    let mut i: usize = 0;
    while i < handles.len()
        invariant
            0 <= i <= handles@.len(),
            forall|a: int, b: int| 0 <= a < b < unique@.len() ==> (#[trigger] unique@[a]).precedes(#[trigger] unique@[b]),
            forall|h: ActiveEffectHandle| unique@.contains(h) <==> handles@.take(i as int).contains(h),
        decreases handles@.len() - i,
    {
        let x = handles[i];
        let mut p: usize = 0;
        while p < unique.len() && unique[p].is_before(x)
            invariant
                0 <= p <= unique@.len(),
                0 <= i < handles@.len(),
                x == handles@[i as int],
                forall|a: int, b: int| 0 <= a < b < unique@.len() ==> (#[trigger] unique@[a]).precedes(#[trigger] unique@[b]),
                forall|h: ActiveEffectHandle| unique@.contains(h) <==> handles@.take(i as int).contains(h),
                forall|k: int| 0 <= k < p ==> (#[trigger] unique@[k]).precedes(x),
            decreases unique@.len() - p,
        {
            p = p + 1;
        }
        let ghost before = unique@;
        let duplicate = p < unique.len() && unique[p].same_as(x);
        if !duplicate {
            unique.insert(p, x);
        }
        proof {
            assert(handles@.take(i + 1) == handles@.take(i as int).push(x));
            if p < before.len() && !duplicate {
                lemma_handle_order(x, before[p as int]);
            }
            assert forall|a: int, b: int| 0 <= a < b < unique@.len() implies (#[trigger] unique@[a]).precedes(
                #[trigger] unique@[b],
            ) by {
                if !duplicate {
                    if a < p && b == p {
                    } else if a == p && b > p {
                        lemma_handle_order(x, before[p as int]);
                        if b - 1 > p {
                            lemma_precedes_transitive(x, before[p as int], before[b - 1]);
                        }
                    } else if a < p && b > p {
                        assert(before[a].precedes(before[b - 1]));
                    } else if a > p {
                        assert(before[a - 1].precedes(before[b - 1]));
                    }
                }
            }
            assert forall|h: ActiveEffectHandle| unique@.contains(h) <==> handles@.take(i + 1).contains(h) by {
                if unique@.contains(h) {
                    let k = choose|k: int| 0 <= k < unique@.len() && unique@[k] == h;
                    if h == x {
                        assert(handles@.take(i + 1)[i as int] == x);
                    } else {
                        if !duplicate {
                            if k < p {
                                assert(before[k] == h);
                            } else {
                                assert(before[k - 1] == h);
                            }
                        } else {
                            assert(before[k] == h);
                        }
                        assert(before.contains(h));
                        assert(handles@.take(i as int).contains(h));
                        let j = choose|j: int| 0 <= j < i && #[trigger] handles@.take(i as int)[j] == h;
                        assert(handles@.take(i + 1)[j] == h);
                    }
                }
                if handles@.take(i + 1).contains(h) {
                    if h == x {
                        assert(unique@[p as int] == x);
                    } else {
                        assert(handles@.take(i as int).contains(h)) by {
                            let k = choose|k: int| 0 <= k < i + 1 && #[trigger] handles@.take(i + 1)[k] == h;
                            assert(handles@.take(i as int)[k] == h);
                        }
                        assert(before.contains(h));
                        let k = choose|k: int| 0 <= k < before.len() && before[k] == h;
                        if !duplicate {
                            if k < p {
                                assert(unique@[k] == h);
                            } else {
                                assert(unique@[k + 1] == h);
                            }
                        } else {
                            assert(unique@[k] == h);
                        }
                    }
                }
            }
        }
        i = i + 1;
    }
    assert(handles@.take(handles@.len() as int) == handles@);
    unique
}

/// The handle order is transitive.
proof fn lemma_precedes_transitive(a: ActiveEffectHandle, b: ActiveEffectHandle, c: ActiveEffectHandle)
    requires
        a.precedes(b),
        b.precedes(c),
    ensures
        a.precedes(c),
{
}

} // verus!
