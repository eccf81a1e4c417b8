use super::bitset::{
    lemma_bits_ext, bits_contain_all, bits_contain_any, bits_difference, bits_has, bits_insert, bits_intersect,
    bits_subset, bits_union, lemma_empty_bits, tag_bits_of, tags_in_range,
};
use super::{
    bits_contain, tag_bits_from_tags, GameplayTag, GameplayTagBits, GameplayTagError,
    GameplayTagManager, MAX_TAG_BLOCKS, MAX_TAG_COUNTS,
};
use vstd::prelude::*;

verus! {

broadcast use GameplayTag::lemma_index;

#[derive(Clone, Copy)]
struct TagReferenceCounts {
    explicit: u16,
    total: u16,
}

/// Sum over the tags `0..n` of the explicit references of each tag that inherits index `i`.
pub open spec fn inherited_total(
    explicit: Seq<u16>,
    manager: GameplayTagManager,
    i: int,
    n: nat,
) -> int
    decreases n,
{
    if n == 0 {
        0
    } else {
        inherited_total(explicit, manager, i, (n - 1) as nat) + if manager.inherits(n - 1, i) {
            explicit[n - 1] as int
        } else {
            0
        }
    }
}

/// Number of entries of `tags` that are the tag with index `j`.
pub open spec fn occurrences(tags: Seq<GameplayTag>, j: int) -> int
    decreases tags.len(),
{
    if tags.len() == 0 {
        0
    } else {
        occurrences(tags.drop_last(), j) + if tags.last().index() == j {
            1int
        } else {
            0
        }
    }
}

/// Number of entries of `tags` whose inherited bitset in `manager` holds index `i`.
pub open spec fn inherit_count(tags: Seq<GameplayTag>, manager: GameplayTagManager, i: int) -> int
    decreases tags.len(),
{
    if tags.len() == 0 {
        0
    } else {
        inherit_count(tags.drop_last(), manager, i) + if manager.inherits(tags.last().index(), i) {
            1int
        } else {
            0
        }
    }
}

/// A batch with a tag that inherits `i` counts at least one reference to `i`.
proof fn lemma_inherit_count_positive(tags: Seq<GameplayTag>, manager: GameplayTagManager, i: int, k: int)
    requires
        0 <= k < tags.len(),
        manager.inherits(tags[k].index(), i),
    ensures
        inherit_count(tags, manager, i) >= 1,
    decreases tags.len(),
{
    GameplayTagContainer::lemma_inherit_count_nonneg(tags.drop_last(), manager, i);
    if k < tags.len() - 1 {
        assert(tags.drop_last()[k] == tags[k]);
        lemma_inherit_count_positive(tags.drop_last(), manager, i, k);
    }
}

/// Reference-counted gameplay tags owned by one entity.
///
/// Explicit references track matching additions and removals. Total references also include
/// descendants and keep inherited tag bits present until their last contributing reference ends.
pub struct GameplayTagContainer {
    tag_bits: GameplayTagBits,
    ref_counts: Vec<TagReferenceCounts>,
}

impl GameplayTagContainer {
    /// The present tag bits.
    pub closed spec fn tag_bits(self) -> GameplayTagBits {
        self.tag_bits
    }

    /// Whether index `i` is present, explicitly or through a descendant.
    pub open spec fn has(self, i: int) -> bool {
        bits_contain(self.tag_bits(), i)
    }

    /// Explicit references to each tag index.
    pub closed spec fn explicit_counts(self) -> Seq<u16> {
        self.ref_counts@.map_values(|c: TagReferenceCounts| c.explicit)
    }

    /// Explicit references to tag index `i`.
    pub open spec fn explicit(self, i: int) -> int {
        self.explicit_counts()[i] as int
    }

    /// Total references to tag index `i`, including those of its descendants.
    pub closed spec fn total(self, i: int) -> int {
        self.ref_counts@[i].total as int
    }

    /// Internal consistency: one count per index, and an index is present exactly when it has
    /// a total reference.
    pub closed spec fn wf(self) -> bool {
        &&& self.ref_counts@.len() == MAX_TAG_COUNTS
        &&& forall|i: int| 0 <= i < MAX_TAG_COUNTS ==> (#[trigger] bits_contain(self.tag_bits, i)
            <==> self.ref_counts@[i].total > 0)
    }

    /// The container's totals are the references inherited through `manager`'s hierarchy,
    /// and only registered tags carry explicit references.
    pub open spec fn consistent_with(self, manager: GameplayTagManager) -> bool {
        &&& self.wf()
        &&& manager.wf()
        &&& self.explicit_counts().len() == MAX_TAG_COUNTS
        &&& forall|j: int|
            manager.tag_count() <= j < MAX_TAG_COUNTS ==> #[trigger] self.explicit(j) == 0
        &&& forall|i: int|
            0 <= i < MAX_TAG_COUNTS ==> #[trigger] self.total(i) == inherited_total(
                self.explicit_counts(),
                manager,
                i,
                MAX_TAG_COUNTS as nat,
            )
    }

    /// Whether no tag has an explicit or total reference.
    pub open spec fn has_no_references(self) -> bool {
        forall|i: int| 0 <= i < MAX_TAG_COUNTS ==> #[trigger] self.explicit(i) == 0 && self.total(i) == 0
    }

    /// Whether adding the batch `tags` keeps every total within `u16::MAX`.
    pub open spec fn batch_fits(
        self,
        manager: GameplayTagManager,
        tags: Seq<GameplayTag>,
    ) -> bool {
        forall|i: int|
            0 <= i < MAX_TAG_COUNTS ==> self.total(i) + #[trigger] inherit_count(tags, manager, i)
                <= u16::MAX
    }

    fn empty() -> (container: Self)
        ensures
            container.wf(),
            container.explicit_counts().len() == MAX_TAG_COUNTS,
            forall|i: int| 0 <= i < MAX_TAG_COUNTS ==> (#[trigger] container.explicit(i)) == 0
                && container.total(i) == 0,
            forall|i: int| !#[trigger] container.has(i),
    {
        let tag_bits: GameplayTagBits = [0u64; MAX_TAG_BLOCKS];
        proof {
            lemma_empty_bits(tag_bits);
        }
        let mut ref_counts: Vec<TagReferenceCounts> = Vec::new();
        let mut k: usize = 0;
        while k < MAX_TAG_COUNTS
            invariant
                0 <= k <= MAX_TAG_COUNTS,
                ref_counts@.len() == k,
                forall|j: int| 0 <= j < k ==> (#[trigger] ref_counts@[j]).explicit == 0
                    && ref_counts@[j].total == 0,
            decreases MAX_TAG_COUNTS - k,
        {
            ref_counts.push(TagReferenceCounts { explicit: 0, total: 0 });
            k = k + 1;
        }
        let container = GameplayTagContainer { tag_bits, ref_counts };
        proof {
            assert forall|i: int| 0 <= i < MAX_TAG_COUNTS implies #[trigger] container.explicit(i) == 0
                && container.total(i) == 0 by {
                assert(container.explicit_counts()[i] == container.ref_counts@[i].explicit);
            }
        }
        container
    }

    /// Changing one explicit count changes each inherited total by the change, weighted by
    /// whether the tag inherits the index.
    pub proof fn lemma_inherited_total_update(
        explicit: Seq<u16>,
        manager: GameplayTagManager,
        i: int,
        n: nat,
        t: int,
        v: u16,
    )
        requires
            0 <= t < explicit.len(),
            n <= explicit.len(),
        ensures
            inherited_total(explicit.update(t, v), manager, i, n) == inherited_total(
                explicit,
                manager,
                i,
                n,
            ) + if t < n && manager.inherits(t, i) {
                v - explicit[t]
            } else {
                0
            },
        decreases n,
    {
        if n > 0 {
            Self::lemma_inherited_total_update(explicit, manager, i, (n - 1) as nat, t, v);
        }
    }

    /// An inherited total is at least the explicit count of any tag that inherits the index.
    pub proof fn lemma_inherited_total_bound(
        explicit: Seq<u16>,
        manager: GameplayTagManager,
        i: int,
        n: nat,
        t: int,
    )
        requires
            n <= explicit.len(),
        ensures
            inherited_total(explicit, manager, i, n) >= 0,
            0 <= t < n && manager.inherits(t, i) ==> inherited_total(explicit, manager, i, n)
                >= explicit[t],
        decreases n,
    {
        if n > 0 {
            Self::lemma_inherited_total_bound(explicit, manager, i, (n - 1) as nat, t);
        }
    }

    /// Inherited totals only depend on the tags whose explicit counts are nonzero, so a
    /// registry that only adds tags keeps them.
    pub proof fn lemma_inherited_total_extension(
        explicit: Seq<u16>,
        m1: GameplayTagManager,
        m2: GameplayTagManager,
        i: int,
        n: nat,
    )
        requires
            n <= explicit.len(),
            m1.inherited().len() <= m2.inherited().len(),
            forall|t: int| 0 <= t < m1.inherited().len() ==> #[trigger] m2.inherited()[t] == m1.inherited()[t],
            forall|t: int| m1.inherited().len() <= t < n ==> #[trigger] explicit[t] == 0,
        ensures
            inherited_total(explicit, m2, i, n) == inherited_total(explicit, m1, i, n),
        decreases n,
    {
        if n > 0 {
            Self::lemma_inherited_total_extension(explicit, m1, m2, i, (n - 1) as nat);
        }
    }

    proof fn lemma_view_update(self, t: int, c: TagReferenceCounts)
        requires
            0 <= t < self.ref_counts@.len(),
        ensures
            (GameplayTagContainer { tag_bits: self.tag_bits, ref_counts: self.ref_counts }).explicit_counts()
                == self.explicit_counts(),
            self.ref_counts@.update(t, c).map_values(|c: TagReferenceCounts| c.explicit)
                == self.explicit_counts().update(t, c.explicit),
    {
        assert(self.ref_counts@.update(t, c).map_values(|c: TagReferenceCounts| c.explicit)
            =~= self.explicit_counts().update(t, c.explicit));
    }

    /// Adds one explicit reference to `tag` and one total reference to it and all its parents.
    ///
    /// Each tag supports at most `u16::MAX` total references on one entity, including
    /// descendants. Returns [`GameplayTagError::InvalidTagIndex`] if `tag` is not registered in
    /// `manager`, or [`GameplayTagError::ReferenceCountOverflow`] for the smallest affected index
    /// whose total is already `u16::MAX`. Either error leaves the container unchanged.
    pub fn add_tag(&mut self, tag: &GameplayTag, manager: &GameplayTagManager) -> (result: Result<
        (),
        GameplayTagError,
    >)
        requires
            old(self).consistent_with(*manager),
        ensures
            final(self).consistent_with(*manager),
            !manager.is_registered(*tag) ==> result == Err::<(), GameplayTagError>(
                GameplayTagError::InvalidTagIndex { index: tag.index() as usize },
            ) && *final(self) == *old(self),
            manager.is_registered(*tag) && (exists|i: int|
                manager.inherits(tag.index(), i) && #[trigger] old(self).total(i) == u16::MAX)
                ==> *final(self) == *old(self) && exists|i: int|
                manager.inherits(tag.index(), i) && #[trigger] old(self).total(i) == u16::MAX
                    && result == Err::<(), GameplayTagError>(
                    GameplayTagError::ReferenceCountOverflow { index: i as usize, max: u16::MAX },
                ) && forall|j: int|
                    0 <= j < i && manager.inherits(tag.index(), j) ==> #[trigger] old(self).total(j)
                        < u16::MAX,
            result is Ok <==> (manager.is_registered(*tag) && forall|i: int|
                manager.inherits(tag.index(), i) ==> #[trigger] old(self).total(i) < u16::MAX),
            result is Ok ==> final(self).explicit_counts() == old(self).explicit_counts().update(
                tag.index(),
                (old(self).explicit(tag.index()) + 1) as u16,
            ) && forall|i: int|
                0 <= i < MAX_TAG_COUNTS ==> #[trigger] final(self).total(i) == old(self).total(i)
                    + if manager.inherits(tag.index(), i) {
                    1int
                } else {
                    0
                },
            result is Ok ==> forall|i: int| manager.inherits(tag.index(), i) ==> #[trigger] final(self).has(i),
            result is Ok ==> forall|i: int|
                0 <= i < MAX_TAG_COUNTS && !manager.inherits(tag.index(), i) ==> #[trigger] final(self).has(i) == old(
                    self,
                ).has(i),
    {
        let inherited_bits = match manager.get_inherited_bits(tag) {
            Ok(bits) => bits,
            Err(e) => {
                return Err(e);
            },
        };
        let ghost t = tag.index();
        let ghost m = *manager;
        proof {
            manager.lemma_inherits_self(t);
            manager.lemma_inherited_len();
        }
        let ghost orig = *self;
        let mut i: usize = 0;
        while i < MAX_TAG_COUNTS
            invariant
                0 <= i <= MAX_TAG_COUNTS,
                *self == orig,
                orig == *old(self),
                orig.consistent_with(m),
                m == *manager,
                m.is_registered(*tag),
                t == tag.index(),
                *inherited_bits == m.inherited()[t],
                0 <= t < m.inherited().len(),
                forall|j: int| 0 <= j < i && m.inherits(t, j) ==> #[trigger] self.total(j) < u16::MAX,
            decreases MAX_TAG_COUNTS - i,
        {
            if bits_has(inherited_bits, i) {
                if self.ref_counts[i].total == u16::MAX {
                    assert(m.inherits(t, i as int));
                    assert(old(self).total(i as int) == u16::MAX);
                    return Err(GameplayTagError::ReferenceCountOverflow { index: i, max: u16::MAX });
                }
            }
            i = i + 1;
        }
        let ghost before = *self;
        let tag_index = tag.get_bit_index_usize();
        proof {
            manager.lemma_inherits_self(t);
            Self::lemma_inherited_total_bound(self.explicit_counts(), m, t, MAX_TAG_COUNTS as nat, t);
            assert(self.total(t) == inherited_total(self.explicit_counts(), m, t, MAX_TAG_COUNTS as nat));
            assert(self.total(t) < u16::MAX);
            assert(self.explicit(t) == self.ref_counts@[t].explicit);
        }
        let mut counts = self.ref_counts[tag_index];
        counts.explicit = counts.explicit + 1;
        proof {
            self.lemma_view_update(t, counts);
        }
        self.ref_counts[tag_index] = counts;
        let ghost after_explicit = *self;
        let mut i: usize = 0;
        while i < MAX_TAG_COUNTS
            invariant
                0 <= i <= MAX_TAG_COUNTS,
                *inherited_bits == m.inherited()[t],
                0 <= t < m.inherited().len(),
                self.tag_bits == before.tag_bits,
                self.ref_counts@.len() == MAX_TAG_COUNTS,
                self.explicit_counts() == after_explicit.explicit_counts(),
                before.consistent_with(m),
                before == *old(self),
                m == *manager,
                t == tag.index(),
                m.is_registered(*tag),
                after_explicit.explicit_counts() == before.explicit_counts().update(t, (before.explicit(t) + 1) as u16),
                forall|j: int| 0 <= j < MAX_TAG_COUNTS && m.inherits(t, j) ==> #[trigger] before.total(j) < u16::MAX,
                forall|j: int|
                    0 <= j < MAX_TAG_COUNTS ==> #[trigger] self.total(j) == before.total(j) + if j < i
                        && m.inherits(t, j) {
                        1int
                    } else {
                        0
                    },
            decreases MAX_TAG_COUNTS - i,
        {
            let ghost prev = *self;
            if bits_has(inherited_bits, i) {
                assert(self.total(i as int) == before.total(i as int));
                let mut counts = self.ref_counts[i];
                counts.total = counts.total + 1;
                proof {
                    self.lemma_view_update(i as int, counts);
                    assert(self.explicit_counts()[i as int] == counts.explicit);
                    assert(self.explicit_counts().update(i as int, counts.explicit) =~= self.explicit_counts());
                }
                self.ref_counts[i] = counts;
            }
            proof {
                assert forall|j: int| 0 <= j < MAX_TAG_COUNTS implies #[trigger] self.total(j) == before.total(j) + if j < i + 1
                    && m.inherits(t, j) {
                    1int
                } else {
                    0
                } by {
                    assert(prev.total(j) == before.total(j) + if j < i && m.inherits(t, j) { 1int } else { 0 });
                    if j != i {
                        assert(self.ref_counts@[j] == prev.ref_counts@[j]);
                    }
                }
            }
            i = i + 1;
        }
        let ghost after_loop = *self;
        self.tag_bits = bits_union(&self.tag_bits, inherited_bits);
        proof {
            assert forall|j: int| 0 <= j < MAX_TAG_COUNTS implies (#[trigger] bits_contain(
                self.tag_bits,
                j,
            ) <==> self.ref_counts@[j].total > 0) by {
                assert(self.total(j) == self.ref_counts@[j].total);
                assert(before.total(j) == before.ref_counts@[j].total);
                assert(before.wf());
                assert(bits_contain(before.tag_bits, j) <==> before.ref_counts@[j].total > 0);
                assert(m.inherits(t, j) <==> bits_contain(*inherited_bits, j));
                assert(bits_contain(self.tag_bits, j) <==> (bits_contain(before.tag_bits, j) || bits_contain(*inherited_bits, j)));
                assert(after_loop.total(j) == before.total(j) + if m.inherits(t, j) { 1int } else { 0 });
                assert(self.total(j) == after_loop.total(j));
            }
            let e0 = before.explicit_counts();
            assert forall|j: int| 0 <= j < MAX_TAG_COUNTS implies #[trigger] self.total(j)
                == inherited_total(self.explicit_counts(), m, j, MAX_TAG_COUNTS as nat) by {
                Self::lemma_inherited_total_update(
                    e0,
                    m,
                    j,
                    MAX_TAG_COUNTS as nat,
                    t,
                    (e0[t] + 1) as u16,
                );
                assert(before.total(j) == inherited_total(e0, m, j, MAX_TAG_COUNTS as nat));
                assert(self.total(j) == after_loop.total(j));
                assert(self.explicit_counts() == e0.update(t, (e0[t] + 1) as u16));
            }
            assert forall|j: int| m.tag_count() <= j < MAX_TAG_COUNTS implies #[trigger] self.explicit(j) == 0 by {
                assert(before.explicit(j) == 0);
            }
            assert forall|j: int| 0 <= j < MAX_TAG_COUNTS implies #[trigger] self.total(j) == before.total(j)
                + if m.inherits(t, j) { 1int } else { 0 } by {
                assert(after_loop.total(j) == before.total(j) + if m.inherits(t, j) { 1int } else { 0 });
            }
            assert forall|j: int| m.inherits(t, j) implies #[trigger] self.has(j) by {
                assert(0 <= j < MAX_TAG_COUNTS);
                assert(after_loop.total(j) == before.total(j) + 1);
                assert(self.total(j) > 0);
                assert(bits_contain(self.tag_bits, j) <==> self.ref_counts@[j].total > 0);
            }
        }
        Ok(())
    }

    /// Removes one explicit reference to `tag` and its contribution to all inherited totals.
    ///
    /// Does nothing when `tag` has no explicit references, even if descendants keep it present.
    /// Returns [`GameplayTagError::InvalidTagIndex`] if `tag` is not registered in `manager`.
    pub fn remove_tag(&mut self, tag: &GameplayTag, manager: &GameplayTagManager) -> (result: Result<
        (),
        GameplayTagError,
    >)
        requires
            old(self).consistent_with(*manager),
        ensures
            final(self).consistent_with(*manager),
            !manager.is_registered(*tag) ==> result == Err::<(), GameplayTagError>(
                GameplayTagError::InvalidTagIndex { index: tag.index() as usize },
            ) && *final(self) == *old(self),
            manager.is_registered(*tag) ==> result is Ok,
            manager.is_registered(*tag) && old(self).explicit(tag.index()) == 0 ==> *final(self)
                == *old(self),
            manager.is_registered(*tag) && old(self).explicit(tag.index()) > 0 ==> final(self).explicit_counts() == old(self).explicit_counts().update(
                tag.index(),
                (old(self).explicit(tag.index()) - 1) as u16,
            ) && forall|i: int|
                0 <= i < MAX_TAG_COUNTS ==> #[trigger] final(self).total(i) == old(self).total(i)
                    - if manager.inherits(tag.index(), i) {
                    1int
                } else {
                    0
                },
    {
        let tag_bit_index = tag.get_bit_index_usize();
        let inherited_bits = match manager.get_inherited_bits(tag) {
            Ok(bits) => bits,
            Err(e) => {
                return Err(e);
            },
        };
        let ghost t = tag.index();
        let ghost m = *manager;
        proof {
            manager.lemma_inherited_len();
        }
        if self.ref_counts[tag_bit_index].explicit == 0 {
            return Ok(());
        }
        let ghost before = *self;
        let mut counts = self.ref_counts[tag_bit_index];
        counts.explicit = counts.explicit - 1;
        proof {
            self.lemma_view_update(t, counts);
        }
        self.ref_counts[tag_bit_index] = counts;
        let ghost after_explicit = *self;
        proof {
            assert forall|j: int|
                0 <= j < MAX_TAG_COUNTS && m.inherits(t, j) implies #[trigger] before.total(j) >= 1 by {
                Self::lemma_inherited_total_bound(before.explicit_counts(), m, j, MAX_TAG_COUNTS as nat, t);
            }
        }
        let mut bits_to_clear: GameplayTagBits = [0u64; MAX_TAG_BLOCKS];
        proof {
            lemma_empty_bits(bits_to_clear);
        }
        let mut i: usize = 0;
        while i < MAX_TAG_COUNTS
            invariant
                0 <= i <= MAX_TAG_COUNTS,
                *inherited_bits == m.inherited()[t],
                0 <= t < m.inherited().len(),
                self.tag_bits == before.tag_bits,
                self.ref_counts@.len() == MAX_TAG_COUNTS,
                self.explicit_counts() == after_explicit.explicit_counts(),
                before.consistent_with(m),
                before == *old(self),
                m == *manager,
                t == tag.index(),
                m.is_registered(*tag),
                after_explicit.explicit_counts() == before.explicit_counts().update(t, (before.explicit(t) - 1) as u16),
                before.explicit(t) > 0,
                forall|j: int|
                    0 <= j < MAX_TAG_COUNTS && m.inherits(t, j) ==> #[trigger] before.total(j) >= 1,
                forall|j: int|
                    0 <= j < MAX_TAG_COUNTS ==> #[trigger] self.total(j) == before.total(j) - if j < i
                        && m.inherits(t, j) {
                        1int
                    } else {
                        0
                    },
                forall|j: int| #[trigger] bits_contain(bits_to_clear, j) <==> (0 <= j < i
                    && m.inherits(t, j) && self.total(j) == 0),
            decreases MAX_TAG_COUNTS - i,
        {
            let ghost prev = *self;
            let ghost prev_clear = bits_to_clear;
            if bits_has(inherited_bits, i) {
                assert(self.total(i as int) == before.total(i as int));
                let mut counts = self.ref_counts[i];
                counts.total = counts.total - 1;
                proof {
                    self.lemma_view_update(i as int, counts);
                    assert(self.explicit_counts().update(i as int, counts.explicit) =~= self.explicit_counts());
                }
                self.ref_counts[i] = counts;
                if counts.total == 0 {
                    bits_insert(&mut bits_to_clear, i);
                }
            }
            proof {
                assert forall|j: int| 0 <= j < MAX_TAG_COUNTS implies #[trigger] self.total(j) == before.total(j) - if j < i + 1
                    && m.inherits(t, j) {
                    1int
                } else {
                    0
                } by {
                    assert(prev.total(j) == before.total(j) - if j < i && m.inherits(t, j) { 1int } else { 0 });
                    if j != i {
                        assert(self.ref_counts@[j] == prev.ref_counts@[j]);
                    }
                }
                assert forall|j: int| #[trigger] bits_contain(bits_to_clear, j) <==> (0 <= j < i + 1
                    && m.inherits(t, j) && self.total(j) == 0) by {
                    assert(bits_contain(prev_clear, j) <==> (0 <= j < i && m.inherits(t, j) && prev.total(j) == 0));
                    if 0 <= j < MAX_TAG_COUNTS && j != i {
                        assert(self.ref_counts@[j] == prev.ref_counts@[j]);
                    }
                }
            }
            i = i + 1;
        }
        let ghost after_loop = *self;
        self.tag_bits = bits_difference(&self.tag_bits, &bits_to_clear);
        proof {
            assert forall|j: int| 0 <= j < MAX_TAG_COUNTS implies (#[trigger] bits_contain(
                self.tag_bits,
                j,
            ) <==> self.ref_counts@[j].total > 0) by {
                assert(self.total(j) == self.ref_counts@[j].total);
                assert(before.total(j) == before.ref_counts@[j].total);
                assert(before.wf());
                assert(bits_contain(before.tag_bits, j) <==> before.ref_counts@[j].total > 0);
                assert(bits_contain(self.tag_bits, j) <==> (bits_contain(before.tag_bits, j) && !bits_contain(bits_to_clear, j)));
                assert(m.inherits(t, j) <==> bits_contain(*inherited_bits, j));
                assert(after_loop.total(j) == before.total(j) - if m.inherits(t, j) { 1int } else { 0 });
                assert(self.total(j) == after_loop.total(j));
            }
            let e0 = before.explicit_counts();
            assert forall|j: int| 0 <= j < MAX_TAG_COUNTS implies #[trigger] self.total(j)
                == inherited_total(self.explicit_counts(), m, j, MAX_TAG_COUNTS as nat) by {
                Self::lemma_inherited_total_update(
                    e0,
                    m,
                    j,
                    MAX_TAG_COUNTS as nat,
                    t,
                    (e0[t] - 1) as u16,
                );
                assert(before.total(j) == inherited_total(e0, m, j, MAX_TAG_COUNTS as nat));
                assert(self.total(j) == after_loop.total(j));
                assert(self.explicit_counts() == e0.update(t, (e0[t] - 1) as u16));
            }
            assert forall|j: int| m.tag_count() <= j < MAX_TAG_COUNTS implies #[trigger] self.explicit(j) == 0 by {
                assert(before.explicit(j) == 0);
            }
            assert forall|j: int| 0 <= j < MAX_TAG_COUNTS implies #[trigger] self.total(j) == before.total(j)
                - if m.inherits(t, j) { 1int } else { 0 } by {
                assert(after_loop.total(j) == before.total(j) - if m.inherits(t, j) { 1int } else { 0 });
            }
        }
        Ok(())
    }

    fn validate_additional_references(&self, index: usize, additional: u16) -> (result: Result<
        (),
        GameplayTagError,
    >)
        requires
            self.wf(),
            index < MAX_TAG_COUNTS,
        ensures
            result is Ok <==> self.total(index as int) + additional <= u16::MAX,
            result is Err ==> result == Err::<(), GameplayTagError>(
                GameplayTagError::ReferenceCountOverflow { index, max: u16::MAX },
            ),
    {
        match self.ref_counts[index].total.checked_add(additional) {
            Some(_) => Ok(()),
            None => Err(GameplayTagError::ReferenceCountOverflow { index, max: u16::MAX }),
        }
    }

    /// Counting inherited indices over a prefix never exceeds counting over the whole batch.
    pub proof fn lemma_inherit_count_prefix(tags: Seq<GameplayTag>, manager: GameplayTagManager, i: int, k: int)
        requires
            0 <= k <= tags.len(),
        ensures
            0 <= inherit_count(tags.take(k), manager, i) <= inherit_count(tags, manager, i),
        decreases tags.len() - k,
    {
        if k < tags.len() {
            Self::lemma_inherit_count_prefix(tags, manager, i, k + 1);
            assert(tags.take(k + 1).drop_last() == tags.take(k));
        } else {
            assert(tags.take(k) == tags);
        }
        Self::lemma_inherit_count_nonneg(tags.take(k), manager, i);
    }

    proof fn lemma_inherit_count_nonneg(tags: Seq<GameplayTag>, manager: GameplayTagManager, i: int)
        ensures
            inherit_count(tags, manager, i) >= 0,
        decreases tags.len(),
    {
        if tags.len() > 0 {
            Self::lemma_inherit_count_nonneg(tags.drop_last(), manager, i);
        }
    }

    /// Adds one explicit reference per entry after validating the complete batch.
    ///
    /// Duplicate tags and shared ancestors each contribute to the batch's total reference counts.
    /// Returns [`GameplayTagError::InvalidTagIndex`] for the first unregistered tag, or
    /// [`GameplayTagError::ReferenceCountOverflow`] for the first index whose total would exceed
    /// its capacity, in batch order. Either error leaves the container unchanged.
    pub fn add_tags(&mut self, tags: &[GameplayTag], manager: &GameplayTagManager) -> (result: Result<
        (),
        GameplayTagError,
    >)
        requires
            old(self).consistent_with(*manager),
        ensures
            final(self).consistent_with(*manager),
            result is Ok <==> ((forall|k: int| 0 <= k < tags@.len() ==> manager.is_registered(#[trigger] tags@[k]))
                && old(self).batch_fits(*manager, tags@)),
            result is Err ==> *final(self) == *old(self),
            result matches Err(GameplayTagError::InvalidTagIndex { index }) ==> exists|k: int|
                0 <= k < tags@.len() && !manager.is_registered(tags@[k]) && index == tags@[k].index()
                    && (forall|j: int| 0 <= j < k ==> manager.is_registered(#[trigger] tags@[j]))
                    && old(self).batch_fits(*manager, tags@.take(k)),
            result matches Err(GameplayTagError::ReferenceCountOverflow { index, max }) ==> max
                == u16::MAX && exists|k: int|
                0 <= k < tags@.len() && (forall|j: int| 0 <= j <= k ==> manager.is_registered(#[trigger] tags@[j]))
                    && old(self).batch_fits(*manager, tags@.take(k))
                    && old(self).total(index as int) + inherit_count(tags@.take(k + 1), *manager, index as int) > u16::MAX
                    && index < MAX_TAG_COUNTS
                    && forall|i: int| 0 <= i < index ==> old(self).total(i) + #[trigger] inherit_count(tags@.take(k + 1), *manager, i) <= u16::MAX,
            !(result matches Err(GameplayTagError::CapacityExceeded { .. })),
            result is Ok ==> forall|j: int| 0 <= j < MAX_TAG_COUNTS ==> #[trigger] final(self).explicit(j) == old(self).explicit(j) + occurrences(tags@, j),
            result is Ok ==> forall|j: int| 0 <= j < MAX_TAG_COUNTS ==> #[trigger] final(self).total(j) == old(self).total(j) + inherit_count(tags@, *manager, j),
            result is Ok ==> forall|k: int, i: int|
                0 <= k < tags@.len() && 0 <= i < MAX_TAG_COUNTS && manager.inherits(#[trigger] tags@[k].index(), i)
                    ==> #[trigger] final(self).has(i),
    {
        let ghost m = *manager;
        let ghost orig = *self;
        let mut additional_references: Vec<u16> = Vec::new();
        let mut z: usize = 0;
        while z < MAX_TAG_COUNTS
            invariant
                0 <= z <= MAX_TAG_COUNTS,
                additional_references@.len() == z,
                forall|j: int| 0 <= j < z ==> #[trigger] additional_references@[j] == 0,
            decreases MAX_TAG_COUNTS - z,
        {
            additional_references.push(0);
            z = z + 1;
        }
        proof {
            assert(tags@.take(0) =~= Seq::<GameplayTag>::empty());
        }
        let mut k: usize = 0;
        while k < tags.len()
            invariant
                0 <= k <= tags@.len(),
                *self == orig,
                orig == *old(self),
                orig.consistent_with(m),
                m == *manager,
                additional_references@.len() == MAX_TAG_COUNTS,
                forall|j: int| 0 <= j < k ==> m.is_registered(#[trigger] tags@[j]),
                orig.batch_fits(m, tags@.take(k as int)),
                forall|i: int| 0 <= i < MAX_TAG_COUNTS ==> #[trigger] additional_references@[i] == inherit_count(tags@.take(k as int), m, i),
            decreases tags@.len() - k,
        {
            let inherited_bits = match manager.get_inherited_bits(&tags[k]) {
                Ok(bits) => bits,
                Err(e) => {
                    return Err(e);
                },
            };
            let ghost t = tags@[k as int].index();
            let ghost prefix = tags@.take(k as int);
            let ghost next = tags@.take(k + 1);
            proof {
                assert(next.drop_last() == prefix);
                assert(next.last() == tags@[k as int]);
                manager.lemma_inherited_len();
            }
            let mut i: usize = 0;
            while i < MAX_TAG_COUNTS
                invariant
                    0 <= i <= MAX_TAG_COUNTS,
                    0 <= k < tags@.len(),
                    *self == orig,
                    orig == *old(self),
                    orig.consistent_with(m),
                    m == *manager,
                    t == tags@[k as int].index(),
                    0 <= t < m.inherited().len(),
                    *inherited_bits == m.inherited()[t],
                    prefix == tags@.take(k as int),
                    next == tags@.take(k + 1),
                    next.drop_last() == prefix,
                    next.last() == tags@[k as int],
                    additional_references@.len() == MAX_TAG_COUNTS,
                    forall|j: int| 0 <= j <= k ==> m.is_registered(#[trigger] tags@[j]),
                    orig.batch_fits(m, prefix),
                    forall|j: int| 0 <= j < MAX_TAG_COUNTS ==> #[trigger] additional_references@[j] == inherit_count(prefix, m, j)
                        + if j < i && m.inherits(t, j) { 1int } else { 0 },
                    forall|j: int| 0 <= j < i ==> orig.total(j) + #[trigger] inherit_count(next, m, j) <= u16::MAX,
                decreases MAX_TAG_COUNTS - i,
            {
                proof {
                    assert(inherit_count(next, m, i as int) == inherit_count(prefix, m, i as int) + if m.inherits(t, i as int) { 1int } else { 0 });
                }
                if bits_has(inherited_bits, i) {
                    let current = additional_references[i];
                    match current.checked_add(1) {
                        Some(incremented) => {
                            additional_references[i] = incremented;
                        },
                        None => {
                            proof {
                                Self::lemma_inherited_total_bound(orig.explicit_counts(), m, i as int, MAX_TAG_COUNTS as nat, 0);
                                Self::lemma_inherit_count_prefix(tags@, m, i as int, k + 1);
                                assert(orig.total(i as int) + inherit_count(tags@, m, i as int) > u16::MAX);
                                assert(!orig.batch_fits(m, tags@));
                            }
                            return Err(GameplayTagError::ReferenceCountOverflow { index: i, max: u16::MAX });
                        },
                    }
                    match self.validate_additional_references(i, additional_references[i]) {
                        Ok(()) => {},
                        Err(e) => {
                            proof {
                                Self::lemma_inherit_count_prefix(tags@, m, i as int, k + 1);
                                assert(additional_references@[i as int] == inherit_count(next, m, i as int));
                                assert(orig.total(i as int) + inherit_count(tags@, m, i as int) > u16::MAX);
                                assert(!orig.batch_fits(m, tags@));
                            }
                            return Err(e);
                        },
                    }
                } else {
                    proof {
                        assert(orig.total(i as int) + inherit_count(prefix, m, i as int) <= u16::MAX);
                    }
                }
                i = i + 1;
            }
            proof {
                assert forall|j: int| 0 <= j < MAX_TAG_COUNTS implies orig.total(j) + #[trigger] inherit_count(next, m, j) <= u16::MAX by {
                }
                assert forall|j: int| 0 <= j < MAX_TAG_COUNTS implies #[trigger] additional_references@[j] == inherit_count(next, m, j) by {
                }
            }
            k = k + 1;
        }
        proof {
            assert(tags@.take(tags@.len() as int) == tags@);
            assert(tags@.take(0) =~= Seq::<GameplayTag>::empty());
        }
        let mut k: usize = 0;
        while k < tags.len()
            invariant
                0 <= k <= tags@.len(),
                self.consistent_with(m),
                orig.consistent_with(m),
                orig == *old(self),
                m == *manager,
                forall|j: int| 0 <= j < tags@.len() ==> m.is_registered(#[trigger] tags@[j]),
                orig.batch_fits(m, tags@),
                forall|j: int| 0 <= j < MAX_TAG_COUNTS ==> #[trigger] self.explicit(j) == orig.explicit(j) + occurrences(tags@.take(k as int), j),
                forall|j: int| 0 <= j < MAX_TAG_COUNTS ==> #[trigger] self.total(j) == orig.total(j) + inherit_count(tags@.take(k as int), m, j),
            decreases tags@.len() - k,
        {
            let ghost prev = *self;
            let ghost t = tags@[k as int].index();
            let ghost prefix = tags@.take(k as int);
            let ghost next = tags@.take(k + 1);
            proof {
                assert(next.drop_last() == prefix);
                assert(next.last() == tags@[k as int]);
                assert forall|i: int| m.inherits(t, i) implies #[trigger] prev.total(i) < u16::MAX by {
                    Self::lemma_inherit_count_prefix(tags@, m, i, k + 1);
                    assert(inherit_count(next, m, i) == inherit_count(prefix, m, i) + 1);
                    assert(orig.total(i) + inherit_count(tags@, m, i) <= u16::MAX);
                }
            }
            proof {
                manager.lemma_inherits_self(t);
                Self::lemma_inherited_total_bound(prev.explicit_counts(), m, t, MAX_TAG_COUNTS as nat, t);
                assert(prev.total(t) == inherited_total(prev.explicit_counts(), m, t, MAX_TAG_COUNTS as nat));
                assert(prev.explicit(t) < u16::MAX);
            }
            let added = self.add_tag(&tags[k], manager);
            assert(added is Ok);
            proof {
                manager.lemma_inherited_len();
                assert forall|j: int| 0 <= j < MAX_TAG_COUNTS implies #[trigger] self.explicit(j) == orig.explicit(j) + occurrences(next, j) by {
                    assert(prev.explicit_counts().len() == MAX_TAG_COUNTS);
                    assert(self.explicit_counts() == prev.explicit_counts().update(t, (prev.explicit(t) + 1) as u16));
                    assert(prev.explicit(j) == orig.explicit(j) + occurrences(prefix, j));
                    assert(occurrences(next, j) == occurrences(prefix, j) + if next.last().index() == j { 1int } else { 0 });
                }
                assert forall|j: int| 0 <= j < MAX_TAG_COUNTS implies #[trigger] self.total(j) == orig.total(j) + inherit_count(next, m, j) by {
                    assert(prev.total(j) == orig.total(j) + inherit_count(prefix, m, j));
                }
            }
            k = k + 1;
        }
        proof {
            assert(tags@.take(tags@.len() as int) == tags@);
            assert forall|k: int, i: int|
                0 <= k < tags@.len() && 0 <= i < MAX_TAG_COUNTS && manager.inherits(#[trigger] tags@[k].index(), i)
                    implies #[trigger] self.has(i) by {
                lemma_inherit_count_positive(tags@, *manager, i, k);
                assert(self.total(i) == orig.total(i) + inherit_count(tags@, m, i));
                assert(self.ref_counts@[i].total > 0);
            }
        }
        Ok(())
    }

    /// Removes one explicit reference per entry after validating all tags.
    ///
    /// Entries without explicit references are ignored, including tags held only by
    /// inheritance. Returns [`GameplayTagError::InvalidTagIndex`] for the first unregistered tag,
    /// before any mutation.
    pub fn remove_tags(&mut self, tags: &[GameplayTag], manager: &GameplayTagManager) -> (result: Result<
        (),
        GameplayTagError,
    >)
        requires
            old(self).consistent_with(*manager),
        ensures
            final(self).consistent_with(*manager),
            result is Ok <==> (forall|k: int| 0 <= k < tags@.len() ==> manager.is_registered(#[trigger] tags@[k])),
            result is Err ==> *final(self) == *old(self) && exists|k: int|
                0 <= k < tags@.len() && !manager.is_registered(tags@[k]) && (forall|j: int|
                    0 <= j < k ==> manager.is_registered(#[trigger] tags@[j])) && result == Err::<(), GameplayTagError>(
                    GameplayTagError::InvalidTagIndex { index: tags@[k].index() as usize },
                ),
            result is Ok ==> forall|j: int| 0 <= j < MAX_TAG_COUNTS ==> #[trigger] final(self).explicit(j) == if old(self).explicit(j) > occurrences(tags@, j) {
                old(self).explicit(j) - occurrences(tags@, j)
            } else {
                0
            },
    {
        let ghost m = *manager;
        let mut k: usize = 0;
        while k < tags.len()
            invariant
                0 <= k <= tags@.len(),
                m == *manager,
                m.wf(),
                *self == *old(self),
                old(self).consistent_with(m),
                forall|j: int| 0 <= j < k ==> m.is_registered(#[trigger] tags@[j]),
            decreases tags@.len() - k,
        {
            match manager.get_inherited_bits(&tags[k]) {
                Ok(_) => {},
                Err(e) => {
                    return Err(e);
                },
            }
            k = k + 1;
        }
        let ghost orig = *self;
        proof {
            assert(tags@.take(0) =~= Seq::<GameplayTag>::empty());
        }
        let mut k: usize = 0;
        while k < tags.len()
            invariant
                0 <= k <= tags@.len(),
                self.consistent_with(m),
                orig.consistent_with(m),
                orig == *old(self),
                m == *manager,
                forall|j: int| 0 <= j < tags@.len() ==> m.is_registered(#[trigger] tags@[j]),
                forall|j: int| 0 <= j < MAX_TAG_COUNTS ==> #[trigger] self.explicit(j) == if orig.explicit(j) > occurrences(tags@.take(k as int), j) {
                    orig.explicit(j) - occurrences(tags@.take(k as int), j)
                } else {
                    0
                },
            decreases tags@.len() - k,
        {
            let ghost prev = *self;
            let ghost t = tags@[k as int].index();
            let ghost prefix = tags@.take(k as int);
            let ghost next = tags@.take(k + 1);
            proof {
                assert(next.drop_last() == prefix);
                assert(next.last() == tags@[k as int]);
            }
            proof {
                manager.lemma_inherited_len();
            }
            let removed = self.remove_tag(&tags[k], manager);
            assert(removed is Ok);
            proof {
                assert forall|j: int| 0 <= j < MAX_TAG_COUNTS implies #[trigger] self.explicit(j) == if orig.explicit(j) > occurrences(next, j) {
                    orig.explicit(j) - occurrences(next, j)
                } else {
                    0
                } by {
                    assert(occurrences(next, j) == occurrences(prefix, j) + if t == j { 1int } else { 0 });
                    assert(prev.explicit(j) == if orig.explicit(j) > occurrences(prefix, j) {
                        orig.explicit(j) - occurrences(prefix, j)
                    } else {
                        0
                    });
                    assert(occurrences(next, j) == occurrences(prefix, j) + if next.last().index() == j { 1int } else { 0 });
                    assert(prev.explicit_counts().len() == MAX_TAG_COUNTS);
                    if prev.explicit(t) > 0 {
                        assert(self.explicit_counts() == prev.explicit_counts().update(t, (prev.explicit(t) - 1) as u16));
                    }
                }
            }
            k = k + 1;
        }
        proof {
            assert(tags@.take(tags@.len() as int) == tags@);
        }
        Ok(())
    }

    /// Returns whether `tag` has an explicit reference or inherits one from a descendant.
    pub fn has_tag(&self, tag: &GameplayTag) -> (r: bool)
        ensures
            r == self.has(tag.index()),
    {
        let tag_bit_index = tag.get_bit_index_usize();
        if tag_bit_index >= MAX_TAG_COUNTS {
            return false;
        }
        bits_has(&self.tag_bits, tag_bit_index)
    }

    /// Returns whether all exact tag bits are present.
    pub fn has_all(&self, tags: &[GameplayTag]) -> (r: bool)
        ensures
            r == (tags_in_range(tags@) && forall|k: int| 0 <= k < tags@.len() ==> self.has(#[trigger] tags@[k].index())),
    {
        match tag_bits_from_tags(tags) {
            Ok(tag_bits) => {
                let r = self.has_all_bits(&tag_bits);
                proof {
                    if r {
                        assert forall|k: int| 0 <= k < tags@.len() implies self.has(#[trigger] tags@[k].index()) by {
                            assert(bits_contain(tag_bits, tags@[k].index()));
                        }
                    } else {
                        let i = choose|i: int| #[trigger] bits_contain(tag_bits, i) && !bits_contain(self.tag_bits, i);
                        let k = choose|k: int| 0 <= k < tags@.len() && tags@[k].index() == i;
                        assert(!self.has(tags@[k].index()));
                    }
                }
                r
            },
            Err(_) => false,
        }
    }

    /// Returns whether every bit in `tag_bits` is present.
    pub fn has_all_bits(&self, tag_bits: &GameplayTagBits) -> (r: bool)
        ensures
            r == bits_subset(self.tag_bits(), *tag_bits),
    {
        bits_contain_all(&self.tag_bits, tag_bits)
    }

    /// Returns whether at least one exact tag bit is present.
    pub fn has_any(&self, tags: &[GameplayTag]) -> (r: bool)
        ensures
            r == exists|k: int| 0 <= k < tags@.len() && self.has(#[trigger] tags@[k].index()),
    {
        let mut k: usize = 0;
        while k < tags.len()
            invariant
                0 <= k <= tags@.len(),
                forall|j: int| 0 <= j < k ==> !self.has(#[trigger] tags@[j].index()),
            decreases tags@.len() - k,
        {
            if self.has_tag(&tags[k]) {
                assert(self.has(tags@[k as int].index()));
                return true;
            }
            k = k + 1;
        }
        false
    }

    /// Returns whether at least one bit in `tag_bits` is present.
    pub fn has_any_bits(&self, tag_bits: &GameplayTagBits) -> (r: bool)
        ensures
            r == bits_intersect(self.tag_bits(), *tag_bits),
    {
        bits_contain_any(&self.tag_bits, tag_bits)
    }

    /// A container without references is consistent with every well-formed registry.
    pub proof fn lemma_empty_consistent(self, manager: GameplayTagManager)
        requires
            self.wf(),
            manager.wf(),
            self.has_no_references(),
        ensures
            self.consistent_with(manager),
    {
        assert forall|i: int| 0 <= i < MAX_TAG_COUNTS implies #[trigger] self.total(i) == inherited_total(
            self.explicit_counts(),
            manager,
            i,
            MAX_TAG_COUNTS as nat,
        ) by {
            assert forall|j: int| 0 <= j < MAX_TAG_COUNTS implies #[trigger] self.explicit_counts()[j] == 0 by {
                assert(self.explicit(j) == 0);
            }
            assert(self.explicit(i) == 0);
            Self::lemma_inherited_total_zero(self.explicit_counts(), manager, i, MAX_TAG_COUNTS as nat);
        }
    }

    proof fn lemma_inherited_total_zero(explicit: Seq<u16>, manager: GameplayTagManager, i: int, n: nat)
        requires
            n <= explicit.len(),
            forall|j: int| 0 <= j < n ==> #[trigger] explicit[j] == 0,
        ensures
            inherited_total(explicit, manager, i, n) == 0,
        decreases n,
    {
        if n > 0 {
            Self::lemma_inherited_total_zero(explicit, manager, i, (n - 1) as nat);
        }
    }

    /// Registering further tags keeps a container consistent with the registry: a registry
    /// whose inherited bitsets extend those of `before` agrees on every total.
    pub proof fn lemma_registration_preserves_consistency(
        self,
        before: GameplayTagManager,
        after: GameplayTagManager,
    )
        requires
            self.consistent_with(before),
            after.wf(),
            before.tag_count() <= after.tag_count(),
            after.inherited().take(before.inherited().len() as int) == before.inherited(),
        ensures
            self.consistent_with(after),
    {
        before.lemma_inherited_len();
        after.lemma_inherited_len();
        assert forall|t: int| 0 <= t < before.inherited().len() implies #[trigger] after.inherited()[t] == before.inherited()[t] by {
            assert(after.inherited().take(before.inherited().len() as int)[t] == after.inherited()[t]);
        }
        assert forall|i: int| 0 <= i < MAX_TAG_COUNTS implies #[trigger] self.total(i) == inherited_total(
            self.explicit_counts(),
            after,
            i,
            MAX_TAG_COUNTS as nat,
        ) by {
            assert forall|t: int| before.inherited().len() <= t < MAX_TAG_COUNTS implies #[trigger] self.explicit_counts()[t] == 0 by {
                assert(self.explicit(t) == 0);
            }
            Self::lemma_inherited_total_extension(self.explicit_counts(), before, after, i, MAX_TAG_COUNTS as nat);
        }
    }

    /// Explicit references determine a consistent container: two containers consistent with
    /// the same registry and holding the same explicit references have the same totals and
    /// the same present tags.
    pub proof fn lemma_explicit_counts_determine_state(
        self,
        other: GameplayTagContainer,
        manager: GameplayTagManager,
    )
        requires
            self.consistent_with(manager),
            other.consistent_with(manager),
            self.explicit_counts() == other.explicit_counts(),
        ensures
            forall|i: int| 0 <= i < MAX_TAG_COUNTS ==> #[trigger] self.total(i) == other.total(i),
            self.tag_bits() == other.tag_bits(),
    {
        assert forall|i: int| #[trigger] bits_contain(self.tag_bits, i) == bits_contain(other.tag_bits, i) by {
            if 0 <= i < MAX_TAG_COUNTS {
                assert(self.total(i) == other.total(i));
            }
        }
        lemma_bits_ext(self.tag_bits, other.tag_bits);
    }

    /// Adding a tag and then removing it leaves the container as it was.
    pub proof fn lemma_add_then_remove_restores(
        self,
        added: GameplayTagContainer,
        removed: GameplayTagContainer,
        manager: GameplayTagManager,
        tag: GameplayTag,
    )
        requires
            self.consistent_with(manager),
            added.consistent_with(manager),
            removed.consistent_with(manager),
            manager.is_registered(tag),
            forall|i: int| manager.inherits(tag.index(), i) ==> #[trigger] self.total(i) < u16::MAX,
            added.explicit_counts() == self.explicit_counts().update(tag.index(), (self.explicit(tag.index()) + 1) as u16),
            removed.explicit_counts() == added.explicit_counts().update(tag.index(), (added.explicit(tag.index()) - 1) as u16),
        ensures
            removed.explicit_counts() == self.explicit_counts(),
            forall|i: int| 0 <= i < MAX_TAG_COUNTS ==> #[trigger] removed.total(i) == self.total(i),
            removed.tag_bits() == self.tag_bits(),
    {
        manager.lemma_inherited_len();
        manager.lemma_inherits_self(tag.index());
        Self::lemma_inherited_total_bound(self.explicit_counts(), manager, tag.index(), MAX_TAG_COUNTS as nat, tag.index());
        assert(self.total(tag.index()) < u16::MAX);
        assert(self.explicit(tag.index()) < u16::MAX);
        assert(removed.explicit_counts() =~= self.explicit_counts());
        removed.lemma_explicit_counts_determine_state(self, manager);
    }
}

impl Default for GameplayTagContainer {
    /// Creates a container without any tag references.
    fn default() -> (container: Self)
        ensures
            container.wf(),
            container.has_no_references(),
            forall|i: int| !#[trigger] container.has(i),
    {
        let container = Self::empty();
        assert(container.has_no_references());
        container
    }
}

} // verus!
