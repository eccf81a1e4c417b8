use super::bitset::{bits_union, tags_in_range, lemma_empty_bits};
use super::{
    add_bit_with_tag, bits_contain, GameplayTag, GameplayTagBits, GameplayTagError,
    MAX_TAG_BLOCKS, MAX_TAG_COUNTS,
};
use crate::identifiers::UniqueName;
use bevy::platform::collections::HashMap;
use bevy::platform::hash::FixedHasher;
use vstd::prelude::*;

verus! {

broadcast use GameplayTag::lemma_index;

#[verifier::external_type_specification]
#[verifier::external_body]
pub struct ExFixedHasher(FixedHasher);

#[verifier::external_type_specification]
#[verifier::external_body]
#[verifier::reject_recursive_types(K)]
#[verifier::reject_recursive_types(V)]
#[verifier::reject_recursive_types(S)]
pub struct ExHashMap<K, V, S>(HashMap<K, V, S>);

/// Map from a unique name's value to the index of the tag registered under it.
pub type NameIndex = HashMap<u64, u16>;

/// The name-to-index entries held by a name index map.
pub uninterp spec fn name_index_entries(map: NameIndex) -> Map<u64, u16>;

/// Creates an empty name index with `HashMap::new`, which holds no entries.
#[verifier::external_body]
fn name_index_new() -> (entries: NameIndex)
    ensures
        name_index_entries(entries).is_empty(),
{
    HashMap::new()
}

/// Looks up `key` with `HashMap::get`, which yields the value stored under the key, if any.
#[verifier::external_body]
fn name_index_get(map: &NameIndex, key: u64) -> (value: Option<u16>)
    ensures
        value == (if name_index_entries(*map).contains_key(key) {
            Some(name_index_entries(*map)[key])
        } else {
            None::<u16>
        }),
{
    map.get(&key).copied()
}

/// Stores `value` under `key` with `HashMap::insert`, which replaces any previous entry.
#[verifier::external_body]
fn name_index_insert(map: &mut NameIndex, key: u64, value: u16)
    ensures
        name_index_entries(*final(map)) == name_index_entries(*old(map)).insert(key, value),
{
    map.insert(key, value);
}

/// Whether tag `d` is a strict descendant of tag `a` in the parent relation `parents`.
pub open spec fn is_descendant(parents: Seq<Option<u16>>, d: int, a: int) -> bool
    decreases d,
{
    if 0 <= d < parents.len() {
        match parents[d] {
            Some(p) => if (p as int) < d {
                p as int == a || is_descendant(parents, p as int, a)
            } else {
                false
            },
            None => false,
        }
    } else {
        false
    }
}

/// The index of the last of the first `n` names of `path` that `names` registers, or -1.
pub open spec fn deepest_registered(names: Map<u64, u16>, path: Seq<UniqueName>, n: int) -> int
    decreases n,
{
    if n <= 0 {
        -1
    } else if names.contains_key(path[n - 1].value()) {
        n - 1
    } else {
        deepest_registered(names, path, n - 1)
    }
}

/// `names` after registering `path[from..to]` at consecutive tag indices from `first`.
pub open spec fn names_with_path(names: Map<u64, u16>, path: Seq<UniqueName>, from: int, to: int, first: int) -> Map<
    u64,
    u16,
>
    decreases to - from,
{
    if to <= from {
        names
    } else {
        names_with_path(names, path, from, to - 1, first).insert(path[to - 1].value(), (first + (to - 1 - from)) as u16)
    }
}

/// The parents of `count` tags registered at indices from `first` along a path: the first
/// under `root`, each next under the previous.
pub open spec fn path_parents(root: Option<u16>, count: int, first: int) -> Seq<Option<u16>> {
    Seq::new(count as nat, |j: int| if j == 0 { root } else { Some((first + j - 1) as u16) })
}

/// The deepest registered name lies within the first `n`, and none after it is registered.
proof fn lemma_deepest_registered(names: Map<u64, u16>, path: Seq<UniqueName>, n: int)
    requires
        0 <= n <= path.len(),
    ensures
        -1 <= deepest_registered(names, path, n) < n,
        deepest_registered(names, path, n) >= 0 ==> names.contains_key(
            path[deepest_registered(names, path, n)].value(),
        ),
        forall|q: int|
            deepest_registered(names, path, n) < q < n ==> !names.contains_key((#[trigger] path[q]).value()),
    decreases n,
{
    if n > 0 && !names.contains_key(path[n - 1].value()) {
        lemma_deepest_registered(names, path, n - 1);
    }
}

/// A key of `names_with_path` is a key of `names` or one of the registered path names.
proof fn lemma_names_with_path_keys(names: Map<u64, u16>, path: Seq<UniqueName>, from: int, to: int, first: int)
    ensures
        forall|key: u64|
            #[trigger] names_with_path(names, path, from, to, first).contains_key(key) ==> names.contains_key(key)
                || exists|q: int| from <= q < to && path[q].value() == key,
    decreases to - from,
{
    if to > from {
        lemma_names_with_path_keys(names, path, from, to - 1, first);
        assert forall|key: u64|
            #[trigger] names_with_path(names, path, from, to, first).contains_key(key) implies names.contains_key(key)
                || exists|q: int| from <= q < to && path[q].value() == key by {
            if key != path[to - 1].value() {
                assert(names_with_path(names, path, from, to - 1, first).contains_key(key));
                if !names.contains_key(key) {
                    let q = choose|q: int| from <= q < to - 1 && path[q].value() == key;
                    assert(from <= q < to && path[q].value() == key);
                }
            }
        }
    }
}

/// Global registry for hierarchical gameplay tags and inherited bitsets.
pub struct GameplayTagManager {
    tag_name_to_index: NameIndex,
    tag_parent_index: Vec<Option<u16>>,
    tag_children: Vec<Vec<u16>>,
    tag_inherited_bits: Vec<GameplayTagBits>,
    next_tag_index: u16,
}

impl GameplayTagManager {
    /// Number of registered tags; tag indices are `0..tag_count()`.
    pub closed spec fn tag_count(self) -> nat {
        self.next_tag_index as nat
    }

    /// The direct parent of each registered tag.
    pub closed spec fn parents(self) -> Seq<Option<u16>> {
        self.tag_parent_index@
    }

    /// The bitset of each registered tag, holding the tag and all its ancestors.
    pub closed spec fn inherited(self) -> Seq<GameplayTagBits> {
        self.tag_inherited_bits@
    }

    /// The direct children of tag `t`, in registration order.
    pub closed spec fn children_of(self, t: int) -> Seq<u16> {
        self.tag_children@[t]@
    }

    /// The registered names and their tag indices.
    pub closed spec fn names(self) -> Map<u64, u16> {
        name_index_entries(self.tag_name_to_index)
    }

    /// Whether `tag` is registered.
    pub open spec fn is_registered(self, tag: GameplayTag) -> bool {
        tag.index() < self.tag_count()
    }

    /// Whether the registered tag `t` has the inherited bit `i`.
    pub open spec fn inherits(self, t: int, i: int) -> bool {
        0 <= t < self.inherited().len() && bits_contain(self.inherited()[t], i)
    }

    /// Structural invariant of the registry.
    pub closed spec fn wf(self) -> bool {
        let n = self.next_tag_index as int;
        &&& n <= MAX_TAG_COUNTS
        &&& self.tag_parent_index@.len() == n
        &&& self.tag_children@.len() == n
        &&& self.tag_inherited_bits@.len() == n
        &&& forall|t: int|
            0 <= t < n && #[trigger] self.tag_parent_index@[t] is Some
                ==> (self.tag_parent_index@[t].unwrap() as int) < t
        &&& forall|t: int, i: int|
            0 <= t < n ==> (#[trigger] bits_contain(self.tag_inherited_bits@[t], i) <==> (i == t
                || (self.tag_parent_index@[t] matches Some(p) && bits_contain(
                self.tag_inherited_bits@[p as int],
                i,
            ))))
        &&& forall|p: int, c: u16|
            0 <= p < n ==> (#[trigger] self.tag_children@[p]@.contains(c) <==> ((c as int) < n
                && self.tag_parent_index@[c as int] == Some(p as u16)))
        &&& forall|p: int, j: int, k: int|
            0 <= p < n && 0 <= j < k < self.tag_children@[p]@.len() ==> #[trigger] self.tag_children@[p]@[j]
                < #[trigger] self.tag_children@[p]@[k]
        &&& forall|key: u64|
            #[trigger] name_index_entries(self.tag_name_to_index).contains_key(key) ==> (
            name_index_entries(self.tag_name_to_index)[key] as int) < n
    }

    /// Creates an empty registry.
    pub fn new() -> (manager: Self)
        ensures
            manager.wf(),
            manager.tag_count() == 0,
            manager.names() == Map::<u64, u16>::empty(),
    {
        GameplayTagManager {
            tag_name_to_index: name_index_new(),
            tag_parent_index: Vec::new(),
            tag_children: Vec::new(),
            tag_inherited_bits: Vec::new(),
            next_tag_index: 0,
        }
    }

    /// Returns the tag registered for `unique_name`, if present.
    pub fn get_tag(&self, unique_name: UniqueName) -> (tag: Option<GameplayTag>)
        ensures
            tag matches Some(t) ==> self.names().contains_key(unique_name.value()) && t.index()
                == self.names()[unique_name.value()],
            tag is None <==> !self.names().contains_key(unique_name.value()),
    {
        match name_index_get(&self.tag_name_to_index, unique_name.get_value()) {
            Some(index) => Some(GameplayTag::new(index)),
            None => None,
        }
    }

    /// Registers a tag and its optional direct parent.
    ///
    /// Returns the existing tag when `unique_name` is already registered. Otherwise returns
    /// [`GameplayTagError::CapacityExceeded`] when the configured tag capacity is full, or
    /// [`GameplayTagError::InvalidTagIndex`] when the supplied parent index is unknown; both
    /// errors leave the registry unchanged.
    pub fn register_tag_internal(&mut self, unique_name: UniqueName, parent_tag_index: Option<
        u16,
    >) -> (result: Result<GameplayTag, GameplayTagError>)
        requires
            old(self).wf(),
        ensures
            final(self).wf(),
            old(self).names().contains_key(unique_name.value()) ==> (result matches Ok(t) && t.index()
                == old(self).names()[unique_name.value()] && *final(self) == *old(self)),
            !old(self).names().contains_key(unique_name.value()) && old(self).tag_count()
                >= MAX_TAG_COUNTS ==> result == Err::<GameplayTag, GameplayTagError>(
                GameplayTagError::CapacityExceeded { max: MAX_TAG_COUNTS },
            ) && *final(self) == *old(self),
            !old(self).names().contains_key(unique_name.value()) && old(self).tag_count()
                < MAX_TAG_COUNTS && parent_tag_index is Some && parent_tag_index->0 >= old(self).tag_count()
                ==> result == Err::<GameplayTag, GameplayTagError>(
                GameplayTagError::InvalidTagIndex { index: parent_tag_index->0 as usize },
            ) && *final(self) == *old(self),
            result is Ok && !old(self).names().contains_key(unique_name.value()) ==> {
                let n = old(self).tag_count();
                &&& result->Ok_0.index() == n
                &&& final(self).tag_count() == n + 1
                &&& final(self).parents() == old(self).parents().push(parent_tag_index)
                &&& final(self).inherited().drop_last() == old(self).inherited()
                &&& final(self).names() == old(self).names().insert(unique_name.value(), n as u16)
                &&& forall|i: int| #[trigger] final(self).inherits(n as int, i) <==> (i == n || (parent_tag_index matches Some(
                    p,
                ) && old(self).inherits(p as int, i)))
            },
            !old(self).names().contains_key(unique_name.value()) ==> (result is Ok <==> (old(self).tag_count() < MAX_TAG_COUNTS && (parent_tag_index is Some ==> parent_tag_index->0 < old(self).tag_count()))),
    {
        if let Some(index) = name_index_get(&self.tag_name_to_index, unique_name.get_value()) {
            return Ok(GameplayTag::new(index));
        }
        let new_index = self.next_tag_index;
        if new_index as usize >= MAX_TAG_COUNTS {
            return Err(GameplayTagError::CapacityExceeded { max: MAX_TAG_COUNTS });
        }
        let mut inherited_bits: GameplayTagBits = match parent_tag_index {
            Some(parent_index) => {
                if (parent_index as usize) < self.tag_inherited_bits.len() {
                    self.tag_inherited_bits[parent_index as usize]
                } else {
                    return Err(GameplayTagError::InvalidTagIndex { index: parent_index as usize });
                }
            },
            None => {
                let empty: GameplayTagBits = [0u64; MAX_TAG_BLOCKS];
                proof {
                    lemma_empty_bits(empty);
                }
                empty
            },
        };
        let tag = GameplayTag::new(new_index);
        let ghost parent_bits = inherited_bits;
        let added = add_bit_with_tag(&mut inherited_bits, &tag);
        assert(added is Ok);
        let ghost old_self = *self;
        self.tag_parent_index.push(parent_tag_index);
        self.tag_inherited_bits.push(inherited_bits);
        self.tag_children.push(Vec::new());
        name_index_insert(&mut self.tag_name_to_index, unique_name.get_value(), new_index);
        if let Some(parent_index) = parent_tag_index {
            let mut siblings = Vec::new();
            std::mem::swap(&mut siblings, &mut self.tag_children[parent_index as usize]);
            siblings.push(new_index);
            std::mem::swap(&mut siblings, &mut self.tag_children[parent_index as usize]);
        }
        self.next_tag_index = new_index + 1;
        proof {
            let n = new_index as int;
            assert forall|t: int, i: int|
                0 <= t < n + 1 implies (#[trigger] bits_contain(self.tag_inherited_bits@[t], i) <==> (i
                == t || (self.tag_parent_index@[t] matches Some(p) && bits_contain(
                self.tag_inherited_bits@[p as int],
                i,
            )))) by {
                if t < n {
                    assert(self.tag_inherited_bits@[t] == old_self.tag_inherited_bits@[t]);
                    assert(self.tag_parent_index@[t] == old_self.tag_parent_index@[t]);
                    if let Some(p) = self.tag_parent_index@[t] {
                        assert(self.tag_inherited_bits@[p as int] == old_self.tag_inherited_bits@[p as int]);
                    }
                } else {
                    if let Some(p) = parent_tag_index {
                        assert(self.tag_inherited_bits@[p as int] == old_self.tag_inherited_bits@[p as int]);
                    } else {
                        assert(!bits_contain(parent_bits, i));
                    }
                }
            }
            assert forall|p: int, c: u16|
                0 <= p < n + 1 implies (#[trigger] self.tag_children@[p]@.contains(c) <==> ((c as int)
                < n + 1 && self.tag_parent_index@[c as int] == Some(p as u16))) by {
                if (c as int) < n {
                    assert(self.tag_parent_index@[c as int] == old_self.tag_parent_index@[c as int]);
                    if old_self.tag_parent_index@[c as int] is Some {
                        assert((old_self.tag_parent_index@[c as int].unwrap() as int) < c);
                    }
                }
                if p < n {
                    assert(old_self.tag_children@[p]@.contains(c) <==> ((c as int) < n
                        && old_self.tag_parent_index@[c as int] == Some(p as u16)));
                    assert(self.tag_parent_index@[n] == parent_tag_index);
                    if parent_tag_index == Some(p as u16) {
                        assert(self.tag_children@[p]@ == old_self.tag_children@[p]@.push(new_index));
                        if self.tag_children@[p]@.contains(c) && c != new_index {
                            let j = choose|j: int| 0 <= j < self.tag_children@[p]@.len() && self.tag_children@[p]@[j] == c;
                            assert(old_self.tag_children@[p]@[j] == c);
                            assert(old_self.tag_children@[p]@.contains(c));
                        }
                        if (c as int) < n && self.tag_parent_index@[c as int] == Some(p as u16) {
                            assert(old_self.tag_children@[p]@.contains(c));
                            let j = choose|j: int| 0 <= j < old_self.tag_children@[p]@.len() && old_self.tag_children@[p]@[j] == c;
                            assert(self.tag_children@[p]@[j] == c);
                        }
                        if c == new_index {
                            assert(self.tag_children@[p]@[self.tag_children@[p]@.len() - 1] == c);
                        }
                    } else {
                        assert(self.tag_children@[p] == old_self.tag_children@[p]);
                        if old_self.tag_children@[p]@.contains(c) {
                            assert((c as int) < n);
                        }
                    }
                } else {
                    assert(self.tag_parent_index@[n] == parent_tag_index);
                    assert(self.tag_children@[p]@ =~= Seq::<u16>::empty());
                    if (c as int) < n + 1 && self.tag_parent_index@[c as int] == Some(p as u16) {
                        if (c as int) < n {
                            assert(self.tag_parent_index@[c as int] == old_self.tag_parent_index@[c as int]);
                        }
                    }
                }
            }
            assert forall|p: int, j: int, k: int|
                0 <= p < n + 1 && 0 <= j < k < self.tag_children@[p]@.len() implies #[trigger] self.tag_children@[p]@[j]
                < #[trigger] self.tag_children@[p]@[k] by {
                if p < n {
                    if parent_tag_index == Some(p as u16) {
                        assert(self.tag_children@[p]@ == old_self.tag_children@[p]@.push(new_index));
                        if k == self.tag_children@[p]@.len() - 1 {
                            let c = old_self.tag_children@[p]@[j];
                            assert(old_self.tag_children@[p]@.contains(c));
                        }
                    } else {
                        assert(self.tag_children@[p] == old_self.tag_children@[p]);
                    }
                }
            }
            assert forall|t: int|
                0 <= t < n + 1 && #[trigger] self.tag_parent_index@[t] is Some implies (
                self.tag_parent_index@[t].unwrap() as int) < t by {
                if t < n {
                    assert(self.tag_parent_index@[t] == old_self.tag_parent_index@[t]);
                }
            }
            assert(self.tag_inherited_bits@.drop_last() =~= old_self.tag_inherited_bits@);
        }
        proof {
            let n = new_index as int;
            assert forall|i: int| #[trigger] self.inherits(n, i) <==> (i == n || (parent_tag_index matches Some(p)
                && old(self).inherits(p as int, i))) by {
                assert(self.tag_inherited_bits@[n] == inherited_bits);
                if let Some(p) = parent_tag_index {
                    assert(old(self).tag_inherited_bits@[p as int] == parent_bits);
                }
            }
        }
        Ok(tag)
    }

    /// Returns the tag named by the last of `prefix_names`, registering it and its missing
    /// ancestors first.
    ///
    /// `prefix_names` holds the names of a hierarchical tag's prefixes, outermost first, so
    /// that each prefix is the parent of the next: the names that
    /// [`tag_name_prefixes`](super::tag_name_prefixes) lists for the tag's full name, each
    /// interned. Nothing above the deepest registered prefix is looked at; each prefix below it
    /// is registered as the child of the one before it.
    /// Fails with [`GameplayTagError::CapacityExceeded`] once the capacity runs out; the
    /// prefixes registered before that stay registered.
    pub fn request_or_register_tag(&mut self, prefix_names: &[UniqueName]) -> (result: Result<
        GameplayTag,
        GameplayTagError,
    >)
        requires
            old(self).wf(),
            prefix_names@.len() >= 1,
            forall|a: int, b: int|
                0 <= a < b < prefix_names@.len() ==> (#[trigger] prefix_names@[a]).value() != (
                #[trigger] prefix_names@[b]).value(),
        ensures
            final(self).wf(),
            ({
                let n = prefix_names@.len() as int;
                let k = deepest_registered(old(self).names(), prefix_names@, n);
                let c0 = old(self).tag_count() as int;
                let missing = n - 1 - k;
                let fit = if c0 + missing <= MAX_TAG_COUNTS { missing } else { MAX_TAG_COUNTS - c0 };
                let root = if k >= 0 { Some(old(self).names()[prefix_names@[k].value()]) } else { None::<u16> };
                &&& final(self).tag_count() == c0 + fit
                &&& final(self).names() == names_with_path(old(self).names(), prefix_names@, k + 1, k + 1 + fit, c0)
                &&& final(self).parents() == old(self).parents() + path_parents(root, fit, c0)
                &&& c0 + missing <= MAX_TAG_COUNTS ==> (result matches Ok(t) && t.index() == (if missing == 0 {
                    old(self).names()[prefix_names@[n - 1].value()] as int
                } else {
                    c0 + missing - 1
                }))
                &&& c0 + missing > MAX_TAG_COUNTS ==> result == Err::<GameplayTag, GameplayTagError>(
                    GameplayTagError::CapacityExceeded { max: MAX_TAG_COUNTS },
                )
            }),
    {
        let n = prefix_names.len();
        let ghost names0 = self.names();
        let ghost path = prefix_names@;
        let mut i: usize = n;
        let mut root: Option<GameplayTag> = None;
        while i > 0
            invariant_except_break
                i <= n,
                n == path.len(),
                path == prefix_names@,
                root is None,
                self.names() == names0,
                deepest_registered(names0, path, n as int) == deepest_registered(names0, path, i as int),
            ensures
                i <= n,
                root matches Some(t) ==> i >= 1 && deepest_registered(names0, path, n as int) == i - 1
                    && t.index() == names0[path[i - 1].value()],
                root is None ==> i == 0 && deepest_registered(names0, path, n as int) == -1,
            decreases i,
        {
            match self.get_tag(prefix_names[i - 1]) {
                Some(t) => {
                    root = Some(t);
                    break;
                },
                None => {
                    i = i - 1;
                },
            }
        }
        proof {
            lemma_deepest_registered(names0, path, n as int);
        }
        if i == n {
            if let Some(t) = root {
                assert(names_with_path(names0, path, n as int, n as int, self.tag_count() as int) == names0);
                assert(self.parents() + path_parents(Some(names0[path[n - 1].value()]), 0, self.tag_count() as int)
                    =~= self.parents());
                return Ok(t);
            }
        }
        let ghost c0 = self.tag_count() as int;
        let ghost parents0 = self.parents();
        let ghost root_index: Option<u16> = match root {
            Some(t) => Some(t.index() as u16),
            None => None,
        };
        let mut parent: Option<u16> = match root {
            Some(t) => Some(t.get_bit_index_u16()),
            None => None,
        };
        proof {
            if let Some(t) = root {
                assert(names0.contains_key(path[i - 1].value()));
            }
            assert(parents0 + path_parents(root_index, 0, c0) =~= parents0);
        }
        let mut j: usize = i;
        let mut last: Option<GameplayTag> = root;
        while j < n
            invariant
                self.wf(),
                i <= j <= n,
                n == path.len(),
                path == prefix_names@,
                forall|a: int, b: int| 0 <= a < b < path.len() ==> (#[trigger] path[a]).value() != (#[trigger] path[b]).value(),
                forall|q: int| i <= q < n ==> !names0.contains_key((#[trigger] path[q]).value()),
                root_index is Some ==> (root_index->0 as int) < c0,
                i < n,
                names0 == old(self).names(),
                parents0 == old(self).parents(),
                c0 == old(self).tag_count(),
                deepest_registered(names0, path, n as int) == i - 1,
                root_index == (if i >= 1 { Some(names0[path[i - 1].value()]) } else { None::<u16> }),
                c0 + (j - i) <= MAX_TAG_COUNTS,
                self.tag_count() == c0 + (j - i),
                self.names() == names_with_path(names0, path, i as int, j as int, c0),
                self.parents() == parents0 + path_parents(root_index, j - i, c0),
                parent == (if j == i { root_index } else { Some((c0 + j - i - 1) as u16) }),
                j > i ==> (last matches Some(t) && t.index() == c0 + j - i - 1),
            decreases n - j,
        {
            proof {
                lemma_names_with_path_keys(names0, path, i as int, j as int, c0);
                assert(!names0.contains_key(path[j as int].value()));
                assert forall|q: int| i <= q < j implies path[q].value() != path[j as int].value() by {}
                assert(parent is Some ==> (parent->0 as int) < self.tag_count());
            }
            let ghost before = *self;
            let registered = self.register_tag_internal(prefix_names[j], parent);
            match registered {
                Ok(t) => {
                    proof {
                        assert(path_parents(root_index, j - i + 1, c0) =~= path_parents(root_index, j - i, c0).push(parent));
                        assert(self.parents() =~= parents0 + path_parents(root_index, j - i + 1, c0));
                    }
                    parent = Some(t.get_bit_index_u16());
                    last = Some(t);
                    j = j + 1;
                },
                Err(e) => {
                    assert(before.tag_count() >= MAX_TAG_COUNTS);
                    assert(*self == before);
                    return Err(e);
                },
            }
        }
        match last {
            Some(t) => Ok(t),
            None => Err(GameplayTagError::CapacityExceeded { max: MAX_TAG_COUNTS }),
        }
    }

    /// Returns the cached bitset containing `tag` and all its parents.
    ///
    /// Returns [`GameplayTagError::InvalidTagIndex`] if `tag` is not registered in this manager.
    pub fn get_inherited_bits(&self, tag: &GameplayTag) -> (result: Result<
        &GameplayTagBits,
        GameplayTagError,
    >)
        requires
            self.wf(),
        ensures
            self.is_registered(*tag) <==> result is Ok,
            result matches Ok(bits) ==> *bits == self.inherited()[tag.index()],
            result matches Err(e) ==> e == (GameplayTagError::InvalidTagIndex {
                index: tag.index() as usize,
            }),
    {
        let index = tag.get_bit_index_usize();
        if index < self.tag_inherited_bits.len() {
            Ok(&self.tag_inherited_bits[index])
        } else {
            Err(GameplayTagError::InvalidTagIndex { index })
        }
    }

    /// A registered tag's inherited bitset holds exactly the tag and its ancestors.
    pub proof fn lemma_inherited_are_ancestors(self, t: int, i: int)
        requires
            self.wf(),
            0 <= t < self.tag_count(),
        ensures
            self.inherits(t, i) <==> (i == t || is_descendant(self.parents(), t, i)),
        decreases t,
    {
        if let Some(p) = self.tag_parent_index@[t] {
            self.lemma_inherited_are_ancestors(p as int, i);
        }
    }

    /// Every registered tag inherits its own bit.
    pub proof fn lemma_inherits_self(self, t: int)
        requires
            self.wf(),
            0 <= t < self.tag_count(),
        ensures
            self.inherits(t, t),
    {
        assert(bits_contain(self.tag_inherited_bits@[t], t));
    }

    /// The inherited bitsets are exactly as many as the registered tags.
    pub proof fn lemma_inherited_len(self)
        requires
            self.wf(),
        ensures
            self.inherited().len() == self.tag_count(),
            self.tag_count() <= MAX_TAG_COUNTS,
    {
    }

    /// A descendant has a strictly larger index than its ancestor.
    pub proof fn lemma_descendant_after(self, d: int, a: int)
        requires
            self.wf(),
            is_descendant(self.parents(), d, a),
        ensures
            0 <= a < d < self.tag_count(),
        decreases d,
    {
        if let Some(p) = self.tag_parent_index@[d] {
            if p as int != a {
                self.lemma_descendant_after(p as int, a);
            }
        }
    }

    /// A descendant of `a` is a child of `a` or a descendant of one of its children.
    proof fn lemma_descendant_through_child(self, d: int, a: int)
        requires
            self.wf(),
            is_descendant(self.parents(), d, a),
        ensures
            self.tag_parent_index@[d] == Some(a as u16) || exists|c: u16| #[trigger] self.children_of(
                a,
            ).contains(c) && is_descendant(self.parents(), d, c as int),
        decreases d,
    {
        self.lemma_descendant_after(d, a);
        let p = self.tag_parent_index@[d].unwrap();
        if p as int != a {
            self.lemma_descendant_through_child(p as int, a);
            if self.tag_parent_index@[p as int] == Some(a as u16) {
                assert(self.children_of(a).contains(p));
            } else {
                let c = choose|c: u16| #[trigger] self.children_of(a).contains(c) && is_descendant(
                    self.parents(),
                    p as int,
                    c as int,
                );
                assert(is_descendant(self.parents(), d, c as int));
            }
        }
    }

    /// Returns whether any registered descendant of tag `tag_index` has a nonzero reference count.
    #[verifier::rlimit(60)]
    pub fn check_has_active_descendants(&self, tag_index: usize, ref_counts: &[u16]) -> (r: bool)
        requires
            self.wf(),
        ensures
            r == exists|d: int|
                #![trigger is_descendant(self.parents(), d, tag_index as int)]
                is_descendant(self.parents(), d, tag_index as int) && d < ref_counts@.len()
                    && ref_counts@[d] > 0,
    {
        let ghost a = tag_index as int;
        let ghost parents = self.parents();
        if tag_index >= self.tag_children.len() {
            proof {
                assert forall|d: int| !is_descendant(parents, d, a) by {
                    if is_descendant(parents, d, a) {
                        self.lemma_descendant_after(d, a);
                    }
                }
            }
            return false;
        }
        let mut stack: Vec<u16> = self.tag_children[tag_index].clone();
        let ghost mut popped: Set<int> = Set::empty();
        proof {
            assert forall|v: int| #[trigger] stack@.contains(v as u16) && 0 <= v <= u16::MAX implies is_descendant(parents, v, a) by {
                assert(self.children_of(a).contains(v as u16));
            }
            assert forall|d: int| #[trigger] is_descendant(parents, d, a) implies (popped.contains(d)
                || stack@.contains(d as u16) || exists|s: u16| #[trigger] stack@.contains(s) && is_descendant(
                parents,
                d,
                s as int,
            )) by {
                self.lemma_descendant_after(d, a);
                self.lemma_descendant_through_child(d, a);
                if self.tag_parent_index@[d] == Some(a as u16) {
                    assert(self.children_of(a).contains(d as u16));
                }
            }
        }
        let n = self.tag_children.len();
        loop
            invariant
                self.wf(),
                n == self.tag_count(),
                parents == self.parents(),
                a == tag_index,
                0 <= a < n,
                stack@.no_duplicates(),
                forall|v: u16| #[trigger] stack@.contains(v) ==> is_descendant(parents, v as int, a) && !popped.contains(v as int),
                forall|v: int| #[trigger] popped.contains(v) ==> is_descendant(parents, v, a) && !(v < ref_counts@.len() && ref_counts@[v] > 0),
                forall|v: int| #[trigger] popped.contains(v) ==> 0 <= v < n,
                popped.finite(),
                forall|v: int| #[trigger] popped.contains(v) ==> parents[v] == Some(a as u16) || popped.contains(parents[v].unwrap() as int),
                forall|v: u16| #[trigger] stack@.contains(v) ==> parents[v as int] == Some(a as u16) || popped.contains(parents[v as int].unwrap() as int),
                forall|d: int| #[trigger] is_descendant(parents, d, a) ==> (popped.contains(d)
                    || stack@.contains(d as u16) || exists|s: u16| #[trigger] stack@.contains(s) && is_descendant(
                    parents,
                    d,
                    s as int,
                )),
            decreases n - popped.len(),
        {
            let ghost old_stack = stack@;
            let ghost old_popped = popped;
            match stack.pop() {
                None => {
                    proof {
                        assert forall|d: int| #![trigger is_descendant(parents, d, a)] is_descendant(parents, d, a) implies !(d < ref_counts@.len() && ref_counts@[d] > 0) by {
                            if !popped.contains(d) {
                                if stack@.contains(d as u16) {
                                } else {
                                    let s = choose|s: u16| #[trigger] stack@.contains(s) && is_descendant(parents, d, s as int);
                                }
                            }
                        }
                    }
                    return false;
                },
                Some(current) => {
                    let index = current as usize;
                    assert(old_stack.contains(current)) by {
                        assert(old_stack[old_stack.len() - 1] == current);
                    }
                    proof {
                        self.lemma_descendant_after(index as int, a);
                    }
                    if index < ref_counts.len() && ref_counts[index] > 0 {
                        return true;
                    }
                    proof {
                        popped = popped.insert(index as int);
                        vstd::set_lib::lemma_int_range(0, n as int);
                        assert(old_popped.subset_of(vstd::set_lib::set_int_range(0, n as int)));
                        vstd::set_lib::lemma_len_subset(old_popped.insert(index as int), vstd::set_lib::set_int_range(0, n as int));
                        assert(old_stack =~= stack@.push(current));
                        assert forall|v: u16| #[trigger] stack@.contains(v) implies old_stack.contains(v) && v != current by {
                            let j = choose|j: int| 0 <= j < stack@.len() && stack@[j] == v;
                            assert(old_stack[j] == v);
                        }
                    }
                    let children = &self.tag_children[index];
                    let mut k: usize = 0;
                    while k < children.len()
                        invariant
                            self.wf(),
                            n == self.tag_count(),
                            parents == self.parents(),
                            a == tag_index,
                            0 <= a < n,
                            0 <= index < n,
                            is_descendant(parents, index as int, a),
                            children@ == self.children_of(index as int),
                            0 <= k <= children@.len(),
                            popped == old_popped.insert(index as int),
                            !old_popped.contains(index as int),
                            stack@.no_duplicates(),
                            stack@ == old_stack.drop_last() + children@.take(k as int),
                            forall|v: u16| #[trigger] old_stack.contains(v) ==> is_descendant(parents, v as int, a) && !old_popped.contains(v as int),
                            old_stack.no_duplicates(),
                            old_stack[old_stack.len() - 1] == current,
                            old_stack.len() >= 1,
                            forall|v: u16| #[trigger] old_stack.contains(v) ==> parents[v as int] == Some(a as u16) || old_popped.contains(parents[v as int].unwrap() as int),
                            forall|v: int| #[trigger] old_popped.contains(v) ==> parents[v] == Some(a as u16) || old_popped.contains(parents[v].unwrap() as int),
                        decreases children@.len() - k,
                    {
                        let child = children[k];
                        proof {
                            let prefix = old_stack.drop_last();
                            assert(self.children_of(index as int).contains(child));
                            assert(parents[child as int] == Some(index as u16));
                            // the child is in neither the stack nor the popped set
                            assert(!old_stack.contains(child)) by {
                                if old_stack.contains(child) {
                                    assert(parents[child as int] == Some(a as u16) || old_popped.contains(index as int));
                                    self.lemma_descendant_after(index as int, a);
                                }
                            }
                            assert forall|j: int| 0 <= j < k implies children@[j] != child by {
                                assert(children@[j] < children@[k as int]);
                            }
                            assert(!stack@.contains(child)) by {
                                if stack@.contains(child) {
                                    let j = choose|j: int| 0 <= j < stack@.len() && stack@[j] == child;
                                    if j < prefix.len() {
                                        assert(old_stack[j] == child);
                                    } else {
                                        assert(children@[j - prefix.len()] == child);
                                    }
                                }
                            }
                        }
                        stack.push(child);
                        proof {
                            assert(children@.take(k + 1) == children@.take(k as int).push(child));
                        }
                        k = k + 1;
                    }
                    proof {
                        let prefix = old_stack.drop_last();
                        assert(children@.take(children@.len() as int) == children@);
                        assert(stack@ == prefix + children@);
                        assert forall|v: u16| #[trigger] stack@.contains(v) implies is_descendant(parents, v as int, a) && !popped.contains(v as int) && (parents[v as int] == Some(a as u16) || popped.contains(parents[v as int].unwrap() as int)) by {
                            let j = choose|j: int| 0 <= j < stack@.len() && stack@[j] == v;
                            if j < prefix.len() {
                                assert(old_stack[j] == v);
                                assert(old_stack.contains(v));
                                assert(v != current) by {
                                    assert(old_stack[old_stack.len() - 1] == current);
                                }
                            } else {
                                assert(children@[j - prefix.len()] == v);
                                assert(self.children_of(index as int).contains(v));
                                assert(parents[v as int] == Some(index as u16));
                                self.lemma_descendant_after(v as int, index as int);
                                if popped.contains(v as int) {
                                    assert(old_popped.contains(v as int));
                                    assert(old_popped.contains(index as int) || parents[v as int] == Some(a as u16));
                                    self.lemma_descendant_after(index as int, a);
                                }
                            }
                        }
                        assert forall|v: int| #[trigger] popped.contains(v) implies parents[v] == Some(a as u16) || popped.contains(parents[v].unwrap() as int) by {
                            if v == index as int {
                                assert(old_stack.contains(current));
                            }
                        }
                        assert forall|d: int| #[trigger] is_descendant(parents, d, a) implies (popped.contains(d)
                            || stack@.contains(d as u16) || exists|s: u16| #[trigger] stack@.contains(s) && is_descendant(
                            parents,
                            d,
                            s as int,
                        )) by {
                            self.lemma_descendant_after(d, a);
                            if d == index as int {
                                assert(popped.contains(d));
                            } else if old_popped.contains(d) {
                                assert(popped.contains(d));
                            } else {
                                if old_stack.contains(d as u16) {
                                    let j = choose|j: int| 0 <= j < old_stack.len() && old_stack[j] == d as u16;
                                    assert(j != old_stack.len() - 1);
                                    assert(stack@[j] == d as u16);
                                    assert(stack@.contains(d as u16));
                                } else {
                                    let s = choose|s: u16| #[trigger] old_stack.contains(s) && is_descendant(parents, d, s as int);
                                    if s == current {
                                        self.lemma_descendant_through_child(d, index as int);
                                        if parents[d] == Some(index as u16) {
                                            self.lemma_descendant_after(d, a);
                                            assert(self.children_of(index as int).contains(d as u16));
                                            let j = choose|j: int| 0 <= j < children@.len() && children@[j] == d as u16;
                                            assert(stack@[prefix.len() + j] == d as u16);
                                            assert(stack@.contains(d as u16));
                                        } else {
                                            let c = choose|c: u16| #[trigger] self.children_of(index as int).contains(c) && is_descendant(parents, d, c as int);
                                            let j = choose|j: int| 0 <= j < children@.len() && children@[j] == c;
                                            assert(stack@[prefix.len() + j] == c);
                                            assert(stack@.contains(c));
                                        }
                                    } else {
                                        let j = choose|j: int| 0 <= j < old_stack.len() && old_stack[j] == s;
                                        assert(j != old_stack.len() - 1);
                                        assert(stack@[j] == s);
                                        assert(stack@.contains(s));
                                    }
                                }
                            }
                        }
                    }
                },
            }
        }
    }
}

/// Builds a bitset containing the supplied tags and all their parent tags.
///
/// Returns [`GameplayTagError::InvalidTagIndex`] for the first tag that is not registered in
/// `manager`.
pub fn tag_bits_from_tags_with_manager(tags: &[GameplayTag], manager: &GameplayTagManager) -> (result: Result<
    GameplayTagBits,
    GameplayTagError,
>)
    requires
        manager.wf(),
    ensures
        (forall|k: int| 0 <= k < tags@.len() ==> manager.is_registered(#[trigger] tags@[k])) <==> result is Ok,
        result matches Ok(bits) ==> forall|i: int| #[trigger] bits_contain(bits, i) <==> exists|k: int|
            0 <= k < tags@.len() && manager.inherits(tags@[k].index(), i),
        result matches Err(e) ==> exists|k: int|
            0 <= k < tags@.len() && !manager.is_registered(tags@[k]) && (forall|j: int|
                0 <= j < k ==> manager.is_registered(#[trigger] tags@[j])) && e
                == (GameplayTagError::InvalidTagIndex { index: tags@[k].index() as usize }),
{
    let mut result: GameplayTagBits = [0u64; MAX_TAG_BLOCKS];
    proof {
        lemma_empty_bits(result);
    }
    let mut k: usize = 0;
    while k < tags.len()
        invariant
            manager.wf(),
            0 <= k <= tags@.len(),
            forall|j: int| 0 <= j < k ==> manager.is_registered(#[trigger] tags@[j]),
            forall|i: int| #[trigger] bits_contain(result, i) <==> exists|j: int|
                0 <= j < k && manager.inherits(tags@[j].index(), i),
        decreases tags@.len() - k,
    {
        let inherited_bits = match manager.get_inherited_bits(&tags[k]) {
            Ok(bits) => bits,
            Err(e) => {
                return Err(e);
            },
        };
        let ghost before = result;
        result = bits_union(&result, inherited_bits);
        proof {
            assert forall|i: int| #[trigger] bits_contain(result, i) <==> exists|j: int|
                0 <= j < k + 1 && manager.inherits(tags@[j].index(), i) by {
                if bits_contain(before, i) {
                    let j = choose|j: int| 0 <= j < k && manager.inherits(tags@[j].index(), i);
                }
                if bits_contain(*inherited_bits, i) {
                    assert(manager.inherits(tags@[k as int].index(), i));
                }
                if exists|j: int| 0 <= j < k + 1 && manager.inherits(tags@[j].index(), i) {
                    let j = choose|j: int| 0 <= j < k + 1 && manager.inherits(tags@[j].index(), i);
                    if j < k {
                        assert(bits_contain(before, i));
                    }
                }
            }
        }
        k = k + 1;
    }
    Ok(result)
}

} // verus!
