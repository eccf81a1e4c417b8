use super::bitset::{
    bits_contain_all, bits_contain_any, bits_intersect, bits_subset, lemma_empty_bits, tag_bits_of,
    tags_in_range,
};
use super::{
    bits_contain, tag_bits_from_tags, tag_bits_from_tags_with_manager, GameplayTag,
    GameplayTagBits, GameplayTagContainer, GameplayTagError, GameplayTagManager, MAX_TAG_BLOCKS,
    MAX_TAG_COUNTS,
};
use vstd::prelude::*;

verus! {

/// Whether some entry of `tags` inherits index `i` in `manager`.
pub open spec fn inherited_by(manager: GameplayTagManager, tags: Seq<GameplayTag>, i: int) -> bool {
    exists|k: int| 0 <= k < tags.len() && manager.inherits(tags[k].index(), i)
}

/// Required and blocked gameplay tags with precomputed matching bitsets.
pub struct TagRequirements {
    require_all: Vec<GameplayTag>,
    ignore_any: Vec<GameplayTag>,
    require_all_bits: GameplayTagBits,
    ignore_any_bits: GameplayTagBits,
}

impl TagRequirements {
    #[verifier::type_invariant]
    spec fn bits_match_tags(self) -> bool {
        &&& tags_in_range(self.require_all@)
        &&& tags_in_range(self.ignore_any@)
        &&& tag_bits_of(self.require_all_bits, self.require_all@)
        &&& tag_bits_of(self.ignore_any_bits, self.ignore_any@)
    }

    /// The tags that must all be present.
    pub closed spec fn required_tags(self) -> Seq<GameplayTag> {
        self.require_all@
    }

    /// The tags of which none may be present.
    pub closed spec fn ignored_tags(self) -> Seq<GameplayTag> {
        self.ignore_any@
    }

    /// Whether no required or ignored tags are configured.
    pub open spec fn has_no_rules(self) -> bool {
        self.required_tags().len() == 0 && self.ignored_tags().len() == 0
    }

    /// Whether a set of present indices, given as a predicate, passes these requirements.
    pub open spec fn accepts(self, present: spec_fn(int) -> bool) -> bool {
        ||| self.has_no_rules()
        ||| {
            &&& forall|k: int| 0 <= k < self.required_tags().len() ==> present(#[trigger] self.required_tags()[k].index())
            &&& forall|k: int| 0 <= k < self.ignored_tags().len() ==> !present(#[trigger] self.ignored_tags()[k].index())
        }
    }

    /// Whether an optional container passes: without rules always, with rules only a present
    /// container whose tags are accepted.
    pub open spec fn admits(self, tags: Option<&GameplayTagContainer>) -> bool {
        self.has_no_rules() || (tags is Some && self.accepts(|i: int| tags->0.has(i)))
    }

    /// Creates and precomputes a set of required and ignored tags.
    ///
    /// Returns [`GameplayTagError::InvalidTagIndex`] for the first required tag, or else the first
    /// ignored tag, whose index exceeds the configured capacity.
    pub fn new(require_all: Vec<GameplayTag>, ignore_any: Vec<GameplayTag>) -> (result: Result<
        Self,
        GameplayTagError,
    >)
        ensures
            result is Ok <==> (tags_in_range(require_all@) && tags_in_range(ignore_any@)),
            result matches Ok(r) ==> r.required_tags() == require_all@ && r.ignored_tags() == ignore_any@,
            result is Err && !tags_in_range(require_all@) ==> exists|k: int|
                0 <= k < require_all@.len() && require_all@[k].index() >= MAX_TAG_COUNTS && tags_in_range(require_all@.take(k))
                    && result == Err::<Self, GameplayTagError>(GameplayTagError::InvalidTagIndex { index: require_all@[k].index() as usize }),
            result is Err && tags_in_range(require_all@) ==> exists|k: int|
                0 <= k < ignore_any@.len() && ignore_any@[k].index() >= MAX_TAG_COUNTS && tags_in_range(ignore_any@.take(k))
                    && result == Err::<Self, GameplayTagError>(GameplayTagError::InvalidTagIndex { index: ignore_any@[k].index() as usize }),
    {
        let require_all_bits = match tag_bits_from_tags(require_all.as_slice()) {
            Ok(bits) => bits,
            Err(e) => {
                return Err(e);
            },
        };
        let ignore_any_bits = match tag_bits_from_tags(ignore_any.as_slice()) {
            Ok(bits) => bits,
            Err(e) => {
                return Err(e);
            },
        };
        Ok(TagRequirements { require_all, ignore_any, require_all_bits, ignore_any_bits })
    }

    /// Returns whether no required or ignored tags are configured.
    pub fn is_empty(&self) -> (r: bool)
        ensures
            r == self.has_no_rules(),
    {
        self.require_all.len() == 0 && self.ignore_any.len() == 0
    }

    proof fn lemma_bits_accept(self, bits: GameplayTagBits)
        requires
            self.bits_match_tags(),
        ensures
            bits_subset(bits, self.require_all_bits) == (forall|k: int|
                0 <= k < self.required_tags().len() ==> bits_contain(bits, #[trigger] self.required_tags()[k].index())),
            bits_intersect(bits, self.ignore_any_bits) == (exists|k: int|
                0 <= k < self.ignored_tags().len() && bits_contain(bits, #[trigger] self.ignored_tags()[k].index())),
    {
        if forall|k: int| 0 <= k < self.required_tags().len() ==> bits_contain(bits, #[trigger] self.required_tags()[k].index()) {
            assert forall|i: int| #[trigger] bits_contain(self.require_all_bits, i) implies bits_contain(bits, i) by {
                let k = choose|k: int| 0 <= k < self.require_all@.len() && self.require_all@[k].index() == i;
                assert(bits_contain(bits, self.required_tags()[k].index()));
            }
        }
        if bits_subset(bits, self.require_all_bits) {
            assert forall|k: int| 0 <= k < self.required_tags().len() implies bits_contain(bits, #[trigger] self.required_tags()[k].index()) by {
                assert(bits_contain(self.require_all_bits, self.require_all@[k].index()));
            }
        }
        if bits_intersect(bits, self.ignore_any_bits) {
            let i = choose|i: int| #[trigger] bits_contain(bits, i) && bits_contain(self.ignore_any_bits, i);
            let k = choose|k: int| 0 <= k < self.ignore_any@.len() && self.ignore_any@[k].index() == i;
            assert(bits_contain(bits, self.ignored_tags()[k].index()));
        }
        if exists|k: int| 0 <= k < self.ignored_tags().len() && bits_contain(bits, #[trigger] self.ignored_tags()[k].index()) {
            let k = choose|k: int| 0 <= k < self.ignored_tags().len() && bits_contain(bits, #[trigger] self.ignored_tags()[k].index());
            assert(bits_contain(self.ignore_any_bits, self.ignore_any@[k].index()));
        }
    }

    /// Tests a gameplay-tag container against these requirements.
    ///
    /// Without rules every container, and no container at all, passes; with rules a missing
    /// container fails.
    pub fn passes(&self, tags: Option<&GameplayTagContainer>) -> (r: bool)
        ensures
            r == self.admits(tags),
    {
        proof {
            use_type_invariant(self);
        }
        if self.is_empty() {
            return true;
        }
        match tags {
            None => false,
            Some(tags) => {
                let r = tags.has_all_bits(&self.require_all_bits) && !tags.has_any_bits(&self.ignore_any_bits);
                proof {
                    self.lemma_bits_accept(tags.tag_bits());
                    let present = |i: int| tags.has(i);
                    assert(r == self.accepts(present));
                }
                r
            },
        }
    }

    /// Tests a tag slice after expanding inherited tags.
    ///
    /// Returns [`GameplayTagError::InvalidTagIndex`] for the first tag that is not registered in
    /// `tag_manager`, unless there are no rules to test.
    pub fn passes_tag_slice(&self, tags: &[GameplayTag], tag_manager: &GameplayTagManager) -> (result: Result<
        bool,
        GameplayTagError,
    >)
        requires
            tag_manager.wf(),
        ensures
            self.has_no_rules() ==> result == Ok::<bool, GameplayTagError>(true),
            !self.has_no_rules() ==> (result is Ok <==> forall|k: int| 0 <= k < tags@.len() ==> tag_manager.is_registered(#[trigger] tags@[k])),
            result matches Ok(b) ==> b == self.accepts(|i: int| inherited_by(*tag_manager, tags@, i)),
            result matches Err(e) ==> exists|k: int|
                0 <= k < tags@.len() && !tag_manager.is_registered(tags@[k]) && (forall|j: int|
                    0 <= j < k ==> tag_manager.is_registered(#[trigger] tags@[j])) && e
                    == (GameplayTagError::InvalidTagIndex { index: tags@[k].index() as usize }),
    {
        if self.is_empty() {
            return Ok(true);
        }
        let tag_bits = match tag_bits_from_tags_with_manager(tags, tag_manager) {
            Ok(bits) => bits,
            Err(e) => {
                return Err(e);
            },
        };
        let r = self.passes_tag_bits(&tag_bits);
        proof {
            let a = |i: int| bits_contain(tag_bits, i);
            let b = |i: int| inherited_by(*tag_manager, tags@, i);
            assert(a =~= b);
        }
        Ok(r)
    }

    /// Tests a precomputed tag bitset against these requirements.
    pub fn passes_tag_bits(&self, tag_bits: &GameplayTagBits) -> (r: bool)
        ensures
            r == self.accepts(|i: int| bits_contain(*tag_bits, i)),
    {
        proof {
            use_type_invariant(self);
        }
        if self.is_empty() {
            return true;
        }
        let has_required = bits_contain_all(tag_bits, &self.require_all_bits);
        let has_blocked = bits_contain_any(tag_bits, &self.ignore_any_bits);
        proof {
            self.lemma_bits_accept(*tag_bits);
        }
        has_required && !has_blocked
    }

    /// Returns the tags that must all be present.
    pub fn get_required_tags(&self) -> (tags: &[GameplayTag])
        ensures
            tags@ == self.required_tags(),
    {
        self.require_all.as_slice()
    }

    /// Returns the tags of which none may be present.
    pub fn get_ignored_tags(&self) -> (tags: &[GameplayTag])
        ensures
            tags@ == self.ignored_tags(),
    {
        self.ignore_any.as_slice()
    }
}

fn copy_tags(tags: &[GameplayTag]) -> (copy: Vec<GameplayTag>)
    ensures
        copy@ == tags@,
{
    let mut copy: Vec<GameplayTag> = Vec::new();
    let mut k: usize = 0;
    while k < tags.len()
        invariant
            0 <= k <= tags@.len(),
            copy@ == tags@.take(k as int),
        decreases tags@.len() - k,
    {
        copy.push(tags[k]);
        proof {
            assert(tags@.take(k + 1) == tags@.take(k as int).push(tags@[k as int]));
        }
        k = k + 1;
    }
    assert(tags@.take(tags@.len() as int) == tags@);
    copy
}

impl Clone for TagRequirements {
    /// Copies the requirements.
    fn clone(&self) -> (copy: Self)
        ensures
            copy.required_tags() == self.required_tags(),
            copy.ignored_tags() == self.ignored_tags(),
    {
        proof {
            use_type_invariant(self);
        }
        TagRequirements {
            require_all: copy_tags(self.require_all.as_slice()),
            ignore_any: copy_tags(self.ignore_any.as_slice()),
            require_all_bits: self.require_all_bits,
            ignore_any_bits: self.ignore_any_bits,
        }
    }
}

impl Default for TagRequirements {
    /// Creates requirements without required or ignored tags.
    fn default() -> (requirements: Self)
        ensures
            requirements.has_no_rules(),
    {
        let require_all_bits: GameplayTagBits = [0u64; MAX_TAG_BLOCKS];
        let ignore_any_bits: GameplayTagBits = [0u64; MAX_TAG_BLOCKS];
        proof {
            lemma_empty_bits(require_all_bits);
            lemma_empty_bits(ignore_any_bits);
        }
        TagRequirements { require_all: Vec::new(), ignore_any: Vec::new(), require_all_bits, ignore_any_bits }
    }
}

} // verus!
