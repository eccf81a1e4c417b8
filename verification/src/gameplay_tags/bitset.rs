use super::{GameplayTag, GameplayTagError};
use crate::settings::GameplayAbilitySystemSettings;
use vstd::prelude::*;

verus! {

/// Maximum number of gameplay tags that can be registered.
pub const MAX_TAG_COUNTS: usize = GameplayAbilitySystemSettings::GAMEPLAY_TAG_SIZE;

/// Exponent used to divide a tag index by the 64-bit block size.
pub const BLOCK_SIZE_EXPONENT: usize = 6;

/// Number of gameplay-tag bits stored in one block.
pub const TAG_BITS_PER_BLOCK: usize = 64;

/// Number of blocks needed for the configured tag capacity.
pub const MAX_TAG_BLOCKS: usize = (MAX_TAG_COUNTS + TAG_BITS_PER_BLOCK - 1) / TAG_BITS_PER_BLOCK;

/// Fixed-size bitset used for fast gameplay-tag matching.
pub type GameplayTagBits = [u64; MAX_TAG_BLOCKS];

/// Whether bit `bit` of `word` is set.
pub open spec fn word_has_bit(word: u64, bit: u64) -> bool {
    (word >> bit) & 1u64 == 1u64
}

/// Whether `bits` contains the tag whose bit index is `index`.
pub open spec fn bits_contain(bits: GameplayTagBits, index: int) -> bool {
    &&& 0 <= index < MAX_TAG_COUNTS
    &&& word_has_bit(bits@[index / 64], (index % 64) as u64)
}

/// Whether `bits` contains exactly the bit indices of `tags`.
pub open spec fn tag_bits_of(bits: GameplayTagBits, tags: Seq<GameplayTag>) -> bool {
    forall|i: int|
        #![trigger bits_contain(bits, i)]
        bits_contain(bits, i) <==> exists|k: int| 0 <= k < tags.len() && tags[k].index() == i
}

/// Whether every tag of `tags` lies inside the configured capacity.
pub open spec fn tags_in_range(tags: Seq<GameplayTag>) -> bool {
    forall|k: int| 0 <= k < tags.len() ==> #[trigger] tags[k].index() < MAX_TAG_COUNTS
}

/// Whether every index in `required` is also in `owned`.
pub open spec fn bits_subset(owned: GameplayTagBits, required: GameplayTagBits) -> bool {
    forall|i: int| #[trigger] bits_contain(required, i) ==> bits_contain(owned, i)
}

/// Whether `owned` and `candidates` share an index.
pub open spec fn bits_intersect(owned: GameplayTagBits, candidates: GameplayTagBits) -> bool {
    exists|i: int| #[trigger] bits_contain(owned, i) && bits_contain(candidates, i)
}

/// The empty bitset contains no index.
pub proof fn lemma_empty_bits(bits: GameplayTagBits)
    requires
        forall|k: int| 0 <= k < MAX_TAG_BLOCKS ==> bits@[k] == 0u64,
    ensures
        forall|i: int| !#[trigger] bits_contain(bits, i),
{
    assert forall|i: int| !#[trigger] bits_contain(bits, i) by {
        if 0 <= i < MAX_TAG_COUNTS {
            let c = (i % 64) as u64;
            assert(bits@[i / 64] == 0u64);
            assert((0u64 >> c) & 1u64 != 1u64) by (bit_vector);
        }
    }
}

/// Setting one bit of a word adds exactly that bit.
pub proof fn lemma_or_single_bit(word: u64, b: u64, c: u64)
    requires
        b < 64,
        c < 64,
    ensures
        word_has_bit(word | (1u64 << b), c) == (word_has_bit(word, c) || b == c),
{
    assert((((word | (1u64 << b)) >> c) & 1u64 == 1u64) == ((((word >> c) & 1u64) == 1u64) || b
        == c)) by (bit_vector)
        requires
            b < 64,
            c < 64,
    ;
}

/// The bits of a union are the union of the bits.
pub proof fn lemma_or_words(a: u64, b: u64, c: u64)
    requires
        c < 64,
    ensures
        word_has_bit(a | b, c) == (word_has_bit(a, c) || word_has_bit(b, c)),
{
    assert((((a | b) >> c) & 1u64 == 1u64) == (((a >> c) & 1u64 == 1u64) || ((b >> c) & 1u64
        == 1u64))) by (bit_vector)
        requires
            c < 64,
    ;
}

/// Clearing a mask keeps exactly the bits outside the mask.
pub proof fn lemma_and_not_words(a: u64, m: u64, c: u64)
    requires
        c < 64,
    ensures
        word_has_bit(a & !m, c) == (word_has_bit(a, c) && !word_has_bit(m, c)),
{
    assert((((a & !m) >> c) & 1u64 == 1u64) == (((a >> c) & 1u64 == 1u64) && !((m >> c) & 1u64
        == 1u64))) by (bit_vector)
        requires
            c < 64,
    ;
}

/// A nonzero word has a set bit.
pub proof fn lemma_nonzero_has_bit(x: u64) -> (c: u64)
    requires
        x != 0,
    ensures
        c < 64,
        word_has_bit(x, c),
    decreases x,
{
    if x & 1u64 == 1u64 {
        assert((x >> 0u64) & 1u64 == 1u64) by (bit_vector)
            requires
                x & 1u64 == 1u64,
        ;
        0
    } else {
        let y: u64 = x >> 1u64;
        assert(y != 0 && y < x && y < 0x8000_0000_0000_0000u64) by (bit_vector)
            requires
                x != 0,
                x & 1u64 != 1u64,
                y == x >> 1u64,
        ;
        let c = lemma_nonzero_has_bit(y);
        assert(c < 63) by (bit_vector)
            requires
                y < 0x8000_0000_0000_0000u64,
                (y >> c) & 1u64 == 1u64,
                c < 64,
        ;
        let d: u64 = (c + 1) as u64;
        assert((x >> d) & 1u64 == 1u64) by (bit_vector)
            requires
                y == x >> 1u64,
                (y >> c) & 1u64 == 1u64,
                c < 63,
                d == c + 1,
        ;
        d
    }
}

/// A word contains another exactly when their intersection equals the contained word.
pub proof fn lemma_and_eq_iff_subset(a: u64, b: u64)
    ensures
        (a & b == b) <==> (forall|c: u64| c < 64 && #[trigger] word_has_bit(b, c) ==> word_has_bit(a, c)),
{
    if a & b == b {
        assert forall|c: u64| c < 64 && #[trigger] word_has_bit(b, c) implies word_has_bit(a, c) by {
            assert((a & b == b && c < 64 && (b >> c) & 1u64 == 1u64) ==> (a >> c) & 1u64 == 1u64)
                by (bit_vector);
        }
    } else {
        let x: u64 = b & !a;
        assert(x != 0) by (bit_vector)
            requires
                a & b != b,
                x == b & !a,
        ;
        let c = lemma_nonzero_has_bit(x);
        assert((b >> c) & 1u64 == 1u64 && (a >> c) & 1u64 != 1u64) by (bit_vector)
            requires
                x == b & !a,
                (x >> c) & 1u64 == 1u64,
                c < 64,
        ;
        assert(word_has_bit(b, c) && !word_has_bit(a, c));
    }
}

/// Two words intersect exactly when they share a set bit.
pub proof fn lemma_and_nonzero_iff(a: u64, b: u64)
    ensures
        (a & b != 0) <==> (exists|c: u64|
            c < 64 && #[trigger] word_has_bit(a, c) && #[trigger] word_has_bit(b, c)),
{
    if a & b != 0 {
        let x: u64 = a & b;
        let c = lemma_nonzero_has_bit(x);
        assert((a >> c) & 1u64 == 1u64 && (b >> c) & 1u64 == 1u64) by (bit_vector)
            requires
                x == a & b,
                (x >> c) & 1u64 == 1u64,
                c < 64,
        ;
        assert(word_has_bit(a, c) && word_has_bit(b, c));
    } else {
        assert forall|c: u64| c < 64 implies !(#[trigger] word_has_bit(a, c) && #[trigger] word_has_bit(b, c)) by {
            assert((a & b == 0 && c < 64) ==> !((a >> c) & 1u64 == 1u64 && (b >> c) & 1u64 == 1u64))
                by (bit_vector);
        }
    }
}

/// Words with the same bits are equal.
pub proof fn lemma_word_ext(x: u64, y: u64)
    requires
        forall|c: u64| c < 64 ==> #[trigger] word_has_bit(x, c) == word_has_bit(y, c),
    ensures
        x == y,
{
    if x != y {
        let z: u64 = x ^ y;
        assert(z != 0) by (bit_vector)
            requires
                x != y,
                z == x ^ y,
        ;
        let c = lemma_nonzero_has_bit(z);
        assert(((x >> c) & 1u64 == 1u64) != ((y >> c) & 1u64 == 1u64)) by (bit_vector)
            requires
                z == x ^ y,
                (z >> c) & 1u64 == 1u64,
                c < 64,
        ;
        assert(word_has_bit(x, c) != word_has_bit(y, c));
    }
}

/// Bitsets holding the same indices are equal.
pub proof fn lemma_bits_ext(a: GameplayTagBits, b: GameplayTagBits)
    requires
        forall|i: int| #[trigger] bits_contain(a, i) == bits_contain(b, i),
    ensures
        a == b,
{
    assert forall|k: int| 0 <= k < MAX_TAG_BLOCKS implies a@[k] == b@[k] by {
        assert forall|c: u64| c < 64 implies #[trigger] word_has_bit(a@[k], c) == word_has_bit(b@[k], c) by {
            lemma_bits_contain_at(a, k, c);
            lemma_bits_contain_at(b, k, c);
            assert(bits_contain(a, k * 64 + c) == bits_contain(b, k * 64 + c));
        }
        lemma_word_ext(a@[k], b@[k]);
    }
    assert(a@ =~= b@);
    assert(a =~= b);
}

/// Block and bit position of a tag index.
pub proof fn lemma_index_split(index: usize)
    ensures
        index >> 6usize == index / 64,
        index & 63usize == index % 64,
{
    assert(index >> 6usize == index / 64) by (bit_vector);
    assert(index & 63usize == index % 64) by (bit_vector);
}

/// Computes block `block` of the bitset so that a pair of bit positions match.
pub proof fn lemma_bits_contain_at(bits: GameplayTagBits, block: int, c: u64)
    requires
        0 <= block < MAX_TAG_BLOCKS,
        c < 64,
    ensures
        bits_contain(bits, block * 64 + c) == word_has_bit(bits@[block], c),
{
    let i = block * 64 + c;
    assert(i / 64 == block && i % 64 == c) by (nonlinear_arith)
        requires
            i == block * 64 + c,
            0 <= block,
            c < 64,
    ;
}

/// Builds a bitset containing exactly the supplied tags.
///
/// Returns [`GameplayTagError::InvalidTagIndex`] for the first tag whose index exceeds the
/// configured gameplay-tag capacity.
pub fn tag_bits_from_tags(tags: &[GameplayTag]) -> (result: Result<GameplayTagBits, GameplayTagError>)
    ensures
        tags_in_range(tags@) <==> result is Ok,
        result matches Ok(bits) ==> tag_bits_of(bits, tags@),
        result matches Err(e) ==> exists|k: int|
            0 <= k < tags@.len() && tags@[k].index() >= MAX_TAG_COUNTS && tags_in_range(
                tags@.take(k),
            ) && e == (GameplayTagError::InvalidTagIndex { index: tags@[k].index() as usize }),
{
    let mut result: GameplayTagBits = [0u64; MAX_TAG_BLOCKS];
    proof {
        lemma_empty_bits(result);
    }
    let mut k: usize = 0;
    while k < tags.len()
        invariant
            0 <= k <= tags@.len(),
            tags_in_range(tags@.take(k as int)),
            tag_bits_of(result, tags@.take(k as int)),
        decreases tags@.len() - k,
    {
        let tag = &tags[k];
        let ghost before = result;
        match add_bit_with_tag(&mut result, tag) {
            Ok(()) => {},
            Err(e) => {
                assert(tags@[k as int].index() >= MAX_TAG_COUNTS);
                return Err(e);
            },
        }
        proof {
            let prefix = tags@.take(k as int);
            let next = tags@.take(k + 1);
            assert(next == prefix.push(tags@[k as int]));
            assert forall|i: int| #[trigger] bits_contain(result, i) <==> exists|j: int|
                0 <= j < next.len() && next[j].index() == i by {
                if bits_contain(result, i) {
                    if i == tags@[k as int].index() {
                        assert(next[k as int].index() == i);
                    } else {
                        assert(bits_contain(before, i));
                        let j = choose|j: int| 0 <= j < prefix.len() && prefix[j].index() == i;
                        assert(next[j] == prefix[j]);
                    }
                }
                if exists|j: int| 0 <= j < next.len() && next[j].index() == i {
                    let j = choose|j: int| 0 <= j < next.len() && next[j].index() == i;
                    if j < k {
                        assert(prefix[j] == next[j]);
                        assert(bits_contain(before, i));
                    }
                }
            }
            assert forall|j: int| 0 <= j < next.len() implies #[trigger] next[j].index()
                < MAX_TAG_COUNTS by {
                if j < k {
                    assert(next[j] == prefix[j]);
                }
            }
        }
        k = k + 1;
    }
    assert(tags@.take(tags@.len() as int) == tags@);
    Ok(result)
}

/// Sets the bit corresponding to `tag` in `bits`.
///
/// Returns [`GameplayTagError::InvalidTagIndex`] without changing `bits` if the tag index
/// exceeds the configured gameplay-tag capacity.
pub fn add_bit_with_tag(bits: &mut GameplayTagBits, tag: &GameplayTag) -> (result: Result<
    (),
    GameplayTagError,
>)
    ensures
        tag.index() >= MAX_TAG_COUNTS ==> result == Err::<(), GameplayTagError>(
            GameplayTagError::InvalidTagIndex { index: tag.index() as usize },
        ) && *final(bits) == *old(bits),
        tag.index() < MAX_TAG_COUNTS ==> result is Ok && forall|i: int| #[trigger]
            bits_contain(*final(bits), i) <==> (bits_contain(*old(bits), i) || i == tag.index()),
{
    let tag_bit_index = tag.get_bit_index_usize();
    if tag_bit_index >= MAX_TAG_COUNTS {
        return Err(GameplayTagError::InvalidTagIndex { index: tag_bit_index });
    }
    proof {
        lemma_index_split(tag_bit_index);
    }
    let block = tag_bit_index >> BLOCK_SIZE_EXPONENT;
    let bit = tag_bit_index & (TAG_BITS_PER_BLOCK - 1);
    let ghost before = *bits;
    bits[block] = bits[block] | (1u64 << bit);
    proof {
        assert forall|i: int| #[trigger] bits_contain(*bits, i) <==> (bits_contain(before, i)
            || i == tag.index()) by {
            if 0 <= i < MAX_TAG_COUNTS {
                let c = (i % 64) as u64;
                if i / 64 == block as int {
                    lemma_or_single_bit(before@[block as int], bit as u64, c);
                } else {
                    assert(bits@[i / 64] == before@[i / 64]);
                }
            }
        }
    }
    Ok(())
}

/// Returns whether `bits` contains index `index`.
pub(crate) fn bits_has(bits: &GameplayTagBits, index: usize) -> (r: bool)
    requires
        index < MAX_TAG_COUNTS,
    ensures
        r == bits_contain(*bits, index as int),
{
    proof {
        lemma_index_split(index);
    }
    let block = index >> BLOCK_SIZE_EXPONENT;
    let bit = index & (TAG_BITS_PER_BLOCK - 1);
    (bits[block] >> bit) & 1u64 == 1u64
}

/// Adds index `index` to `bits`.
pub(crate) fn bits_insert(bits: &mut GameplayTagBits, index: usize)
    requires
        index < MAX_TAG_COUNTS,
    ensures
        forall|i: int| #[trigger] bits_contain(*final(bits), i) <==> (bits_contain(*old(bits), i) || i == index),
{
    proof {
        lemma_index_split(index);
    }
    let block = index >> BLOCK_SIZE_EXPONENT;
    let bit = index & (TAG_BITS_PER_BLOCK - 1);
    let ghost before = *bits;
    bits[block] = bits[block] | (1u64 << bit);
    proof {
        assert forall|i: int| #[trigger] bits_contain(*bits, i) <==> (bits_contain(before, i) || i == index) by {
            if 0 <= i < MAX_TAG_COUNTS {
                let c = (i % 64) as u64;
                if i / 64 == block as int {
                    lemma_or_single_bit(before@[block as int], bit as u64, c);
                } else {
                    assert(bits@[i / 64] == before@[i / 64]);
                }
            }
        }
    }
}

/// Returns the indices of `a` that are not in `b`.
pub(crate) fn bits_difference(a: &GameplayTagBits, b: &GameplayTagBits) -> (r: GameplayTagBits)
    ensures
        forall|i: int| #[trigger] bits_contain(r, i) <==> (bits_contain(*a, i) && !bits_contain(*b, i)),
{
    let mut r: GameplayTagBits = [0u64; MAX_TAG_BLOCKS];
    let mut k: usize = 0;
    while k < MAX_TAG_BLOCKS
        invariant
            0 <= k <= MAX_TAG_BLOCKS,
            forall|j: int| 0 <= j < k ==> #[trigger] r@[j] == a@[j] & !b@[j],
        decreases MAX_TAG_BLOCKS - k,
    {
        r[k] = a[k] & !b[k];
        k = k + 1;
    }
    proof {
        assert forall|i: int| #[trigger] bits_contain(r, i) <==> (bits_contain(*a, i) && !bits_contain(*b, i)) by {
            if 0 <= i < MAX_TAG_COUNTS {
                lemma_and_not_words(a@[i / 64], b@[i / 64], (i % 64) as u64);
            }
        }
    }
    r
}

/// Returns whether every index of `required` is present in `owned`.
pub(crate) fn bits_contain_all(owned: &GameplayTagBits, required: &GameplayTagBits) -> (r: bool)
    ensures
        r == bits_subset(*owned, *required),
{
    let mut k: usize = 0;
    while k < MAX_TAG_BLOCKS
        invariant
            0 <= k <= MAX_TAG_BLOCKS,
            forall|j: int| 0 <= j < k ==> (#[trigger] owned@[j] & required@[j]) == required@[j],
        decreases MAX_TAG_BLOCKS - k,
    {
        if (owned[k] & required[k]) != required[k] {
            proof {
                lemma_and_eq_iff_subset(owned@[k as int], required@[k as int]);
                let c = choose|c: u64|
                    c < 64 && #[trigger] word_has_bit(required@[k as int], c) && !word_has_bit(
                        owned@[k as int],
                        c,
                    );
                lemma_bits_contain_at(*required, k as int, c);
                lemma_bits_contain_at(*owned, k as int, c);
                assert(bits_contain(*required, k * 64 + c));
            }
            return false;
        }
        k = k + 1;
    }
    proof {
        assert forall|i: int| #[trigger] bits_contain(*required, i) implies bits_contain(
            *owned,
            i,
        ) by {
            let block = i / 64;
            let c = (i % 64) as u64;
            lemma_and_eq_iff_subset(owned@[block], required@[block]);
            assert(word_has_bit(required@[block], c));
        }
    }
    true
}

/// Returns whether `owned` and `candidates` share an index.
pub(crate) fn bits_contain_any(owned: &GameplayTagBits, candidates: &GameplayTagBits) -> (r: bool)
    ensures
        r == bits_intersect(*owned, *candidates),
{
    let mut k: usize = 0;
    while k < MAX_TAG_BLOCKS
        invariant
            0 <= k <= MAX_TAG_BLOCKS,
            forall|j: int| 0 <= j < k ==> (#[trigger] owned@[j] & candidates@[j]) == 0,
        decreases MAX_TAG_BLOCKS - k,
    {
        if (owned[k] & candidates[k]) != 0 {
            proof {
                lemma_and_nonzero_iff(owned@[k as int], candidates@[k as int]);
                let c = choose|c: u64|
                    c < 64 && #[trigger] word_has_bit(owned@[k as int], c) && #[trigger] word_has_bit(
                        candidates@[k as int],
                        c,
                    );
                lemma_bits_contain_at(*candidates, k as int, c);
                lemma_bits_contain_at(*owned, k as int, c);
                assert(bits_contain(*owned, k * 64 + c));
            }
            return true;
        }
        k = k + 1;
    }
    proof {
        assert forall|i: int| !(#[trigger] bits_contain(*owned, i) && bits_contain(*candidates, i)) by {
            if 0 <= i < MAX_TAG_COUNTS {
                let block = i / 64;
                let c = (i % 64) as u64;
                lemma_and_nonzero_iff(owned@[block], candidates@[block]);
                assert(!(word_has_bit(owned@[block], c) && word_has_bit(candidates@[block], c)));
            }
        }
    }
    false
}

/// Returns the union of two bitsets.
pub(crate) fn bits_union(a: &GameplayTagBits, b: &GameplayTagBits) -> (r: GameplayTagBits)
    ensures
        forall|i: int| #[trigger] bits_contain(r, i) <==> (bits_contain(*a, i) || bits_contain(*b, i)),
{
    let mut r: GameplayTagBits = [0u64; MAX_TAG_BLOCKS];
    let mut k: usize = 0;
    while k < MAX_TAG_BLOCKS
        invariant
            0 <= k <= MAX_TAG_BLOCKS,
            forall|j: int| 0 <= j < k ==> #[trigger] r@[j] == a@[j] | b@[j],
        decreases MAX_TAG_BLOCKS - k,
    {
        r[k] = a[k] | b[k];
        k = k + 1;
    }
    proof {
        assert forall|i: int| #[trigger] bits_contain(r, i) <==> (bits_contain(*a, i) || bits_contain(*b, i)) by {
            if 0 <= i < MAX_TAG_COUNTS {
                lemma_or_words(a@[i / 64], b@[i / 64], (i % 64) as u64);
            }
        }
    }
    r
}

} // verus!
