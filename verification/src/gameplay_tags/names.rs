//! The hierarchy of dotted tag names.

use vstd::prelude::*;
use vstd::string::StringSliceAdditionalSpecFns;
use vstd::utf8::{encode_utf8_valid_utf8, is_char_boundary_iff_not_is_continuation_byte};

verus! {

/// The byte that separates the levels of a hierarchical tag name.
pub const TAG_NAME_SEPARATOR: u8 = 46;

/// The positions before `n` at which `bytes` holds the separator, in increasing order.
pub open spec fn separator_positions(bytes: Seq<u8>, n: int) -> Seq<int>
    decreases n,
{
    if n <= 0 {
        Seq::empty()
    } else {
        let before = separator_positions(bytes, n - 1);
        if bytes[n - 1] == TAG_NAME_SEPARATOR {
            before.push(n - 1)
        } else {
            before
        }
    }
}

/// Returns the names of the tags that `full_tag_name` lies under, outermost first, followed by
/// `full_tag_name` itself.
///
/// Each separator ends one ancestor's name: the part of `full_tag_name` before it. Requesting a
/// tag registers these names in this order, each as the parent of the next.
pub fn tag_name_prefixes<'a>(full_tag_name: &'a str) -> (prefixes: Vec<&'a str>)
    ensures
        ({
            let bytes = full_tag_name.spec_bytes();
            let ends = separator_positions(bytes, bytes.len() as int);
            &&& prefixes@.len() == ends.len() + 1
            &&& forall|k: int| 0 <= k < ends.len() ==> (#[trigger] prefixes@[k]).spec_bytes() == bytes.take(ends[k])
            &&& prefixes@[ends.len() as int] == full_tag_name
        }),
{
    let bytes = full_tag_name.as_bytes();
    let ghost whole = full_tag_name.spec_bytes();
    proof {
        encode_utf8_valid_utf8(full_tag_name@);
    }
    let mut prefixes: Vec<&'a str> = Vec::new();
    let mut i: usize = 0;
    while i < bytes.len()
        invariant
            bytes@ == whole,
            whole == full_tag_name.spec_bytes(),
            vstd::utf8::valid_utf8(whole),
            0 <= i <= whole.len(),
            prefixes@.len() == separator_positions(whole, i as int).len(),
            forall|k: int|
                0 <= k < prefixes@.len() ==> (#[trigger] prefixes@[k]).spec_bytes() == whole.take(
                    separator_positions(whole, i as int)[k],
                ),
        decreases whole.len() - i,
    {
        if bytes[i] == TAG_NAME_SEPARATOR {
            proof {
                is_char_boundary_iff_not_is_continuation_byte(whole, i as int);
            }
            let (head, _) = full_tag_name.split_at(i);
            prefixes.push(head);
        }
        i = i + 1;
    }
    prefixes.push(full_tag_name);
    prefixes
}

} // verus!
