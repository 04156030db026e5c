//! Small text-classification helpers for the renderer and the input probe:
//! which positions of a rendered line are hits, and whether decoded bytes
//! look like text at all.

use vstd::prelude::*;

verus! {

/// Whether `i` is one of the hit positions.
pub fn contains_pos(hits: &Vec<usize>, i: usize) -> (r: bool)
    ensures
        r == hits@.contains(i),
{
    let mut k: usize = 0;
    while k < hits.len()
        invariant
            k <= hits@.len(),
            forall|j: int| 0 <= j < k ==> hits@[j] != i,
        decreases hits@.len() - k,
    {
        if hits[k] == i {
            return true;
        }
        k = k + 1;
    }
    proof {
        assert(!hits@.contains(i));
    }
    false
}

/// A control character: the Unicode ranges U+0000 to U+001F and U+007F to
/// U+009F.
pub open spec fn is_control_char(c: char) -> bool {
    (c as u32) < 0x20 || (0x7f <= c as u32 && c as u32 <= 0x9f)
}

/// Whether the characters look like text: at least one of them is not a
/// control character. Empty input does not count as text.
pub fn is_mostly_text(chars: &Vec<char>) -> (r: bool)
    ensures
        r == exists|k: int| 0 <= k < chars@.len() && !is_control_char(chars@[k]),
{
    let mut k: usize = 0;
    while k < chars.len()
        invariant
            k <= chars@.len(),
            forall|j: int| 0 <= j < k ==> is_control_char(chars@[j]),
        decreases chars@.len() - k,
    {
        let c = chars[k] as u32;
        if !(c < 0x20 || (0x7f <= c && c <= 0x9f)) {
            return true;
        }
        k = k + 1;
    }
    false
}

} // verus!
