//! Helpers for selector masks.

use vstd::prelude::*;

verus! {

/// `index` lists, in rising order and each once, the positions of `mask` that
/// hold a value other than 0.
pub open spec fn selects(mask: Seq<u8>, index: Seq<u32>) -> bool {
    &&& forall|a: int, b: int| 0 <= a < b < index.len() ==> index[a] < index[b]
    &&& forall|k: int| 0 <= k < index.len() ==> (#[trigger] index[k] as int) < mask.len() && mask[index[k] as int] != 0
    &&& forall|i: int|
        0 <= i < mask.len() && #[trigger] mask[i] != 0 ==> exists|k: int|
            0 <= k < index.len() && #[trigger] index[k] as int == i
}

/// Turns a mask into the list of the positions it selects: those that hold a
/// value other than 0, in rising order.
///
/// The positions are handed out as `u32`, so the mask may have at most 2^32
/// entries.
pub fn mask_to_index(mask: &[u8]) -> (index: Vec<u32>)
    requires
        mask@.len() <= 0x1_0000_0000,
    ensures
        selects(mask@, index@),
{
    let mut index: Vec<u32> = Vec::new();
    let mut i: usize = 0;
    while i < mask.len()
        invariant
            i <= mask@.len(),
            mask@.len() <= 0x1_0000_0000,
            forall|a: int, b: int| 0 <= a < b < index@.len() ==> index@[a] < index@[b],
            forall|k: int| 0 <= k < index@.len() ==> (#[trigger] index@[k] as int) < i && mask@[index@[k] as int] != 0,
            forall|p: int|
                0 <= p < i && #[trigger] mask@[p] != 0 ==> exists|k: int|
                    0 <= k < index@.len() && #[trigger] index@[k] as int == p,
        decreases mask@.len() - i,
    {
        if mask[i] != 0 {
            let ghost before = index@;
            index.push(i as u32);
            proof {
                assert forall|p: int| 0 <= p < i + 1 && #[trigger] mask@[p] != 0 implies exists|k: int|
                    0 <= k < index@.len() && #[trigger] index@[k] as int == p by {
                    if p < i {
                        let k = choose|k: int| 0 <= k < before.len() && #[trigger] before[k] as int == p;
                        assert(index@[k] as int == p);
                    } else {
                        assert(index@[index@.len() - 1] as int == p);
                    }
                }
            }
        }
        i += 1;
    }
    index
}

} // verus!
