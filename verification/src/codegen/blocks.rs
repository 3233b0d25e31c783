//! Finding the blocks of a function by label.
use vstd::prelude::*;

use crate::bir::instruction::BasicBlock;

verus! {

/// The first block with the given label; the function must have one.
pub fn find_block(blocks: &[BasicBlock], label: u32) -> (r: &BasicBlock)
    requires
        exists|i: int| 0 <= i < blocks@.len() && #[trigger] blocks@[i].label == label,
    ensures
        exists|i: int|
            0 <= i < blocks@.len() && *r == blocks@[i] && r.label == label && forall|j: int|
                0 <= j < i ==> #[trigger] blocks@[j].label != label,
{
    let mut k: usize = 0;
    while k < blocks.len()
        invariant
            k <= blocks@.len(),
            forall|j: int| 0 <= j < k ==> #[trigger] blocks@[j].label != label,
            exists|i: int| 0 <= i < blocks@.len() && #[trigger] blocks@[i].label == label,
        decreases blocks@.len() - k,
    {
        if blocks[k].label == label {
            return &blocks[k];
        }
        k = k + 1;
    }
    proof {
        let i = choose|i: int| 0 <= i < blocks@.len() && #[trigger] blocks@[i].label == label;
        assert(blocks@[i].label != label);
    }
    &blocks[0]
}

} // verus!
