//! What a discovery strategy produces: the positions of the canonical chain
//! and of the successive blocks within a height index, and the predicates the
//! two strategies promise about them.

use vstd::prelude::*;
use crate::height_index::{HeightIndex, IndexedBlock, height_key};

verus! {

/// The outcome of a discovery run, as positions into the height-sorted
/// blocks of the index: the canonical chain in root-to-tip order, then the
/// successive blocks above the confirmed boundary in sorted order.
pub struct Discovery {
    pub canonical: Vec<usize>,
    pub successive: Vec<usize>,
}

/// Some entry of `v` names position `j`.
pub open spec fn has_pos(v: Seq<usize>, j: int) -> bool {
    exists|k: int| 0 <= k < v.len() && (#[trigger] v[k]) as int == j
}

/// Block `c` extends block `p`: the child's parent hash is the parent's
/// state hash, one height above it.
pub open spec fn linked(s: Seq<IndexedBlock>, p: int, c: int) -> bool {
    &&& s[p].state_hash is Some
    &&& s[c].parent_hash@ == s[p].state_hash.unwrap()@
    &&& s[p].height is Some
    &&& s[c].height is Some
    &&& s[c].height.unwrap() as int == s[p].height.unwrap() as int + 1
}

/// The positions in `c` name blocks of `s` that form a hash-linked chain,
/// each entry the child of the one before it.
pub open spec fn is_hash_chain(s: Seq<IndexedBlock>, c: Seq<usize>) -> bool {
    &&& forall|i: int| 0 <= i < c.len() ==> (#[trigger] c[i] as int) < s.len()
    &&& forall|i: int|
        #![trigger c[i - 1], c[i]]
        0 < i < c.len() ==> linked(s, c[i - 1] as int, c[i] as int)
}

/// Along a hash-linked chain the heights ascend by exactly one, so they are
/// strictly ascending and no two entries share a height.
pub proof fn lemma_chain_heights(s: Seq<IndexedBlock>, c: Seq<usize>, i: int, j: int)
    requires
        is_hash_chain(s, c),
        0 <= i < j < c.len(),
        c.len() >= 2,
    ensures
        s[c[i] as int].height is Some,
        s[c[j] as int].height is Some,
        s[c[j] as int].height.unwrap() as int == s[c[i] as int].height.unwrap() as int + (j - i),
        s[c[i] as int].height != s[c[j] as int].height,
    decreases j - i,
{
    if j == i + 1 {
        assert(linked(s, c[i] as int, c[j] as int));
    } else {
        lemma_chain_heights(s, c, i, j - 1);
        assert(linked(s, c[j - 1] as int, c[j] as int));
    }
}

/// Whether the given group heights form the consecutive run needed to anchor
/// a backward walk: the first `depth + 1` groups exist and their heights
/// climb by exactly one from the first group's height.
pub open spec fn confidence_ok(ix: &HeightIndex, depth: int) -> bool {
    &&& ix.starts().len() > depth
    &&& ix.spec_group_height(0) is Some
    &&& forall|g: int|
        1 <= g <= depth ==> (#[trigger] ix.spec_group_height(g)) is Some && ix.spec_group_height(
            g,
        ).unwrap() as int == ix.spec_group_height(0).unwrap() as int + g
}

/// The group a backward walk starts from: the last group, unless that group
/// has no determinate height, in which case the one before it.
pub open spec fn tip_group(ix: &HeightIndex) -> int {
    if ix.spec_group_height(ix.starts().len() - 1) is Some {
        ix.starts().len() - 1
    } else {
        ix.starts().len() - 2
    }
}

/// Every block of groups `1..=tg` has a hash-linked parent in the group
/// below it. On such data a backward walk cannot get stuck.
pub open spec fn full_parentage(ix: &HeightIndex, tg: int) -> bool {
    forall|g: int, j: int|
        1 <= g <= tg && #[trigger] ix.in_group(j, g) ==> exists|p: int|
            ix.in_group(p, g - 1) && linked(ix.blocks(), p, j)
}

/// Any group before the last holds blocks of determinate height: blocks
/// without one sort above every other key, so they all land in the final
/// group.
pub proof fn lemma_inner_group_some(ix: &HeightIndex, g: int)
    requires
        ix.wf(),
        0 <= g < ix.starts().len() - 1,
    ensures
        ix.spec_group_height(g) is Some,
{
    if ix.spec_group_height(g) is None {
        ix.lemma_group_heights_increase(g);
        assert(height_key(ix.spec_group_height(g + 1)) > 0x1_0000_0000);
    }
}

} // verus!
