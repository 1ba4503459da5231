//! The height index: an unordered collection of block records sorted
//! ascending by the height parsed from each name, with the start position of
//! every run of equal heights. Blocks whose name encodes no height sort last.

use vstd::prelude::*;
use crate::block_file::{spec_parse_height, spec_parse_state_hash, parse_height, parse_state_hash};

verus! {

use vstd::multiset::Multiset;
use vstd::seq_lib::group_to_multiset_ensures;

/// One block file as handed to the index: its file name and the parent hash
/// read from its content.
pub struct BlockRecord {
    pub name: String,
    pub parent_hash: String,
}

/// One block with the fields parsed from its name.
pub struct IndexedBlock {
    pub name: String,
    pub height: Option<u32>,
    pub state_hash: Option<String>,
    pub parent_hash: String,
}

/// Why a discovery run failed.
#[derive(Clone, Copy, Debug, PartialEq, Eq, Structural)]
pub enum DiscoveryError {
    /// No block files were given.
    EmptyInput,
    /// Not enough contiguous low heights to anchor a backward walk.
    LowConfidence,
    /// A scan over a candidate group found no hash-linked parent.
    ParentLinkNotFound,
}

/// The sort key of a height: the height itself, with a missing height above
/// every actual one.
pub open spec fn height_key(h: Option<u32>) -> int {
    match h {
        Some(v) => v as int,
        None => 0x1_0000_0000,
    }
}

/// Exec counterpart of [`height_key`].
pub fn height_key_of(h: &Option<u32>) -> (k: u64)
    ensures
        k as int == height_key(*h),
{
    match h {
        Some(v) => *v as u64,
        None => 0x1_0000_0000u64,
    }
}

/// The parsed fields of a block agree with its name.
pub open spec fn parsed_ok(b: IndexedBlock) -> bool {
    &&& b.height == spec_parse_height(b.name@)
    &&& (b.state_hash is Some <==> spec_parse_state_hash(b.name@) is Some)
    &&& (b.state_hash is Some ==> b.state_hash.unwrap()@ == spec_parse_state_hash(
        b.name@,
    ).unwrap())
}

/// A block reduced to what the caller handed in.
pub open spec fn key_pair(b: IndexedBlock) -> (Seq<char>, Seq<char>) {
    (b.name@, b.parent_hash@)
}

/// A record reduced to the same shape.
pub open spec fn rec_pair(r: BlockRecord) -> (Seq<char>, Seq<char>) {
    (r.name@, r.parent_hash@)
}

/// The blocks reduced pointwise to what the caller handed in.
pub open spec fn pairs_of(s: Seq<IndexedBlock>) -> Seq<(Seq<char>, Seq<char>)> {
    s.map_values(|b: IndexedBlock| key_pair(b))
}

/// The records reduced pointwise to the same shape.
pub open spec fn rec_pairs_of(s: Seq<BlockRecord>) -> Seq<(Seq<char>, Seq<char>)> {
    s.map_values(|r: BlockRecord| rec_pair(r))
}

/// Ascending by height key.
pub open spec fn sorted_by_key(s: Seq<IndexedBlock>) -> bool {
    forall|i: int, j: int|
        0 <= i <= j < s.len() ==> height_key(s[i].height) <= height_key(s[j].height)
}

/// Every block shares the height of its group's first block: within each
/// pair of consecutive start positions, and from the last start position to
/// the end.
#[verifier::opaque]
pub open spec fn grouped_heights(starts: Seq<usize>, s: Seq<IndexedBlock>) -> bool {
    &&& forall|g: int, i: int|
        #![trigger starts[g], s[i]]
        0 < g < starts.len() && starts[g - 1] <= i < starts[g] ==> s[i].height == s[starts[g
            - 1] as int].height
    &&& forall|i: int|
        starts[starts.len() - 1] <= i < s.len() ==> (#[trigger] s[i]).height == s[starts[starts.len()
            - 1] as int].height
}

/// Blocks grouped by height.
pub struct HeightIndex {
    pub blocks: Vec<IndexedBlock>,
    pub group_start: Vec<usize>,
}

impl HeightIndex {
    /// The sorted blocks.
    pub open spec fn blocks(&self) -> Seq<IndexedBlock> {
        self.blocks@
    }

    /// The start positions of the height groups.
    pub open spec fn starts(&self) -> Seq<usize> {
        self.group_start@
    }

    /// The structural invariant: blocks sorted by height, the start list
    /// naming the positions where the height strictly increases, and every
    /// block sharing the height of its group's first block.
    pub open spec fn wf(&self) -> bool {
        &&& self.blocks@.len() > 0
        &&& sorted_by_key(self.blocks@)
        &&& self.group_start@.len() >= 1
        &&& self.group_start@[0] == 0
        &&& forall|g: int|
            0 <= g < self.group_start@.len() ==> (#[trigger] self.group_start@[g] as int)
                < self.blocks@.len()
        &&& forall|g1: int, g2: int|
            #![trigger self.group_start@[g1], self.group_start@[g2]]
            0 <= g1 < g2 < self.group_start@.len() ==> self.group_start@[g1]
                < self.group_start@[g2]
        &&& forall|g: int|
            0 < g < self.group_start@.len() ==> height_key(
                self.blocks@[#[trigger] self.group_start@[g] as int - 1].height,
            ) < height_key(self.blocks@[self.group_start@[g] as int].height)
        &&& grouped_heights(self.group_start@, self.blocks@)
    }

    /// Where group `g` ends: the next group's start, or the end of the blocks.
    pub open spec fn spec_group_end(&self, g: int) -> int {
        if g + 1 < self.group_start@.len() {
            self.group_start@[g + 1] as int
        } else {
            self.blocks@.len() as int
        }
    }

    /// The height shared by group `g`.
    pub open spec fn spec_group_height(&self, g: int) -> Option<u32> {
        self.blocks@[self.group_start@[g] as int].height
    }

    /// Block `i` lies in group `g`.
    pub open spec fn in_group(&self, i: int, g: int) -> bool {
        self.group_start@[g] <= i < self.spec_group_end(g)
    }

    /// How many blocks the index holds.
    pub fn block_count(&self) -> (n: usize)
        ensures
            n == self.blocks@.len(),
    {
        self.blocks.len()
    }

    /// How many height groups the index holds.
    pub fn group_count(&self) -> (n: usize)
        ensures
            n == self.group_start@.len(),
    {
        self.group_start.len()
    }

    /// The start position of group `g`.
    pub fn group_start(&self, g: usize) -> (s: usize)
        requires
            g < self.group_start@.len(),
        ensures
            s == self.group_start@[g as int],
    {
        self.group_start[g]
    }

    /// The end position of group `g`.
    pub fn group_end(&self, g: usize) -> (e: usize)
        requires
            self.wf(),
            g < self.group_start@.len(),
        ensures
            e == self.spec_group_end(g as int),
    {
        let n = self.group_start.len();
        if g + 1 < n {
            self.group_start[g + 1]
        } else {
            self.blocks.len()
        }
    }

    /// The height of group `g` together with its start position.
    pub fn group_at(&self, g: usize) -> (r: (Option<u32>, usize))
        requires
            self.wf(),
            g < self.group_start@.len(),
        ensures
            r.0 == self.spec_group_height(g as int),
            r.1 == self.group_start@[g as int],
    {
        let s = self.group_start[g];
        (self.blocks[s].height, s)
    }

    /// The blocks between two positions of the height-sorted order.
    pub fn blocks_between(&self, a: usize, b: usize) -> (r: &[IndexedBlock])
        requires
            a <= b <= self.blocks@.len(),
        ensures
            r@ == self.blocks@.subrange(a as int, b as int),
    {
        &self.blocks[a..b]
    }

    /// The block at position `i` of the height-sorted order.
    pub fn block(&self, i: usize) -> (b: &IndexedBlock)
        requires
            i < self.blocks@.len(),
        ensures
            *b == self.blocks@[i as int],
    {
        &self.blocks[i]
    }

    /// Within one group every block has the group's height.
    pub proof fn lemma_group_height(&self, g: int, i: int)
        requires
            self.wf(),
            0 <= g < self.group_start@.len(),
            self.in_group(i, g),
        ensures
            self.blocks@[i].height == self.spec_group_height(g),
    {
        reveal(grouped_heights);
        let gs = self.group_start@;
        let s = self.blocks@;
        if g + 1 < gs.len() {
            assert(gs[g + 1 - 1] <= i < gs[g + 1]);
            assert(s[i].height == s[gs[g] as int].height);
        } else {
            assert(gs[gs.len() - 1] <= i < s.len());
            assert(s[i].height == s[gs[g] as int].height);
        }
    }

    /// Heights strictly increase from each group to the next.
    pub proof fn lemma_group_heights_increase(&self, g: int)
        requires
            self.wf(),
            0 <= g,
            g + 1 < self.group_start@.len(),
        ensures
            height_key(self.spec_group_height(g)) < height_key(self.spec_group_height(g + 1)),
    {
        let gs = self.group_start@;
        let b = gs[g + 1] as int;
        self.lemma_group_height(g, b - 1);
    }
}

/// The start list is strictly increasing between any two positions.
proof fn lemma_starts_increasing(gs: Seq<usize>, g1: int, g2: int)
    requires
        forall|g: int| 0 < g < gs.len() ==> gs[g - 1] < #[trigger] gs[g],
        0 <= g1 <= g2 < gs.len(),
    ensures
        g1 < g2 ==> gs[g1] < gs[g2],
        gs[g1] <= gs[g2],
    decreases g2 - g1,
{
    if g1 < g2 {
        lemma_starts_increasing(gs, g1, g2 - 1);
    }
}

/// Equal keys mean equal heights.
proof fn lemma_height_key_injective(a: Option<u32>, b: Option<u32>)
    requires
        height_key(a) == height_key(b),
    ensures
        a == b,
{
}

/// Find the position of a minimal height key in `src`.
fn find_min_idx(src: &Vec<IndexedBlock>) -> (m: usize)
    requires
        src@.len() > 0,
    ensures
        m < src@.len(),
        forall|i: int|
            0 <= i < src@.len() ==> height_key(src@[m as int].height) <= height_key(
                #[trigger] src@[i].height,
            ),
{
    let mut m: usize = 0;
    let mut i: usize = 1;
    while i < src.len()
        invariant
            m < i <= src@.len(),
            forall|j: int|
                0 <= j < i ==> height_key(src@[m as int].height) <= height_key(
                    #[trigger] src@[j].height,
                ),
        decreases src@.len() - i,
    {
        if height_key_of(&src[i].height) < height_key_of(&src[m].height) {
            m = i;
        }
        i = i + 1;
    }
    m
}

/// Sort blocks ascending by height key; the result is a permutation of the
/// input.
fn sort_blocks(blocks: Vec<IndexedBlock>) -> (out: Vec<IndexedBlock>)
    ensures
        out@.to_multiset() == blocks@.to_multiset(),
        pairs_of(out@).to_multiset() == pairs_of(blocks@).to_multiset(),
        out@.len() == blocks@.len(),
        sorted_by_key(out@),
{
    broadcast use group_to_multiset_ensures;

    let mut src = blocks;
    let mut out: Vec<IndexedBlock> = Vec::new();
    while src.len() > 0
        invariant
            out@.len() + src@.len() == blocks@.len(),
            out@.to_multiset().add(src@.to_multiset()) == blocks@.to_multiset(),
            pairs_of(out@).to_multiset().add(pairs_of(src@).to_multiset()) == pairs_of(
                blocks@,
            ).to_multiset(),
            sorted_by_key(out@),
            forall|i: int, j: int|
                #![trigger out@[i], src@[j]]
                0 <= i < out@.len() && 0 <= j < src@.len() ==> height_key(out@[i].height)
                    <= height_key(src@[j].height),
        decreases src@.len(),
    {
        let m = find_min_idx(&src);
        let ghost old_src = src@;
        let ghost old_out = out@;
        let b = src.remove(m);
        out.push(b);
        proof {
            broadcast use group_to_multiset_ensures;
            broadcast use vstd::multiset::group_multiset_axioms;

            assert(old_src[m as int] == b);
            assert(old_src.contains(b));
            assert(old_src.to_multiset().count(b) > 0);
            assert(old_out.push(b).to_multiset() =~= old_out.to_multiset().insert(b));
            assert(old_src.remove(m as int).to_multiset() =~= old_src.to_multiset().remove(
                old_src[m as int],
            ));
            assert(out@.to_multiset().add(src@.to_multiset()) =~= blocks@.to_multiset());
            assert(pairs_of(old_out).push(key_pair(b)) =~= pairs_of(old_out.push(b)));
            assert(pairs_of(old_out).push(key_pair(b)).to_multiset() =~= pairs_of(
                old_out,
            ).to_multiset().insert(key_pair(b)));
            assert(pairs_of(old_src)[m as int] == key_pair(b));
            assert(pairs_of(old_src).contains(key_pair(b)));
            assert(pairs_of(old_src).to_multiset().count(key_pair(b)) > 0);
            assert(pairs_of(old_src).remove(m as int) =~= pairs_of(old_src.remove(m as int)));
            assert(pairs_of(old_src).remove(m as int).to_multiset() =~= pairs_of(
                old_src,
            ).to_multiset().remove(pairs_of(old_src)[m as int]));
            assert(pairs_of(out@).to_multiset().add(pairs_of(src@).to_multiset()) =~= pairs_of(
                blocks@,
            ).to_multiset());
            assert forall|i: int, j: int|
                #![trigger out@[i], src@[j]]
                0 <= i < out@.len() && 0 <= j < src@.len() implies height_key(out@[i].height)
                <= height_key(src@[j].height) by {
                assert(src@[j] == old_src.remove(m as int)[j]);
            }
        }
    }
    proof {
        broadcast use group_to_multiset_ensures;
        broadcast use vstd::multiset::group_multiset_axioms;

        assert(src@ =~= Seq::<IndexedBlock>::empty());
        assert(src@.to_multiset() =~= Multiset::<IndexedBlock>::empty());
        assert(out@.to_multiset() =~= blocks@.to_multiset());
        assert(pairs_of(src@) =~= Seq::<(Seq<char>, Seq<char>)>::empty());
        assert(pairs_of(src@).to_multiset() =~= Multiset::<(Seq<char>, Seq<char>)>::empty());
        assert(pairs_of(out@).to_multiset() =~= pairs_of(blocks@).to_multiset());
    }
    out
}

/// Collect the start position of each run of equal heights in sorted order.
fn collect_group_starts(blocks: &Vec<IndexedBlock>) -> (gs: Vec<usize>)
    requires
        blocks@.len() > 0,
        sorted_by_key(blocks@),
    ensures
        gs@.len() >= 1,
        gs@[0] == 0,
        forall|g: int| 0 <= g < gs@.len() ==> (#[trigger] gs@[g] as int) < blocks@.len(),
        forall|g1: int, g2: int|
            #![trigger gs@[g1], gs@[g2]]
            0 <= g1 < g2 < gs@.len() ==> gs@[g1] < gs@[g2],
        forall|g: int|
            0 < g < gs@.len() ==> height_key(blocks@[#[trigger] gs@[g] as int - 1].height)
                < height_key(blocks@[gs@[g] as int].height),
        grouped_heights(gs@, blocks@),
{
    let mut gs: Vec<usize> = Vec::new();
    gs.push(0);
    let mut i: usize = 1;
    let n = blocks.len();
    while i < n
        invariant
            1 <= i <= n == blocks@.len(),
            blocks@.len() > 0,
            sorted_by_key(blocks@),
            gs@.len() >= 1,
            gs@[0] == 0,
            forall|g: int| 0 <= g < gs@.len() ==> (#[trigger] gs@[g] as int) < i,
            forall|g1: int, g2: int|
                #![trigger gs@[g1], gs@[g2]]
                0 <= g1 < g2 < gs@.len() ==> gs@[g1] < gs@[g2],
            forall|g: int|
                0 < g < gs@.len() ==> height_key(blocks@[#[trigger] gs@[g] as int - 1].height)
                    < height_key(blocks@[gs@[g] as int].height),
            forall|g: int, i2: int|
                #![trigger gs@[g], blocks@[i2]]
                0 < g < gs@.len() && gs@[g - 1] <= i2 < gs@[g] ==> blocks@[i2].height
                    == blocks@[gs@[g - 1] as int].height,
            forall|i2: int|
                gs@[gs@.len() - 1] <= i2 < i ==> (#[trigger] blocks@[i2]).height
                    == blocks@[gs@[gs@.len() - 1] as int].height,
        decreases n - i,
    {
        let prev = height_key_of(&blocks[i - 1].height);
        let cur = height_key_of(&blocks[i].height);
        if cur > prev {
            gs.push(i);
        } else {
            proof {
                assert(height_key(blocks@[i as int].height) >= height_key(
                    blocks@[i - 1].height,
                ));
                lemma_height_key_injective(blocks@[i as int].height, blocks@[i - 1].height);
                assert(blocks@[i as int].height == blocks@[gs@[gs@.len() - 1] as int].height);
            }
        }
        i = i + 1;
    }
    proof {
        reveal(grouped_heights);
        assert(grouped_heights(gs@, blocks@));
    }
    gs
}

impl HeightIndex {
    /// Build the index from the given block records. Each record's name is
    /// parsed for its height and state hash; the records are then sorted
    /// ascending by height, blocks without a height last, and the start of
    /// every run of equal heights is recorded. Fails with `EmptyInput` when
    /// no records are given.
    #[verifier::rlimit(100)]
    #[verifier::spinoff_prover]
    pub fn build(records: Vec<BlockRecord>) -> (r: Result<HeightIndex, DiscoveryError>)
        ensures
            records@.len() == 0 <==> r == Err::<HeightIndex, DiscoveryError>(
                DiscoveryError::EmptyInput,
            ),
            r is Ok ==> {
                let ix = r.unwrap();
                &&& ix.wf()
                &&& ix.blocks@.len() == records@.len()
                &&& forall|i: int| 0 <= i < ix.blocks@.len() ==> parsed_ok(#[trigger] ix.blocks@[i])
                &&& pairs_of(ix.blocks@).to_multiset() == rec_pairs_of(records@).to_multiset()
            },
    {
        broadcast use group_to_multiset_ensures;

        if records.len() == 0 {
            return Err(DiscoveryError::EmptyInput);
        }
        let mut parsed: Vec<IndexedBlock> = Vec::new();
        let mut rest = records;
        while rest.len() > 0
            invariant
                parsed@.len() + rest@.len() == records@.len(),
                forall|i: int| 0 <= i < parsed@.len() ==> parsed_ok(#[trigger] parsed@[i]),
                forall|i: int|
                    0 <= i < parsed@.len() ==> key_pair(#[trigger] parsed@[i]) == rec_pair(
                        records@[i],
                    ),
                rest@ =~= records@.skip(parsed@.len() as int),
            decreases rest@.len(),
        {
            let ghost old_rest = rest@;
            let rec = rest.remove(0);
            let height = parse_height(rec.name.as_str());
            let state_hash = parse_state_hash(rec.name.as_str());
            parsed.push(
                IndexedBlock { name: rec.name, height, state_hash, parent_hash: rec.parent_hash },
            );
        }
        let ghost pv = parsed@;
        proof {
            assert(pairs_of(pv) =~= rec_pairs_of(records@));
        }
        let blocks = sort_blocks(parsed);
        proof {
            assert forall|i: int| 0 <= i < blocks@.len() implies parsed_ok(
                #[trigger] blocks@[i],
            ) by {
                assert(blocks@.to_multiset().count(blocks@[i]) > 0);
                assert(pv.contains(blocks@[i]));
            }
        }
        let group_start = collect_group_starts(&blocks);
        Ok(HeightIndex { blocks, group_start })
    }
}

} // verus!
