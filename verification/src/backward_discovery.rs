//! Backward chain discovery: anchor confidence in the contiguous low
//! heights, pick the highest determinate tip, backtrack one confirmation
//! depth to a trusted block, then walk parent links back to the first group.

use vstd::prelude::*;
use crate::height_index::{HeightIndex, IndexedBlock, DiscoveryError};
use crate::discovery::{
    Discovery,
    has_pos,
    linked,
    is_hash_chain,
    confidence_ok,
    tip_group,
    full_parentage,
    lemma_inner_group_some,
};

verus! {

/// The block can serve as the hash-linked parent: its state hash is `ph` and
/// its height is `h`.
pub open spec fn block_matches(b: IndexedBlock, ph: Seq<char>, h: u32) -> bool {
    &&& b.state_hash is Some
    &&& b.state_hash.unwrap()@ == ph
    &&& b.height == Some(h)
}

/// Scan positions `lo..hi` for the first block whose state hash is
/// `parent_hash` and whose height is `want_height`.
fn find_parent_in(
    ix: &HeightIndex,
    lo: usize,
    hi: usize,
    parent_hash: &String,
    want_height: u32,
) -> (r: Option<usize>)
    requires
        lo <= hi <= ix.blocks().len(),
    ensures
        match r {
            Some(j) => {
                &&& lo <= j < hi
                &&& block_matches(ix.blocks()[j as int], parent_hash@, want_height)
                &&& forall|k: int|
                    lo <= k < j ==> !block_matches(
                        #[trigger] ix.blocks()[k],
                        parent_hash@,
                        want_height,
                    )
            },
            None => forall|k: int|
                lo <= k < hi ==> !block_matches(
                    #[trigger] ix.blocks()[k],
                    parent_hash@,
                    want_height,
                ),
        },
{
    let mut j = lo;
    while j < hi
        invariant
            lo <= j <= hi <= ix.blocks().len(),
            forall|k: int|
                lo <= k < j ==> !block_matches(
                    #[trigger] ix.blocks()[k],
                    parent_hash@,
                    want_height,
                ),
        decreases hi - j,
    {
        let b = ix.block(j);
        let height_hits = match b.height {
            Some(h) => h == want_height,
            None => false,
        };
        if height_hits {
            match &b.state_hash {
                Some(sh) => {
                    if *sh == *parent_hash {
                        return Some(j);
                    }
                }
                None => {}
            }
        }
        j = j + 1;
    }
    None
}

/// Where the successive blocks begin for a backward run: the start of the
/// group just above the trusted (depth-backtracked) tip group.
pub open spec fn successive_start(ix: &HeightIndex, depth: int) -> int {
    let sg = tip_group(ix) - depth + 1;
    if sg < ix.starts().len() {
        ix.starts()[sg] as int
    } else {
        ix.blocks().len() as int
    }
}

/// `su` holds exactly the determinate-height positions from
/// [`successive_start`] on, in ascending order.
pub open spec fn successive_exact(ix: &HeightIndex, depth: int, su: Seq<usize>) -> bool {
    &&& forall|k: int|
        0 <= k < su.len() ==> successive_start(ix, depth) <= (#[trigger] su[k] as int)
            < ix.blocks().len() && ix.blocks()[su[k] as int].height is Some
    &&& forall|k1: int, k2: int|
        #![trigger su[k1], su[k2]]
        0 <= k1 < k2 < su.len() ==> su[k1] < su[k2]
    &&& forall|j: int|
        #![trigger has_pos(su, j)]
        successive_start(ix, depth) <= j < ix.blocks().len() && ix.blocks()[j].height is Some
            ==> has_pos(su, j)
}

/// A chain of `depth` hash links stands between `top` and the first block
/// of the tip group: `top` is the block reached by backtracking a full
/// confirmation depth from the selected tip, one group at a time.
pub open spec fn tip_anchored(ix: &HeightIndex, depth: int, top: usize) -> bool {
    exists|bt: Seq<usize>|
        #![trigger is_hash_chain(ix.blocks(), bt)]
        {
            &&& is_hash_chain(ix.blocks(), bt)
            &&& bt.len() == depth + 1
            &&& bt[0] == top
            &&& forall|k: int|
                0 <= k < bt.len() ==> ix.in_group(#[trigger] bt[k] as int, tip_group(ix) - depth + k)
            &&& bt[depth] as int == ix.starts()[tip_group(ix)] as int
        }
}

/// Every group from the first to the tip group has a determinate height.
proof fn lemma_group_some_upto_tip(ix: &HeightIndex, g: int)
    requires
        ix.wf(),
        0 <= g <= tip_group(ix),
    ensures
        ix.spec_group_height(g) is Some,
{
    let last = ix.starts().len() - 1;
    if g < last {
        lemma_inner_group_some(ix, g);
    }
}

/// Whether the first `depth + 1` group heights climb by exactly one from
/// the lowest group's height.
fn check_confidence(ix: &HeightIndex, depth: usize) -> (ok: bool)
    requires
        ix.wf(),
    ensures
        ok <==> confidence_ok(ix, depth as int),
{
    let gc = ix.group_count();
    if depth >= gc {
        return false;
    }
    let (h0o, _) = ix.group_at(0);
    let h0 = match h0o {
        Some(h) => h,
        None => {
            return false;
        }
    };
    let mut g: usize = 1;
    while g <= depth
        invariant
            ix.wf(),
            depth < gc == ix.starts().len(),
            ix.spec_group_height(0) == Some(h0),
            1 <= g <= depth + 1,
            forall|k: int|
                1 <= k < g ==> (#[trigger] ix.spec_group_height(k)) is Some
                    && ix.spec_group_height(k).unwrap() as int == h0 as int + k,
        decreases depth + 1 - g,
    {
        let (hgo, _) = ix.group_at(g);
        let hits = match hgo {
            Some(hg) => hg >= h0 && (hg - h0) as u64 == g as u64,
            None => false,
        };
        if !hits {
            proof {
                assert(!((ix.spec_group_height(g as int)) is Some && ix.spec_group_height(
                    g as int,
                ).unwrap() as int == h0 as int + g));
            }
            return false;
        }
        g = g + 1;
    }
    true
}

/// Pick the tip group: the last group, or the one below it when the last
/// group's height is indeterminate.
fn select_tip(ix: &HeightIndex, depth: usize) -> (tg: usize)
    requires
        ix.wf(),
        confidence_ok(ix, depth as int),
    ensures
        tg as int == tip_group(ix),
        depth <= tg < ix.starts().len(),
{
    let gc = ix.group_count();
    let last = gc - 1;
    let (hlast, _) = ix.group_at(last);
    let tg: usize = match hlast {
        Some(_) => last,
        None => {
            proof {
                assert(ix.spec_group_height(0) is Some);
                assert(last >= 1);
            }
            last - 1
        }
    };
    proof {
        assert(tg as int == tip_group(ix));
        if (tg as int) < depth as int {
            assert(ix.spec_group_height(last as int) is Some);
            assert(false);
        }
    }
    tg
}

/// Backtrack `depth` hash links down from the first block of the tip group,
/// returning the position of the trusted canonical block together with the
/// backtracked chain that anchors it to the tip.
#[verifier::loop_isolation(false)]
fn backtrack_to_trusted(ix: &HeightIndex, tg: usize, depth: usize) -> (r: Result<
    (usize, Ghost<Seq<usize>>),
    DiscoveryError,
>)
    requires
        ix.wf(),
        tg as int == tip_group(ix),
        depth <= tg < ix.starts().len(),
    ensures
        match r {
            Ok((cur, trail)) => {
                &&& ix.in_group(cur as int, tg - depth)
                &&& is_hash_chain(ix.blocks(), trail@)
                &&& trail@.len() == depth + 1
                &&& trail@[0] == cur
                &&& forall|k: int|
                    0 <= k < trail@.len() ==> ix.in_group(
                        #[trigger] trail@[k] as int,
                        tg - depth + k,
                    )
                &&& trail@[depth as int] as int == ix.starts()[tg as int] as int
            },
            Err(e) => e == DiscoveryError::ParentLinkNotFound && !full_parentage(
                ix,
                tip_group(ix),
            ),
        },
{
    let mut cg: usize = tg;
    let mut cur: usize = ix.group_start(tg);
    let ghost start0: usize = cur;
    let ghost mut trail: Seq<usize> = seq![cur];
    let mut k: usize = 0;
    while k < depth
        invariant
            cg == tg - k,
            k <= depth,
            ix.in_group(cur as int, cg as int),
            trail.len() == k + 1,
            trail[0] == cur,
            trail[k as int] == start0,
            start0 as int == ix.starts()[tg as int] as int,
            forall|t: int| 0 <= t < trail.len() ==> ix.in_group(#[trigger] trail[t] as int, cg + t),
            forall|t: int|
                #![trigger trail[t - 1], trail[t]]
                0 < t < trail.len() ==> linked(ix.blocks(), trail[t - 1] as int, trail[t] as int),
        decreases depth - k,
    {
        proof {
            lemma_group_some_upto_tip(ix, cg as int);
            ix.lemma_group_height(cg as int, cur as int);
        }
        let ch = ix.block(cur).height.unwrap();
        match step_to_parent(ix, cg, cur, ch) {
            Some(j) => {
                proof {
                    let nt = seq![j] + trail;
                    assert(nt[0] == j);
                    assert forall|t: int| 0 < t < nt.len() implies nt[t] == trail[t - 1] by {}
                    assert forall|t: int|
                        #![trigger nt[t - 1], nt[t]]
                        0 < t < nt.len() implies linked(
                        ix.blocks(),
                        nt[t - 1] as int,
                        nt[t] as int,
                    ) by {
                        if t == 1 {
                            assert(nt[0] == j && nt[1] == trail[0]);
                        } else {
                            assert(nt[t - 1] == trail[t - 2] && nt[t] == trail[t - 1]);
                        }
                    }
                    assert forall|t: int| 0 <= t < nt.len() implies ix.in_group(
                        #[trigger] nt[t] as int,
                        cg - 1 + t,
                    ) by {
                        if t > 0 {
                            assert(nt[t] == trail[t - 1]);
                        }
                    }
                    trail = nt;
                }
                cur = j;
                cg = cg - 1;
                k = k + 1;
            }
            None => {
                proof {
                    if full_parentage(ix, tip_group(ix)) {
                        assert(ix.in_group(cur as int, cg as int));
                        assert(false);
                    }
                }
                return Err(DiscoveryError::ParentLinkNotFound);
            }
        }
    }
    Ok((cur, Ghost(trail)))
}

/// Walk the chain of hash-linked parents from the trusted tip down to the
/// first group, returning it in root-to-tip order.
#[verifier::loop_isolation(false)]
#[verifier::rlimit(100)]
#[verifier::spinoff_prover]
fn walk_chain(ix: &HeightIndex, tg: usize, depth: usize, start: usize) -> (r: Result<
    Vec<usize>,
    DiscoveryError,
>)
    requires
        ix.wf(),
        tg as int == tip_group(ix),
        depth <= tg < ix.starts().len(),
        ix.in_group(start as int, tg - depth),
    ensures
        match r {
            Ok(c) => {
                &&& is_hash_chain(ix.blocks(), c@)
                &&& c@.len() == tg - depth + 1
                &&& c@[c@.len() - 1] == start
                &&& forall|i: int| 0 <= i < c@.len() ==> ix.in_group(#[trigger] c@[i] as int, i)
            },
            Err(e) => e == DiscoveryError::ParentLinkNotFound && !full_parentage(
                ix,
                tip_group(ix),
            ),
        },
{
    let mut cg: usize = tg - depth;
    let mut cur: usize = start;
    let mut rev: Vec<usize> = Vec::new();
    rev.push(cur);
    while cg > 0
        invariant
            cg <= tg - depth,
            rev@.len() == tg - depth - cg + 1,
            rev@[0] == start,
            forall|i: int|
                0 <= i < rev@.len() ==> ix.in_group(#[trigger] rev@[i] as int, tg - depth - i),
            forall|i: int|
                #![trigger rev@[i - 1], rev@[i]]
                0 < i < rev@.len() ==> linked(ix.blocks(), rev@[i] as int, rev@[i - 1] as int),
            rev@[rev@.len() - 1] == cur,
        decreases cg,
    {
        proof {
            lemma_group_some_upto_tip(ix, cg as int);
            ix.lemma_group_height(cg as int, cur as int);
        }
        let ch = ix.block(cur).height.unwrap();
        match step_to_parent(ix, cg, cur, ch) {
            Some(j) => {
                rev.push(j);
                cur = j;
                cg = cg - 1;
            }
            None => {
                proof {
                    if full_parentage(ix, tip_group(ix)) {
                        assert(ix.in_group(cur as int, cg as int));
                        assert(false);
                    }
                }
                return Err(DiscoveryError::ParentLinkNotFound);
            }
        }
    }
    // Reverse into root-to-tip order.
    let n = rev.len();
    let mut canonical: Vec<usize> = Vec::new();
    let mut i: usize = 0;
    while i < n
        invariant
            i <= n,
            n == rev@.len(),
            canonical@.len() == i,
            forall|j: int| 0 <= j < i ==> canonical@[j] == rev@[n - 1 - j],
        decreases n - i,
    {
        canonical.push(rev[n - 1 - i]);
        i = i + 1;
    }
    proof {
        assert(is_hash_chain(ix.blocks(), canonical@)) by {
            assert forall|i2: int|
                #![trigger canonical@[i2 - 1], canonical@[i2]]
                0 < i2 < canonical@.len() implies linked(
                ix.blocks(),
                canonical@[i2 - 1] as int,
                canonical@[i2] as int,
            ) by {
                assert(canonical@[i2 - 1] == rev@[n - i2]);
                assert(canonical@[i2] == rev@[n - 1 - i2]);
                assert(linked(ix.blocks(), rev@[n - i2] as int, rev@[n - i2 - 1] as int));
            }
        }
    }
    Ok(canonical)
}

/// Collect every determinate-height position from `su_pos` on, ascending.
#[verifier::loop_isolation(false)]
fn collect_successive(ix: &HeightIndex, su_pos: usize) -> (su: Vec<usize>)
    requires
        ix.wf(),
        su_pos <= ix.blocks().len(),
    ensures
        forall|k: int|
            0 <= k < su@.len() ==> su_pos <= (#[trigger] su@[k] as int) < ix.blocks().len()
                && ix.blocks()[su@[k] as int].height is Some,
        forall|k1: int, k2: int|
            #![trigger su@[k1], su@[k2]]
            0 <= k1 < k2 < su@.len() ==> su@[k1] < su@[k2],
        forall|j: int|
            #![trigger has_pos(su@, j)]
            su_pos <= j < ix.blocks().len() && ix.blocks()[j].height is Some ==> has_pos(su@, j),
{
    let mut successive: Vec<usize> = Vec::new();
    let mut j: usize = su_pos;
    let bc = ix.block_count();
    while j < bc
        invariant
            su_pos <= j <= bc,
            forall|k2: int|
                0 <= k2 < successive@.len() ==> su_pos <= (#[trigger] successive@[k2] as int) < j
                    && ix.blocks()[successive@[k2] as int].height is Some,
            forall|k1: int, k2: int|
                #![trigger successive@[k1], successive@[k2]]
                0 <= k1 < k2 < successive@.len() ==> successive@[k1] < successive@[k2],
            forall|j2: int|
                #![trigger has_pos(successive@, j2)]
                su_pos <= j2 < j && ix.blocks()[j2].height is Some ==> has_pos(successive@, j2),
        decreases bc - j,
    {
        let keep = match ix.block(j).height {
            Some(_) => true,
            None => false,
        };
        if keep {
            let ghost old_su = successive@;
            successive.push(j);
            proof {
                assert forall|j2: int|
                    #![trigger has_pos(successive@, j2)]
                    su_pos <= j2 < j + 1 && ix.blocks()[j2].height is Some implies has_pos(
                    successive@,
                    j2,
                ) by {
                    if j2 < j {
                        assert(has_pos(old_su, j2));
                        let k2 = choose|k2: int|
                            0 <= k2 < old_su.len() && (#[trigger] old_su[k2]) as int == j2;
                        assert(successive@[k2] as int == j2);
                    } else {
                        assert(successive@[successive@.len() - 1] as int == j2);
                    }
                }
            }
        }
        j = j + 1;
    }
    successive
}

/// Backward canonical chain discovery.
///
/// The first `depth + 1` group heights must climb by exactly one from the
/// lowest group, or the walk fails with `LowConfidence`. The walk then
/// starts at the first block of the highest determinate-height group,
/// backtracks `depth` hash links to a trusted tip, and records the chain of
/// hash-linked parents from there down to the first group. Any scan over a
/// group that yields no hash-linked parent at the next lower height fails
/// with `ParentLinkNotFound`.
///
/// On success the canonical entries are one per group from the lowest up to
/// the trusted tip group, each hash-linked to the one before it; the
/// successive entries are exactly the determinate-height blocks above the
/// trusted tip group, in height order.
#[verifier::rlimit(100)]
#[verifier::spinoff_prover]
pub fn discover_backward(ix: &HeightIndex, depth: usize) -> (r: Result<Discovery, DiscoveryError>)
    requires
        ix.wf(),
    ensures
        r == Err::<Discovery, DiscoveryError>(DiscoveryError::LowConfidence) <==> !confidence_ok(
            ix,
            depth as int,
        ),
        r is Err ==> r == Err::<Discovery, DiscoveryError>(DiscoveryError::LowConfidence) || r
            == Err::<Discovery, DiscoveryError>(DiscoveryError::ParentLinkNotFound),
        confidence_ok(ix, depth as int) && full_parentage(ix, tip_group(ix)) ==> r is Ok,
        r is Ok ==> {
            let d = r.unwrap();
            let tg = tip_group(ix);
            &&& tg >= depth
            &&& is_hash_chain(ix.blocks(), d.canonical@)
            &&& d.canonical@.len() == tg - depth + 1
            &&& forall|i: int|
                0 <= i < d.canonical@.len() ==> ix.in_group(#[trigger] d.canonical@[i] as int, i)
            &&& tip_anchored(ix, depth as int, d.canonical@[d.canonical@.len() - 1])
            &&& successive_exact(ix, depth as int, d.successive@)
        },
{
    if !check_confidence(ix, depth) {
        return Err(DiscoveryError::LowConfidence);
    }
    let tg = select_tip(ix, depth);
    let (trusted, trail) = match backtrack_to_trusted(ix, tg, depth) {
        Ok(r) => r,
        Err(e) => {
            return Err(e);
        }
    };
    let canonical = match walk_chain(ix, tg, depth, trusted) {
        Ok(c) => c,
        Err(e) => {
            return Err(e);
        }
    };
    let gc = ix.group_count();
    let sg = tg - depth + 1;
    let su_pos: usize = if sg < gc {
        ix.group_start(sg)
    } else {
        ix.block_count()
    };
    proof {
        assert(su_pos as int == successive_start(ix, depth as int));
    }
    let successive = collect_successive(ix, su_pos);
    proof {
        assert(successive_exact(ix, depth as int, successive@));
        assert(canonical@[canonical@.len() - 1] == trusted);
        assert(is_hash_chain(ix.blocks(), trail@));
        assert(tip_anchored(ix, depth as int, canonical@[canonical@.len() - 1]));
    }
    Ok(Discovery { canonical, successive })
}

/// One backward step: find the hash-linked parent of `cur` (a block of group
/// `cg` at height `ch`) in the group below. Returns its position, or `None`
/// when the scan finds no parent, which on fully parented data cannot
/// happen.
#[verifier::loop_isolation(false)]
fn step_to_parent(ix: &HeightIndex, cg: usize, cur: usize, ch: u32) -> (r: Option<usize>)
    requires
        ix.wf(),
        1 <= cg < ix.starts().len(),
        ix.in_group(cur as int, cg as int),
        ix.blocks()[cur as int].height == Some(ch),
    ensures
        match r {
            Some(j) => ix.in_group(j as int, cg as int - 1) && linked(
                ix.blocks(),
                j as int,
                cur as int,
            ),
            None => !(exists|p: int|
                ix.in_group(p, cg as int - 1) && linked(ix.blocks(), p, cur as int)),
        },
{
    if ch == 0 {
        proof {
            if exists|p: int| ix.in_group(p, cg as int - 1) && linked(ix.blocks(), p, cur as int) {
                let p = choose|p: int|
                    ix.in_group(p, cg as int - 1) && linked(ix.blocks(), p, cur as int);
                assert(ix.blocks()[cur as int].height.unwrap() as int == ix.blocks()[p].height.unwrap() as int
                    + 1);
            }
        }
        return None;
    }
    let lo = ix.group_start(cg - 1);
    let hi = ix.group_start(cg);
    proof {
        assert(ix.spec_group_end(cg as int - 1) == ix.starts()[cg as int] as int);
    }
    let parent_hash = &ix.block(cur).parent_hash;
    let r = find_parent_in(ix, lo, hi, parent_hash, ch - 1);
    proof {
        match r {
            Some(j) => {
                assert(block_matches(ix.blocks()[j as int], parent_hash@, (ch - 1) as u32));
            }
            None => {
                if exists|p: int| ix.in_group(p, cg as int - 1) && linked(
                    ix.blocks(),
                    p,
                    cur as int,
                ) {
                    let p = choose|p: int|
                        ix.in_group(p, cg as int - 1) && linked(ix.blocks(), p, cur as int);
                    assert(block_matches(ix.blocks()[p], parent_hash@, (ch - 1) as u32));
                    assert(false);
                }
            }
        }
    }
    r
}

/// The canonical chain and the successive set of a backward run name no
/// common position: the chain stays in the groups up to the trusted tip,
/// the successive set starts in the group above it.
pub proof fn lemma_chain_successive_disjoint(
    ix: &HeightIndex,
    depth: int,
    canonical: Seq<usize>,
    successive: Seq<usize>,
)
    requires
        ix.wf(),
        0 <= depth <= tip_group(ix),
        tip_group(ix) < ix.starts().len(),
        canonical.len() == tip_group(ix) - depth + 1,
        forall|i: int| 0 <= i < canonical.len() ==> ix.in_group(#[trigger] canonical[i] as int, i),
        successive_exact(ix, depth, successive),
    ensures
        forall|i: int, k: int|
            #![trigger canonical[i], successive[k]]
            0 <= i < canonical.len() && 0 <= k < successive.len() ==> canonical[i] != successive[k],
{
    let tg = tip_group(ix);
    let sg = tg - depth + 1;
    assert forall|i: int, k: int|
        #![trigger canonical[i], successive[k]]
        0 <= i < canonical.len() && 0 <= k < successive.len() implies canonical[i]
        != successive[k] by {
        assert(ix.in_group(canonical[i] as int, i));
        if sg < ix.starts().len() {
            assert(i + 1 <= sg);
            if i + 1 < ix.starts().len() {
                assert(ix.starts()[i + 1] <= ix.starts()[sg]);
                assert((canonical[i] as int) < ix.starts()[sg] as int);
            } else {
                assert(false);
            }
            assert((successive[k] as int) >= successive_start(ix, depth));
        } else {
            assert((successive[k] as int) >= successive_start(ix, depth));
            assert(false);
        }
    }
}

/// With distinct file names in the index, the canonical chain and the
/// successive set of a backward run share no file name either.
pub proof fn lemma_chain_successive_distinct_names(
    ix: &HeightIndex,
    depth: int,
    canonical: Seq<usize>,
    successive: Seq<usize>,
)
    requires
        ix.wf(),
        0 <= depth <= tip_group(ix),
        tip_group(ix) < ix.starts().len(),
        canonical.len() == tip_group(ix) - depth + 1,
        forall|i: int| 0 <= i < canonical.len() ==> ix.in_group(#[trigger] canonical[i] as int, i),
        successive_exact(ix, depth, successive),
        forall|a: int, b: int|
            #![trigger ix.blocks()[a], ix.blocks()[b]]
            0 <= a < b < ix.blocks().len() ==> ix.blocks()[a].name@ != ix.blocks()[b].name@,
    ensures
        forall|i: int, k: int|
            #![trigger canonical[i], successive[k]]
            0 <= i < canonical.len() && 0 <= k < successive.len() ==> ix.blocks()[canonical[i] as int].name@
                != ix.blocks()[successive[k] as int].name@,
{
    lemma_chain_successive_disjoint(ix, depth, canonical, successive);
    assert forall|i: int, k: int|
        #![trigger canonical[i], successive[k]]
        0 <= i < canonical.len() && 0 <= k < successive.len() implies ix.blocks()[canonical[i] as int].name@
        != ix.blocks()[successive[k] as int].name@ by {
        let a = canonical[i] as int;
        let b = successive[k] as int;
        assert(ix.in_group(a, i));
        assert(a < ix.blocks().len());
        assert(b < ix.blocks().len());
        if a < b {
            assert(ix.blocks()[a].name@ != ix.blocks()[b].name@);
        } else {
            assert(b < a);
            assert(ix.blocks()[b].name@ != ix.blocks()[a].name@);
        }
    }
}

} // verus!
