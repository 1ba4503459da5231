//! Forward chain discovery: scan height groups from the lowest, and mark a
//! block canonical when a hash-linked descendant chain one confirmation
//! depth long stands on top of it; every block along such a chain is marked
//! as well. The scan stops at the first group with fewer than a full
//! confirmation depth of groups above it; everything unconfirmed from there
//! on is successive.

use vstd::prelude::*;
use crate::height_index::{HeightIndex, IndexedBlock, DiscoveryError};
use crate::discovery::Discovery;

verus! {

/// Block `b` is the hash-linked child of a block with state hash `h` one
/// height below `ht`, and can itself be extended.
pub open spec fn child_matches(b: IndexedBlock, h: Seq<char>, ht: int) -> bool {
    &&& b.parent_hash@ == h
    &&& b.height is Some
    &&& b.height.unwrap() as int == ht
    &&& b.state_hash is Some
}

/// A hash-linked descendant chain of `k` further links exists above a block
/// with state hash `h` at height `ht`.
pub open spec fn exists_chain(s: Seq<IndexedBlock>, h: Seq<char>, ht: int, k: nat) -> bool
    decreases k,
{
    k == 0 || exists|c: int|
        0 <= c < s.len() && #[trigger] child_matches(s[c], h, ht + 1) && exists_chain(
            s,
            s[c].state_hash.unwrap()@,
            ht + 1,
            (k - 1) as nat,
        )
}

/// The positions `p` name a hash-linked descendant path above a block with
/// state hash `h` at height `ht`: one block per height, each the child of
/// the one before.
pub open spec fn is_desc_path(s: Seq<IndexedBlock>, h: Seq<char>, ht: int, p: Seq<usize>) -> bool {
    &&& forall|i: int| 0 <= i < p.len() ==> (#[trigger] p[i] as int) < s.len()
    &&& (p.len() > 0 ==> child_matches(s[p[0] as int], h, ht + 1))
    &&& forall|i: int|
        #![trigger p[i - 1], p[i]]
        0 < i < p.len() ==> child_matches(
            s[p[i] as int],
            s[p[i - 1] as int].state_hash.unwrap()@,
            ht + 1 + i,
        )
}

/// Block `j` is a confirmed origin: a full confirmation depth of hash-linked
/// descendants stands above it.
pub open spec fn confirmed_origin(s: Seq<IndexedBlock>, j: int, depth: nat) -> bool {
    &&& s[j].height is Some
    &&& s[j].state_hash is Some
    &&& exists_chain(s, s[j].state_hash.unwrap()@, s[j].height.unwrap() as int, depth)
}

/// Block `j` was marked rightly: it is a confirmed origin below the
/// boundary, or stands on the descendant path of one.
pub open spec fn soundly_marked(ix: &HeightIndex, j: int, depth: nat) -> bool {
    exists|o: int, p: Seq<usize>|
        #![trigger confirmed_origin(ix.blocks(), o, depth), is_desc_path(
            ix.blocks(),
            ix.blocks()[o].state_hash.unwrap()@,
            ix.blocks()[o].height.unwrap() as int,
            p,
        )]
        {
            &&& 0 <= o < boundary_pos(ix, depth as int)
            &&& confirmed_origin(ix.blocks(), o, depth)
            &&& is_desc_path(
                ix.blocks(),
                ix.blocks()[o].state_hash.unwrap()@,
                ix.blocks()[o].height.unwrap() as int,
                p,
            )
            &&& p.len() == depth
            &&& (j == o || p.contains(j as usize))
        }
}

/// Every position of some full-depth confirming path above origin `o` is
/// marked.
pub open spec fn path_marked(s: Seq<IndexedBlock>, marked: Seq<bool>, o: int, depth: nat) -> bool {
    exists|pth: Seq<usize>|
        #![trigger is_desc_path(s, s[o].state_hash.unwrap()@, s[o].height.unwrap() as int, pth)]
        {
            &&& is_desc_path(s, s[o].state_hash.unwrap()@, s[o].height.unwrap() as int, pth)
            &&& pth.len() == depth
            &&& forall|t: int| 0 <= t < pth.len() ==> marked[#[trigger] pth[t] as int]
        }
}

/// Some full-depth confirming path above origin `o` lies entirely in the
/// canonical set.
pub open spec fn path_confirmed(
    s: Seq<IndexedBlock>,
    canonical: Seq<usize>,
    o: int,
    depth: nat,
) -> bool {
    exists|pth: Seq<usize>|
        #![trigger is_desc_path(s, s[o].state_hash.unwrap()@, s[o].height.unwrap() as int, pth)]
        {
            &&& is_desc_path(s, s[o].state_hash.unwrap()@, s[o].height.unwrap() as int, pth)
            &&& pth.len() == depth
            &&& forall|t: int| 0 <= t < pth.len() ==> canonical.contains(#[trigger] pth[t])
        }
}

/// Marking more blocks keeps every confirming path marked.
proof fn lemma_path_marked_monotone(
    s: Seq<IndexedBlock>,
    m1: Seq<bool>,
    m2: Seq<bool>,
    o: int,
    depth: nat,
)
    requires
        path_marked(s, m1, o, depth),
        m1.len() == m2.len() == s.len(),
        forall|i: int| 0 <= i < m1.len() && m1[i] ==> m2[i],
    ensures
        path_marked(s, m2, o, depth),
{
    let pth = choose|pth: Seq<usize>|
        #![trigger is_desc_path(s, s[o].state_hash.unwrap()@, s[o].height.unwrap() as int, pth)]
        {
            &&& is_desc_path(s, s[o].state_hash.unwrap()@, s[o].height.unwrap() as int, pth)
            &&& pth.len() == depth
            &&& forall|t: int| 0 <= t < pth.len() ==> m1[#[trigger] pth[t] as int]
        };
    assert(is_desc_path(s, s[o].state_hash.unwrap()@, s[o].height.unwrap() as int, pth));
    assert forall|t: int| 0 <= t < pth.len() implies m2[#[trigger] pth[t] as int] by {
        assert(m1[pth[t] as int]);
    }
}

/// Where the forward scan stops: the start of the first group without a
/// full confirmation depth of groups above it.
pub open spec fn boundary_pos(ix: &HeightIndex, depth: int) -> int {
    let bg = ix.starts().len() - depth;
    if bg <= 0 {
        0
    } else if bg < ix.starts().len() {
        ix.starts()[bg] as int
    } else {
        ix.blocks().len() as int
    }
}

/// Where the successive set begins: just above the last canonical block,
/// and never below the scan boundary. With nothing confirmed it is the
/// boundary itself.
pub open spec fn successive_from(ix: &HeightIndex, depth: int, canonical: Seq<usize>) -> int {
    let b = boundary_pos(ix, depth);
    if canonical.len() == 0 {
        b
    } else if canonical.last() as int + 1 > b {
        canonical.last() as int + 1
    } else {
        b
    }
}

/// Search for a hash-linked descendant path of `k` links above a block with
/// state hash `h` at height `ht`, trying every candidate child at each
/// height.
#[verifier::loop_isolation(false)]
fn search_chain(ix: &HeightIndex, h: &String, ht: u64, k: usize) -> (r: Option<Vec<usize>>)
    requires
        ht <= 0x1_0000_0000u64,
    ensures
        r is Some <==> exists_chain(ix.blocks(), h@, ht as int, k as nat),
        r is Some ==> {
            &&& r.unwrap()@.len() == k
            &&& is_desc_path(ix.blocks(), h@, ht as int, r.unwrap()@)
        },
    decreases k,
{
    if k == 0 {
        let empty: Vec<usize> = Vec::new();
        return Some(empty);
    }
    let n = ix.block_count();
    let mut c: usize = 0;
    while c < n
        invariant
            c <= n,
            forall|c2: int|
                0 <= c2 < c ==> !(#[trigger] child_matches(ix.blocks()[c2], h@, ht as int + 1)
                    && exists_chain(
                    ix.blocks(),
                    ix.blocks()[c2].state_hash.unwrap()@,
                    ht as int + 1,
                    (k - 1) as nat,
                )),
        decreases n - c,
    {
        let b = ix.block(c);
        let height_hits = match b.height {
            Some(v) => v as u64 == ht + 1,
            None => false,
        };
        if height_hits {
            let hash_hits = b.parent_hash == *h;
            if hash_hits {
                match &b.state_hash {
                    Some(sh) => {
                        match search_chain(ix, sh, ht + 1, k - 1) {
                            Some(rest) => {
                                let mut path: Vec<usize> = Vec::new();
                                path.push(c);
                                let mut t: usize = 0;
                                while t < rest.len()
                                    invariant
                                        t <= rest@.len(),
                                        path@.len() == t + 1,
                                        path@[0] == c,
                                        forall|i: int| 0 < i <= t ==> path@[i] == rest@[i - 1],
                                    decreases rest@.len() - t,
                                {
                                    path.push(rest[t]);
                                    t = t + 1;
                                }
                                proof {
                                    assert(child_matches(ix.blocks()[c as int], h@, ht as int + 1));
                                    assert(is_desc_path(ix.blocks(), h@, ht as int, path@)) by {
                                        assert forall|i: int|
                                            #![trigger path@[i]]
                                            0 < i < path@.len() implies child_matches(
                                            ix.blocks()[path@[i] as int],
                                            ix.blocks()[path@[i - 1] as int].state_hash.unwrap()@,
                                            ht as int + 1 + i,
                                        ) by {
                                            if i == 1 {
                                                assert(path@[1] == rest@[0]);
                                            } else {
                                                assert(path@[i] == rest@[i - 1]);
                                                assert(path@[i - 1] == rest@[i - 2]);
                                                assert(child_matches(
                                                    ix.blocks()[rest@[i - 1] as int],
                                                    ix.blocks()[rest@[i - 2] as int].state_hash.unwrap()@,
                                                    ht as int + 1 + i,
                                                ));
                                            }
                                        }
                                    }
                                }
                                return Some(path);
                            }
                            None => {}
                        }
                    }
                    None => {}
                }
            }
        }
        c = c + 1;
    }
    None
}

/// Mark `j` in the mark table.
fn mark(marked: &mut Vec<bool>, j: usize)
    requires
        j < old(marked)@.len(),
    ensures
        final(marked)@.len() == old(marked)@.len(),
        final(marked)@[j as int] == true,
        forall|i: int| 0 <= i < old(marked)@.len() && i != j ==> final(marked)@[i] == old(marked)@[i],
        forall|i: int| 0 <= i < old(marked)@.len() && old(marked)@[i] ==> final(marked)@[i],
{
    marked.set(j, true);
}

/// Mark every confirmed origin below the boundary and the blocks of its
/// confirming path.
#[verifier::loop_isolation(false)]
#[verifier::rlimit(100)]
#[verifier::spinoff_prover]
fn mark_canonical(ix: &HeightIndex, depth: usize, su_pos: usize, n: usize) -> (marked: Vec<bool>)
    requires
        ix.wf(),
        n == ix.blocks().len(),
        su_pos <= n,
        su_pos as int == boundary_pos(ix, depth as int),
    ensures
        marked@.len() == n,
        forall|p: int| 0 <= p < n && #[trigger] marked@[p] ==> soundly_marked(ix, p, depth as nat),
        forall|p: int|
            0 <= p < su_pos && confirmed_origin(ix.blocks(), p, depth as nat)
                ==> #[trigger] marked@[p],
        forall|p: int|
            0 <= p < su_pos && confirmed_origin(ix.blocks(), p, depth as nat) ==> path_marked(
                ix.blocks(),
                marked@,
                p,
                depth as nat,
            ),
{
    let mut marked: Vec<bool> = Vec::new();
    let mut i: usize = 0;
    while i < n
        invariant
            marked@.len() == i <= n,
            forall|p: int| 0 <= p < i ==> !(#[trigger] marked@[p]),
        decreases n - i,
    {
        marked.push(false);
        i = i + 1;
    }

    // Try every block below the boundary as an origin.
    let mut j: usize = 0;
    while j < su_pos
        invariant
            j <= su_pos <= n,
            marked@.len() == n,
            forall|p: int| 0 <= p < n && #[trigger] marked@[p] ==> soundly_marked(ix, p, depth as nat),
            forall|p: int|
                0 <= p < j && confirmed_origin(ix.blocks(), p, depth as nat) ==> #[trigger] marked@[p],
            forall|p: int|
                0 <= p < j && confirmed_origin(ix.blocks(), p, depth as nat) ==> path_marked(
                    ix.blocks(),
                    marked@,
                    p,
                    depth as nat,
                ),
        decreases su_pos - j,
    {
        let b = ix.block(j);
        let hv = match b.height {
            Some(v) => v,
            None => {
                j = j + 1;
                continue ;
            }
        };
        let sh = match &b.state_hash {
            Some(sh) => sh,
            None => {
                j = j + 1;
                continue ;
            }
        };
        match search_chain(ix, sh, hv as u64, depth) {
            Some(path) => {
                let ghost pathv = path@;
                let ghost pre_marks = marked@;
                mark(&mut marked, j);
                proof {
                    assert(confirmed_origin(ix.blocks(), j as int, depth as nat));
                    assert(is_desc_path(
                        ix.blocks(),
                        ix.blocks()[j as int].state_hash.unwrap()@,
                        ix.blocks()[j as int].height.unwrap() as int,
                        pathv,
                    ));
                    assert(soundly_marked(ix, j as int, depth as nat)) by {
                        assert((j as int) < boundary_pos(ix, depth as int));
                    }
                    assert forall|p: int|
                        0 <= p < j && confirmed_origin(ix.blocks(), p, depth as nat) implies path_marked(
                        ix.blocks(),
                        marked@,
                        p,
                        depth as nat,
                    ) by {
                        lemma_path_marked_monotone(
                            ix.blocks(),
                            pre_marks,
                            marked@,
                            p,
                            depth as nat,
                        );
                    }
                }
                let mut t: usize = 0;
                while t < path.len()
                    invariant
                        t <= pathv.len(),
                        path@ == pathv,
                        marked@.len() == n,
                        forall|p: int|
                            0 <= p < n && #[trigger] marked@[p] ==> soundly_marked(
                                ix,
                                p,
                                depth as nat,
                            ),
                        forall|p: int|
                            0 <= p <= j && confirmed_origin(ix.blocks(), p, depth as nat)
                                ==> #[trigger] marked@[p],
                        forall|p: int|
                            0 <= p < j && confirmed_origin(ix.blocks(), p, depth as nat)
                                ==> path_marked(ix.blocks(), marked@, p, depth as nat),
                        forall|t2: int| 0 <= t2 < t ==> marked@[#[trigger] pathv[t2] as int],
                    decreases pathv.len() - t,
                {
                    let e = path[t];
                    let ghost step_marks = marked@;
                    mark(&mut marked, e);
                    proof {
                        assert(confirmed_origin(ix.blocks(), j as int, depth as nat));
                        assert(is_desc_path(
                            ix.blocks(),
                            ix.blocks()[j as int].state_hash.unwrap()@,
                            ix.blocks()[j as int].height.unwrap() as int,
                            pathv,
                        ));
                        assert(pathv.contains(pathv[t as int]));
                        assert(soundly_marked(ix, e as int, depth as nat));
                        assert forall|p: int|
                            0 <= p < j && confirmed_origin(ix.blocks(), p, depth as nat) implies path_marked(
                            ix.blocks(),
                            marked@,
                            p,
                            depth as nat,
                        ) by {
                            lemma_path_marked_monotone(
                                ix.blocks(),
                                step_marks,
                                marked@,
                                p,
                                depth as nat,
                            );
                        }
                    }
                    t = t + 1;
                }
                proof {
                    assert(path_marked(ix.blocks(), marked@, j as int, depth as nat)) by {
                        assert(is_desc_path(
                            ix.blocks(),
                            ix.blocks()[j as int].state_hash.unwrap()@,
                            ix.blocks()[j as int].height.unwrap() as int,
                            pathv,
                        ));
                        assert(forall|t2: int|
                            0 <= t2 < pathv.len() ==> marked@[#[trigger] pathv[t2] as int]);
                    }
                }
            }
            None => {}
        }
        j = j + 1;
    }

    marked
}

/// Collect the marked positions in ascending order.
#[verifier::loop_isolation(false)]
fn collect_marked(ix: &HeightIndex, depth: usize, marked: &Vec<bool>) -> (canonical: Vec<usize>)
    requires
        marked@.len() == ix.blocks().len(),
        forall|p: int|
            0 <= p < marked@.len() && #[trigger] marked@[p] ==> soundly_marked(
                ix,
                p,
                depth as nat,
            ),
    ensures
        forall|k: int|
            0 <= k < canonical@.len() ==> (#[trigger] canonical@[k] as int) < marked@.len()
                && marked@[canonical@[k] as int],
        forall|k1: int, k2: int|
            #![trigger canonical@[k1], canonical@[k2]]
            0 <= k1 < k2 < canonical@.len() ==> canonical@[k1] < canonical@[k2],
        forall|q: int|
            0 <= q < marked@.len() && #[trigger] marked@[q] ==> exists|k: int|
                0 <= k < canonical@.len() && #[trigger] canonical@[k] as int == q,
        forall|k: int|
            0 <= k < canonical@.len() ==> soundly_marked(
                ix,
                #[trigger] canonical@[k] as int,
                depth as nat,
            ),
{
    let n = marked.len();
    let mut canonical: Vec<usize> = Vec::new();
    let mut p: usize = 0;
    while p < n
        invariant
            p <= n,
            marked@.len() == n,
            forall|k: int|
                0 <= k < canonical@.len() ==> (#[trigger] canonical@[k] as int) < p && marked@[canonical@[k] as int],
            forall|k1: int, k2: int|
                #![trigger canonical@[k1], canonical@[k2]]
                0 <= k1 < k2 < canonical@.len() ==> canonical@[k1] < canonical@[k2],
            forall|q: int|
                0 <= q < p && marked@[q] ==> exists|k: int|
                    0 <= k < canonical@.len() && #[trigger] canonical@[k] as int == q,
        decreases n - p,
    {
        if marked[p] {
            let ghost old_c = canonical@;
            canonical.push(p);
            proof {
                assert forall|q: int| 0 <= q < p + 1 && marked@[q] implies exists|k: int|
                    0 <= k < canonical@.len() && #[trigger] canonical@[k] as int == q by {
                    if q < p {
                        let k = choose|k: int| 0 <= k < old_c.len() && #[trigger] old_c[k] as int == q;
                        assert(canonical@[k] as int == q);
                    } else {
                        assert(canonical@[canonical@.len() - 1] as int == q);
                    }
                }
            }
        }
        p = p + 1;
    }

    canonical
}

/// Whatever the mark table promises of an origin carries over to the
/// collected canonical set: the origin itself and a full confirming path
/// above it are all in it.
proof fn lemma_origins_confirmed(
    ix: &HeightIndex,
    depth: nat,
    marked: Seq<bool>,
    canonical: Seq<usize>,
    bpos: int,
)
    requires
        marked.len() == ix.blocks().len(),
        bpos <= marked.len(),
        forall|p: int|
            0 <= p < bpos && confirmed_origin(ix.blocks(), p, depth) ==> #[trigger] marked[p],
        forall|p: int|
            0 <= p < bpos && confirmed_origin(ix.blocks(), p, depth) ==> path_marked(
                ix.blocks(),
                marked,
                p,
                depth,
            ),
        forall|q: int|
            0 <= q < marked.len() && #[trigger] marked[q] ==> exists|k: int|
                0 <= k < canonical.len() && #[trigger] canonical[k] as int == q,
    ensures
        forall|j: int|
            #![trigger canonical.contains(j as usize)]
            0 <= j < bpos && confirmed_origin(ix.blocks(), j, depth) ==> canonical.contains(
                j as usize,
            ),
        forall|j: int|
            #![trigger path_confirmed(ix.blocks(), canonical, j, depth)]
            0 <= j < bpos && confirmed_origin(ix.blocks(), j, depth) ==> path_confirmed(
                ix.blocks(),
                canonical,
                j,
                depth,
            ),
{
    let s = ix.blocks();
    assert forall|j: int|
        0 <= j < bpos && confirmed_origin(s, j, depth) implies canonical.contains(
        j as usize,
    ) by {
        assert(marked[j]);
        let k = choose|k: int| 0 <= k < canonical.len() && #[trigger] canonical[k] as int == j;
        assert(canonical[k] == j as usize);
    }
    assert forall|j: int|
        0 <= j < bpos && confirmed_origin(s, j, depth) implies path_confirmed(
        s,
        canonical,
        j,
        depth,
    ) by {
        assert(path_marked(s, marked, j, depth));
        let pth = choose|pth: Seq<usize>|
            #![trigger is_desc_path(s, s[j].state_hash.unwrap()@, s[j].height.unwrap() as int, pth)]
            {
                &&& is_desc_path(s, s[j].state_hash.unwrap()@, s[j].height.unwrap() as int, pth)
                &&& pth.len() == depth
                &&& forall|t: int| 0 <= t < pth.len() ==> marked[#[trigger] pth[t] as int]
            };
        assert(is_desc_path(s, s[j].state_hash.unwrap()@, s[j].height.unwrap() as int, pth));
        assert forall|t: int| 0 <= t < pth.len() implies canonical.contains(
            #[trigger] pth[t],
        ) by {
            assert(marked[pth[t] as int]);
            let k = choose|k: int|
                0 <= k < canonical.len() && #[trigger] canonical[k] as int == pth[t] as int;
            assert(canonical[k] == pth[t]);
        }
    }
}

/// Forward canonical chain discovery.
///
/// Every block below the boundary is tried as an origin; when a hash-linked
/// descendant chain `depth` links long stands above it, the origin and every
/// block on that chain are canonical. The successive entries are exactly
/// the blocks above the last confirmed block, from the boundary at the
/// earliest: what is left once canonicality can no longer be decided.
#[verifier::loop_isolation(false)]
#[verifier::rlimit(100)]
#[verifier::spinoff_prover]
pub fn discover_forward(ix: &HeightIndex, depth: usize) -> (r: Result<Discovery, DiscoveryError>)
    requires
        ix.wf(),
    ensures
        r is Ok,
        ({
            let d = r.unwrap();
            let s = ix.blocks();
            let b = boundary_pos(ix, depth as int);
            &&& forall|k: int|
                0 <= k < d.canonical@.len() ==> (#[trigger] d.canonical@[k] as int) < s.len()
            &&& forall|k1: int, k2: int|
                #![trigger d.canonical@[k1], d.canonical@[k2]]
                0 <= k1 < k2 < d.canonical@.len() ==> d.canonical@[k1] < d.canonical@[k2]
            &&& forall|k: int|
                0 <= k < d.canonical@.len() ==> soundly_marked(
                    ix,
                    #[trigger] d.canonical@[k] as int,
                    depth as nat,
                )
            &&& forall|j: int|
                #![trigger d.canonical@.contains(j as usize)]
                0 <= j < b && confirmed_origin(s, j, depth as nat) ==> d.canonical@.contains(
                    j as usize,
                )
            &&& forall|j: int|
                #![trigger path_confirmed(s, d.canonical@, j, depth as nat)]
                0 <= j < b && confirmed_origin(s, j, depth as nat) ==> path_confirmed(
                    s,
                    d.canonical@,
                    j,
                    depth as nat,
                )
            &&& d.successive@.len() == s.len() - successive_from(ix, depth as int, d.canonical@)
            &&& forall|k: int|
                0 <= k < d.successive@.len() ==> (#[trigger] d.successive@[k] as int)
                    == successive_from(ix, depth as int, d.canonical@) + k
        }),
{
    let n = ix.block_count();
    let gc = ix.group_count();
    // The first unscanned group and its start position.
    let su_pos: usize = if gc > depth {
        let bg = gc - depth;
        if bg < gc {
            ix.group_start(bg)
        } else {
            n
        }
    } else {
        0
    };
    proof {
        assert(su_pos as int == boundary_pos(ix, depth as int));
    }

    let marked = mark_canonical(ix, depth, su_pos, n);
    let canonical = collect_marked(ix, depth, &marked);

    // The successive set: everything above the last confirmed block, from
    // the boundary at the earliest.
    let su_start: usize = if canonical.len() == 0 {
        su_pos
    } else {
        let last = canonical[canonical.len() - 1];
        if last + 1 > su_pos {
            last + 1
        } else {
            su_pos
        }
    };
    let mut successive: Vec<usize> = Vec::new();
    let mut q: usize = su_start;
    while q < n
        invariant
            su_start <= q <= n,
            successive@.len() == q - su_start,
            forall|k: int|
                0 <= k < successive@.len() ==> (#[trigger] successive@[k] as int) == su_start + k,
        decreases n - q,
    {
        successive.push(q);
        q = q + 1;
    }

    proof {
        lemma_origins_confirmed(
            ix,
            depth as nat,
            marked@,
            canonical@,
            boundary_pos(ix, depth as int),
        );
        assert(su_start as int == successive_from(ix, depth as int, canonical@));
    }
    Ok(Discovery { canonical, successive })
}

/// The canonical set and the successive set of a forward run name no
/// common position: the successive set starts strictly above the last
/// canonical block.
pub proof fn lemma_forward_disjoint(
    ix: &HeightIndex,
    depth: int,
    canonical: Seq<usize>,
    successive: Seq<usize>,
)
    requires
        forall|k1: int, k2: int|
            #![trigger canonical[k1], canonical[k2]]
            0 <= k1 < k2 < canonical.len() ==> canonical[k1] < canonical[k2],
        successive.len() == ix.blocks().len() - successive_from(ix, depth, canonical),
        forall|k: int|
            0 <= k < successive.len() ==> (#[trigger] successive[k] as int) == successive_from(
                ix,
                depth,
                canonical,
            ) + k,
        0 <= boundary_pos(ix, depth),
    ensures
        forall|i: int, k: int|
            #![trigger canonical[i], successive[k]]
            0 <= i < canonical.len() && 0 <= k < successive.len() ==> canonical[i] != successive[k],
{
    assert forall|i: int, k: int|
        #![trigger canonical[i], successive[k]]
        0 <= i < canonical.len() && 0 <= k < successive.len() implies canonical[i]
        != successive[k] by {
        if i < canonical.len() - 1 {
            assert(canonical[i] < canonical[canonical.len() - 1]);
        }
        assert(canonical[i] as int <= canonical.last() as int);
        assert((successive[k] as int) >= successive_from(ix, depth, canonical));
    }
}

} // verus!
