//! The chain report: the canonical chain's file names in root-to-tip order
//! followed by the successive file names, rendered one name per line for the
//! output sink.

use vstd::prelude::*;
use crate::height_index::HeightIndex;
use crate::discovery::Discovery;

verus! {

use vstd::string::StringExecFns;

/// The two ordered name lists a discovery run produces.
pub struct ChainReport {
    pub canonical: Vec<String>,
    pub successive: Vec<String>,
}

/// The views of a list of names.
pub open spec fn views_of(v: Seq<String>) -> Seq<Seq<char>> {
    v.map_values(|s: String| s@)
}

/// The names joined with one line break after each.
pub open spec fn lines_of(names: Seq<Seq<char>>) -> Seq<char>
    decreases names.len(),
{
    if names.len() == 0 {
        Seq::<char>::empty()
    } else {
        lines_of(names.drop_last()) + names.last() + seq!['\n']
    }
}

impl ChainReport {
    /// Resolve a discovery result to the file names it points at.
    pub fn from_discovery(ix: &HeightIndex, d: &Discovery) -> (r: ChainReport)
        requires
            forall|k: int|
                0 <= k < d.canonical@.len() ==> (#[trigger] d.canonical@[k] as int)
                    < ix.blocks().len(),
            forall|k: int|
                0 <= k < d.successive@.len() ==> (#[trigger] d.successive@[k] as int)
                    < ix.blocks().len(),
        ensures
            r.canonical@.len() == d.canonical@.len(),
            forall|k: int|
                0 <= k < d.canonical@.len() ==> (#[trigger] r.canonical@[k])@
                    == ix.blocks()[d.canonical@[k] as int].name@,
            r.successive@.len() == d.successive@.len(),
            forall|k: int|
                0 <= k < d.successive@.len() ==> (#[trigger] r.successive@[k])@
                    == ix.blocks()[d.successive@[k] as int].name@,
    {
        let mut canonical: Vec<String> = Vec::new();
        let mut i: usize = 0;
        let nc = d.canonical.len();
        while i < nc
            invariant
                i <= nc == d.canonical@.len(),
                canonical@.len() == i,
                forall|k: int|
                    0 <= k < d.canonical@.len() ==> (#[trigger] d.canonical@[k] as int)
                        < ix.blocks().len(),
                forall|k: int|
                    0 <= k < i ==> (#[trigger] canonical@[k])@ == ix.blocks()[d.canonical@[k] as int].name@,
            decreases nc - i,
        {
            canonical.push(ix.block(d.canonical[i]).name.clone());
            i = i + 1;
        }
        let mut successive: Vec<String> = Vec::new();
        let mut j: usize = 0;
        let ns = d.successive.len();
        while j < ns
            invariant
                j <= ns == d.successive@.len(),
                successive@.len() == j,
                forall|k: int|
                    0 <= k < d.successive@.len() ==> (#[trigger] d.successive@[k] as int)
                        < ix.blocks().len(),
                forall|k: int|
                    0 <= k < j ==> (#[trigger] successive@[k])@ == ix.blocks()[d.successive@[k] as int].name@,
            decreases ns - j,
        {
            successive.push(ix.block(d.successive[j]).name.clone());
            j = j + 1;
        }
        ChainReport { canonical, successive }
    }

    /// Render the report: every canonical name, then every successive name,
    /// one per line.
    pub fn render(&self) -> (out: String)
        ensures
            out@ == lines_of(views_of(self.canonical@) + views_of(self.successive@)),
    {
        proof {
            reveal_strlit("\n");
        }
        let mut out = String::new();
        let mut i: usize = 0;
        let nc = self.canonical.len();
        while i < nc
            invariant
                i <= nc == self.canonical@.len(),
                out@ == lines_of(views_of(self.canonical@).take(i as int)),
            decreases nc - i,
        {
            let ghost pre = views_of(self.canonical@).take(i as int);
            out.append(self.canonical[i].as_str());
            out.append("\n");
            proof {
                reveal_strlit("\n");
                let post = views_of(self.canonical@).take(i + 1);
                assert(post.drop_last() =~= pre);
                assert(post.last() == self.canonical@[i as int]@);
                assert(out@ =~= lines_of(post));
            }
            i = i + 1;
        }
        proof {
            assert(views_of(self.canonical@).take(nc as int) =~= views_of(self.canonical@));
        }
        let mut j: usize = 0;
        let ns = self.successive.len();
        while j < ns
            invariant
                j <= ns == self.successive@.len(),
                out@ == lines_of(
                    views_of(self.canonical@) + views_of(self.successive@).take(j as int),
                ),
            decreases ns - j,
        {
            let ghost pre = views_of(self.canonical@) + views_of(self.successive@).take(j as int);
            out.append(self.successive[j].as_str());
            out.append("\n");
            proof {
                reveal_strlit("\n");
                let post = views_of(self.canonical@) + views_of(self.successive@).take(j + 1);
                assert(post.drop_last() =~= pre);
                assert(post.last() == self.successive@[j as int]@);
                assert(out@ =~= lines_of(post));
            }
            j = j + 1;
        }
        proof {
            assert(views_of(self.canonical@) + views_of(self.successive@).take(ns as int)
                =~= views_of(self.canonical@) + views_of(self.successive@));
        }
        out
    }
}

} // verus!
