//! A toy block: a producer key, the ledger diff it carries, and its weight.

use vstd::prelude::*;
use crate::ledger::LedgerDiff;

verus! {

use vstd::string::StringExecFns;

/// One block of the toy chain.
#[derive(Clone)]
pub struct Block {
    pub pk: String,
    pub diff: LedgerDiff,
    pub weight: u32,
}

impl Block {
    /// A block produced by `pk` with the given weight and diff.
    pub fn new(pk: &str, weight: u32, diff: LedgerDiff) -> (b: Block)
        ensures
            b.pk@ == pk@,
            b.weight == weight,
            b.diff == diff,
    {
        Block { pk: String::from_str(pk), diff, weight }
    }
}

} // verus!
