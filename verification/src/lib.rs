//! Utilities for working with Mina block files.
//!
//! The core is canonical chain discovery: block file names carry a height
//! and a state hash, the file content carries the parent's state hash at a
//! fixed offset, and two strategies decide which blocks form the one
//! hash-linked canonical chain and which are merely successive. A backward
//! walk descends parent links from the highest trusted tip; a forward scan
//! confirms every block that carries a full confirmation depth of
//! hash-linked descendants.
//!
//! Around the core stand the helpers the block tooling shares: decimal
//! parsing and rendering, bucket query lines, height padding in file names,
//! a toy account ledger, and the output normalizer's argument surface.

pub mod account;
pub mod backward_discovery;
pub mod block;
pub mod common;
pub mod conversion;
pub mod custom_types;
pub mod block_file;
pub mod discovery;
pub mod forward_discovery;
pub mod height_index;
pub mod hello_world;
pub mod ledger;
pub mod padding;
pub mod peano;
pub mod queries;
pub mod normalized;
pub mod normalizer;
pub mod numerals;
pub mod report;
pub mod version;
pub mod voting;

use vstd::prelude::*;

verus! {

} // verus!
