//! Shared configuration of the discovery subcommands: where the block files
//! live, where the report goes, and the network's fixed tuning values.

use vstd::prelude::*;

verus! {

/// Arguments shared by both discovery subcommands.
pub struct SubcommandArgs {
    /// Path to the blocks directory.
    pub blocks_dir: String,
    /// File to output the list of canonical blocks to.
    pub output_file: String,
}

/// How often, in blocks, a walk reports its progress.
pub const BLOCK_REPORTING_FREQ: u32 = 5000;

/// How many confirming descendants a mainnet block needs before it counts
/// as canonical.
pub const MAINNET_CANONICAL_THRESHOLD: u32 = 10;

/// Arguments of the contiguous block download: which lengths to fetch and
/// where to put them.
pub struct ContiguousArgs {
    /// File to write queries to.
    pub query_file: String,
    /// Directory to dump blocks into.
    pub blocks_dir: String,
    /// Start block length.
    pub start: usize,
    /// Number of block lengths to download.
    pub num: usize,
}

/// Arguments of the new-blocks download: where the queries, blocks and
/// listing live, and how far back to reach.
pub struct NewArgs {
    /// File to write queries to.
    pub query_file: String,
    /// Directory to dump blocks into.
    pub blocks_dir: String,
    /// File to write the bucket listing to.
    pub ls_file: String,
    /// The number of block lengths below the current max to query.
    pub buffer: u32,
    /// Start downloading all blocks at or above this length.
    pub start: Option<u32>,
    /// Download strictly blocks above the current max height.
    pub strict: bool,
    /// Name of the bucket.
    pub bucket: String,
    /// Name of the network.
    pub network: String,
    /// Skip the listing file creation.
    pub skip_ls_file: bool,
}

} // verus!
