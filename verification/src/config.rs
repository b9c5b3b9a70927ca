//! Run-wide matching configuration.
//!
//! A `Config` is an immutable policy record: which dataset's score tables are
//! used, how normalized scores are decomposed into radix digits
//! (`block_length` bits per digit, `num_blocks` digits), the digit width all
//! features are padded to before summation (`num_blocks_sum`), how many
//! per-feature score tables exist (`num_tables`), and the decision threshold
//! in the source (signed) score domain.

use vstd::prelude::*;

verus! {

/// Immutable matching policy for one run.
pub struct Config {
    pub data_set_name: &'static str,
    pub num_blocks: usize,
    pub num_blocks_sum: usize,
    pub block_length: usize,
    pub num_tables: usize,
    pub threshold: i64,
}

impl Config {
    /// A configuration is usable when its radix parameters are small enough
    /// that every decomposed digit and every reconstructed sum fits the
    /// machine arithmetic the pipeline performs in `u64`.
    pub open spec fn wf(self) -> bool {
        &&& 1 <= self.block_length <= 8
        &&& 1 <= self.num_blocks <= 8
        &&& self.num_blocks <= self.num_blocks_sum <= 8
        &&& self.num_tables >= 1
    }
}

/// Preset for the BMDB dataset: 2-bit digits, 6 blocks, 36 features.
pub fn bmdb1() -> (c: Config)
    ensures
        c.wf(),
        c.block_length == 2,
        c.num_blocks == 6,
        c.num_blocks_sum == 6,
        c.num_tables == 36,
        c.threshold == 14,
{
    Config {
        data_set_name: "BMDB",
        num_blocks: 6,
        num_blocks_sum: 6,
        block_length: 2,
        num_tables: 36,
        threshold: 14,
    }
}

/// Alternative BMDB preset: 3-bit digits, 4 blocks.
pub fn bmdb2() -> (c: Config)
    ensures
        c.wf(),
        c.block_length == 3,
        c.num_blocks == 4,
        c.num_blocks_sum == 4,
        c.num_tables == 36,
        c.threshold == 14,
{
    Config {
        data_set_name: "BMDB",
        num_blocks: 4,
        num_blocks_sum: 4,
        block_length: 3,
        num_tables: 36,
        threshold: 14,
    }
}

/// Preset for the PUT dataset: 49 features, negative source threshold.
pub fn put() -> (c: Config)
    ensures
        c.wf(),
        c.block_length == 3,
        c.num_blocks == 4,
        c.num_tables == 49,
        c.threshold == -53,
{
    Config {
        data_set_name: "PUT",
        num_blocks: 4,
        num_blocks_sum: 4,
        block_length: 3,
        num_tables: 49,
        threshold: -53,
    }
}

/// Preset for the FRGC dataset: 94 features.
pub fn frgc() -> (c: Config)
    ensures
        c.wf(),
        c.block_length == 3,
        c.num_blocks == 4,
        c.num_tables == 94,
        c.threshold == -1,
{
    Config {
        data_set_name: "FRGC",
        num_blocks: 4,
        num_blocks_sum: 4,
        block_length: 3,
        num_tables: 94,
        threshold: -1,
    }
}

} // verus!
