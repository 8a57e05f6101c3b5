//! Block range index over the e-mails of an archive: each block records
//! where a run of e-mails starts and ends.
use vstd::prelude::*;

verus! {

/// One block of the index.
#[derive(Debug, Clone)]
pub struct BRIN {
    /// Each epoch may have several blocks, ordered by block number.
    pub block_number: usize,
    /// Number of entities in the block.
    pub block_size: usize,
    /// The global order id of the block's start; its end is at the start
    /// plus the block size.
    pub global_block_offset: usize,
    /// The entity id of the block's first entity.
    pub block_start: String,
    /// The entity id of the block's last entity.
    pub block_end: String,
}

} // verus!
