//! Time and blocks.

use vstd::prelude::*;

verus! {

/// A point in time or a duration, in milliseconds.
pub type Moment = u64;

/// A block height, or a duration counted in blocks.
pub type BlockNumber = u32;

/// Target time between two blocks.
pub const MILLISECS_PER_BLOCK: Moment = 6000;

/// Length of a block production slot.
pub const SLOT_DURATION: Moment = MILLISECS_PER_BLOCK;

/// One minute, in blocks: 60 000 ms at one block per `MILLISECS_PER_BLOCK`.
pub const MINUTES: BlockNumber = 10;

/// One hour, in blocks.
pub const HOURS: BlockNumber = MINUTES * 60;

/// One day, in blocks.
pub const DAYS: BlockNumber = HOURS * 24;

/// Length of an epoch, in blocks.
pub const EPOCH_DURATION_IN_BLOCKS: BlockNumber = 10 * MINUTES;

/// On average one block in four (collisions aside) is a primary slot block.
pub const PRIMARY_PROBABILITY: (u64, u64) = (1, 4);

/// The number of blocks produced in `ms` milliseconds of slots, rounded down.
pub open spec fn blocks_in(ms: int) -> int {
    ms / MILLISECS_PER_BLOCK as int
}

/// The number of whole blocks produced in `ms` milliseconds.
pub fn blocks_in_millis(ms: Moment) -> (r: Moment)
    ensures
        r == blocks_in(ms as int),
{
    ms / MILLISECS_PER_BLOCK
}

/// The block counts of the time units agree with the slot duration.
pub proof fn lemma_time_units()
    ensures
        MINUTES == blocks_in(60_000),
        HOURS == blocks_in(3_600_000),
        DAYS == blocks_in(86_400_000),
{
}

} // verus!
