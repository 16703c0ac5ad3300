//! An array without parity blocks: nothing to compute, and nothing can be
//! rebuilt.

use vstd::prelude::*;
use crate::raid::RaidError;

verus! {

/// There are no parity blocks to compute.
pub fn format(blocks: &[Vec<u8>]) {
}

/// There are no parity blocks to bring up to date.
pub fn update(j: usize, before: &[u8], after: &[u8]) {
}

/// There are no parity blocks to bring up to date.
pub fn add(j: usize, new: &[u8]) {
}

/// There are no parity blocks to bring up to date.
pub fn remove(j: usize, old_block: &[u8]) {
}

/// Nothing can be rebuilt: fails when any block is listed, and leaves the
/// blocks as they are.
pub fn repair(blocks: &mut [Vec<u8>], bad: &[usize]) -> (res: Result<(), RaidError>)
    ensures
        res is Err <==> bad@.len() > 0,
        final(blocks)@ == old(blocks)@,
{
    if bad.len() > 0 {
        Err(RaidError::TooManyBadBlocks)
    } else {
        Ok(())
    }
}

} // verus!
