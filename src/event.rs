//! The events that the machine emits, and its error kinds.
use vstd::prelude::*;

verus! {

/// The errors that the machine records as events.
#[derive(Clone, Copy, Debug, PartialEq, Eq, Hash, Structural)]
pub enum VMError {
    StackUnderflow,
    InvalidOpcode(i64),
    InvalidJump(i64),
    ReturnStackUnderflow,
    InvalidEvolve(i64),
}

/// What the machine tells its observer. `Opcode` carries the opcode and the
/// stack depth before it ran, bucketed at `MAX_DEPTH_BUCKET`.
#[derive(Clone, Copy, Debug, PartialEq, Eq, Hash, Structural)]
pub enum Event {
    Opcode { opcode: i64, stack_depth: usize },
    Context(u8),
    MemoryRead,
    MemoryWrite,
    Reward(u8),
    Error(VMError),
}

/// Depths from this one up share a bucket.
pub const MAX_DEPTH_BUCKET: usize = 5;

pub open spec fn bucket_of(depth: nat) -> usize {
    if depth < MAX_DEPTH_BUCKET {
        depth as usize
    } else {
        MAX_DEPTH_BUCKET
    }
}

/// The canonical depth key: `min(depth, MAX_DEPTH_BUCKET)`.
pub fn normalize_depth(depth: usize) -> (r: usize)
    ensures
        r == bucket_of(depth as nat),
{
    if depth < MAX_DEPTH_BUCKET {
        depth
    } else {
        MAX_DEPTH_BUCKET
    }
}

} // verus!
