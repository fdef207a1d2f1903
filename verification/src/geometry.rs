//! The lane geometry: how far a stone travels in one move.

use vstd::prelude::*;

verus! {

/// The side that moves first; its lanes run left to right.
pub const YELLO: usize = 0;

/// The other side; its lanes run top to bottom.
pub const XULOS: usize = 1;

/// Step sizes, indexed by side, then leg (0 outbound, 1 return), then stone.
/// Stones are numbered 1 to 5; entry 0 of each row is unused.
pub const STEP: [[[usize; 6]; 2]; 2] = [
    [[0, 3, 1, 2, 1, 3], [0, 1, 3, 2, 3, 1]],
    [[0, 1, 3, 2, 3, 1], [0, 3, 1, 2, 1, 3]],
];

/// The step size of `stone` of `side` on leg `leg`, as a mathematical integer.
pub open spec fn step_size(side: int, leg: int, stone: int) -> int {
    STEP[side][leg][stone] as int
}

/// Every stone advances by one, two or three slots.
pub proof fn lemma_step_size_bounds(side: int, leg: int, stone: int)
    requires
        0 <= side < 2,
        0 <= leg < 2,
        1 <= stone <= 5,
    ensures
        1 <= step_size(side, leg, stone) <= 3,
{
}

/// Reads the lane table.
pub fn step_of(side: usize, leg: usize, stone: usize) -> (r: usize)
    requires
        side < 2,
        leg < 2,
        1 <= stone <= 5,
    ensures
        r == step_size(side as int, leg as int, stone as int),
        1 <= r <= 3,
{
    STEP[side][leg][stone]
}

} // verus!
