//! Evaluation functions: scores of a board, higher is better for the first
//! side. Each is a function of the board alone.

use vstd::prelude::*;
use crate::geometry::{step_of, step_size, XULOS, YELLO};
use crate::state::State;

verus! {

/// The number of moves of `step` slots each that cover `distance` slots:
/// `distance / step`, rounded up.
pub open spec fn moves_for(distance: int, step: int) -> int {
    (distance + step - 1) / step
}

impl State {
    /// The number of moves that stone `stone` of `side` is counted to need
    /// until it is finished. On the return leg: the slots left, in moves of
    /// the return step. On the outbound leg: the slots left to the far end
    /// and the six slots back, both in moves of the outbound step.
    pub open spec fn stone_steps_to_go(self, side: int, stone: int) -> int {
        if self.returning(side, stone) {
            moves_for(self.slot(side, stone), step_size(side, 1, stone))
        } else {
            moves_for(6 - self.slot(side, stone), step_size(side, 0, stone)) + moves_for(
                6,
                step_size(side, 0, stone),
            )
        }
    }

    /// The moves that the stones 1 to `n` of `side` are counted to need.
    pub open spec fn steps_to_go_upto(self, side: int, n: int) -> int
        decreases n,
    {
        if n <= 0 {
            0
        } else {
            self.steps_to_go_upto(side, n - 1) + self.stone_steps_to_go(side, n)
        }
    }

    /// The moves that `side` is counted to need until all its stones are
    /// finished.
    pub open spec fn steps_to_go(self, side: int) -> int {
        self.steps_to_go_upto(side, 5)
    }

    /// The distance that stone `stone` of `side` has travelled: its slot on
    /// the way out, twelve less its slot on the way back.
    pub open spec fn stone_distance(self, side: int, stone: int) -> int {
        if self.returning(side, stone) {
            12 - self.slot(side, stone)
        } else {
            self.slot(side, stone)
        }
    }

    /// The distance that the stones 1 to `n` of `side` have travelled.
    pub open spec fn distance_upto(self, side: int, n: int) -> int
        decreases n,
    {
        if n <= 0 {
            0
        } else {
            self.distance_upto(side, n - 1) + self.stone_distance(side, n)
        }
    }

    /// The distance that the stones of `side` have travelled.
    pub open spec fn distance(self, side: int) -> int {
        self.distance_upto(side, 5)
    }
}

/// `distance / step`, rounded up.
fn moves_needed(distance: i32, step: i32) -> (r: i32)
    requires
        0 <= distance <= 6,
        1 <= step <= 3,
    ensures
        r == moves_for(distance as int, step as int),
        0 <= r <= 6,
{
    proof {
        if step == 1 {
            assert(moves_for(distance as int, 1) == distance);
        } else if step == 2 {
            assert(moves_for(distance as int, 2) == (distance + 1) / 2);
        } else {
            assert(moves_for(distance as int, 3) == (distance + 2) / 3);
        }
    }
    (distance + step - 1) / step
}

/// The moves that `side` is counted to need until all its stones are finished.
fn side_steps_to_go(state: &State, side: usize) -> (r: i32)
    requires
        state.wf(),
        side < 2,
    ensures
        r == state.steps_to_go(side as int),
        0 <= r <= 60,
{
    let mut total: i32 = 0;
    let mut stone: usize = 1;
    while stone <= 5
        invariant
            state.wf(),
            side < 2,
            1 <= stone <= 6,
            total == state.steps_to_go_upto(side as int, stone - 1),
            0 <= total <= 12 * (stone - 1),
        decreases 6 - stone,
    {
        assert(0 <= state.slot(side as int, stone as int) <= 6);
        let here: i32 = state.at[side][stone] as i32;
        let needed: i32 = if state.dir[side][stone] == 1 {
            moves_needed(here, step_of(side, 1, stone) as i32)
        } else {
            let step_by: i32 = step_of(side, 0, stone) as i32;
            moves_needed(6 - here, step_by) + moves_needed(6, step_by)
        };
        total = total + needed;
        stone = stone + 1;
    }
    total
}

/// The distance that the stones of `side` have travelled.
fn side_distance(state: &State, side: usize) -> (r: i32)
    requires
        state.wf(),
        side < 2,
    ensures
        r == state.distance(side as int),
        0 <= r <= 60,
{
    let mut total: i32 = 0;
    let mut stone: usize = 1;
    while stone <= 5
        invariant
            state.wf(),
            side < 2,
            1 <= stone <= 6,
            total == state.distance_upto(side as int, stone - 1),
            0 <= total <= 12 * (stone - 1),
        decreases 6 - stone,
    {
        assert(0 <= state.slot(side as int, stone as int) <= 6);
        let here: i32 = state.at[side][stone] as i32;
        let travelled: i32 = if state.dir[side][stone] == 1 {
            6 + 6 - here
        } else {
            here
        };
        total = total + travelled;
        stone = stone + 1;
    }
    total
}

/// Steps remaining: the moves that the second side still needs minus the
/// moves that the first side still needs. Less work left is better, so the
/// first side's own count enters with a minus sign.
pub fn steps_to_go_heuristic(state: &State) -> (r: i32)
    requires
        state.wf(),
    ensures
        r == state.steps_to_go(XULOS as int) - state.steps_to_go(YELLO as int),
{
    side_steps_to_go(state, XULOS) - side_steps_to_go(state, YELLO)
}

/// Progress difference: the distance that the first side's stones have
/// travelled minus the distance that the second side's stones have travelled.
pub fn distance_heuristic(state: &State) -> (r: i32)
    requires
        state.wf(),
    ensures
        r == state.distance(YELLO as int) - state.distance(XULOS as int),
{
    side_distance(state, YELLO) - side_distance(state, XULOS)
}

/// Capture count: the points of the first side, whatever the position. A
/// count beyond the range of the score wraps around.
pub fn bully_heuristic(state: &State) -> (r: i32)
    ensures
        r == state.points[0] as i32,
        state.points[0] <= i32::MAX ==> r == state.points[0],
{
    #[verifier::truncate]
    (state.points[0] as i32)
}

/// No preference: every board scores 0.
pub fn null_heuristic(_state: &State) -> (r: i32)
    ensures
        r == 0,
{
    0
}

} // verus!
