//! The board configuration and the questions that can be asked of it.

use vstd::prelude::*;
use crate::geometry::YELLO;

verus! {

/// One full board configuration.
///
/// `at[side][stone]` is the slot (0 to 6) of a stone along its own lane and
/// `dir[side][stone]` the leg it is on: 0 while it travels out, 1 once it has
/// turned around. Stones are numbered 1 to 5; entry 0 of each row is unused.
#[derive(Debug, PartialEq, Eq, Hash)]
pub struct State {
    /// Plies played since the start of the game.
    pub depth: usize,
    /// The side to move.
    pub turn: usize,
    /// Captures made by each side.
    pub points: [usize; 2],
    /// Slot of each stone along its lane.
    pub at: [[usize; 6]; 2],
    /// Leg of each stone: 0 outbound, 1 return.
    pub dir: [[usize; 6]; 2],
}

impl Clone for State {
    fn clone(&self) -> (r: Self)
        ensures
            r == *self,
    {
        State {
            depth: self.depth,
            turn: self.turn,
            points: self.points,
            at: self.at,
            dir: self.dir,
        }
    }
}

impl State {
    /// The slot of a stone, as a mathematical integer.
    pub open spec fn slot(self, side: int, stone: int) -> int {
        self.at[side][stone] as int
    }

    /// The stone is on its way out.
    pub open spec fn outbound(self, side: int, stone: int) -> bool {
        self.dir[side][stone] == 0
    }

    /// The stone has turned around.
    pub open spec fn returning(self, side: int, stone: int) -> bool {
        self.dir[side][stone] == 1
    }

    /// The stone has come home: it is on its return leg and back at slot 0.
    pub open spec fn finished(self, side: int, stone: int) -> bool {
        self.returning(side, stone) && self.slot(side, stone) == 0
    }

    /// The invariant of a board: a side is to move, every stone is on its lane
    /// and on one of the two legs.
    pub open spec fn wf(self) -> bool {
        &&& self.turn < 2
        &&& forall|side: int, stone: int|
            0 <= side < 2 && 1 <= stone <= 5 ==> 0 <= #[trigger] self.slot(side, stone) <= 6
        &&& forall|side: int, stone: int|
            0 <= side < 2 && 1 <= stone <= 5 ==> #[trigger] self.outbound(side, stone)
                || self.returning(side, stone)
    }

    /// All five stones of `side` are finished.
    pub open spec fn all_finished(self, side: int) -> bool {
        forall|stone: int| 1 <= stone <= 5 ==> #[trigger] self.finished(side, stone)
    }

    /// The side to move has nothing left to move.
    pub open spec fn is_completed(self) -> bool {
        self.all_finished(self.turn as int)
    }

    /// How many of the stones 1 to `n` of `side` are finished.
    pub open spec fn finished_upto(self, side: int, n: int) -> int
        decreases n,
    {
        if n <= 0 {
            0
        } else {
            self.finished_upto(side, n - 1) + if self.finished(side, n) {
                1int
            } else {
                0int
            }
        }
    }

    /// How many stones of `side` are finished.
    pub open spec fn finished_count(self, side: int) -> int {
        self.finished_upto(side, 5)
    }

    /// The start of a game: nothing played, the first side to move, every
    /// stone at slot 0 and outbound.
    pub open spec fn is_initial(self) -> bool {
        &&& self.depth == 0
        &&& self.turn == YELLO
        &&& forall|side: int| 0 <= side < 2 ==> #[trigger] self.points[side] == 0
        &&& forall|side: int, stone: int|
            0 <= side < 2 && 0 <= stone < 6 ==> #[trigger] self.at[side][stone] == 0
        &&& forall|side: int, stone: int|
            0 <= side < 2 && 0 <= stone < 6 ==> #[trigger] self.dir[side][stone] == 0
    }

    /// The canonical initial configuration.
    pub fn initial() -> (r: Self)
        ensures
            r.is_initial(),
            r.wf(),
    {
        State { depth: 0, turn: YELLO, points: [0; 2], at: [[0; 6]; 2], dir: [[0; 6]; 2] }
    }

    /// The same board with `turn` to move.
    pub fn with_turn(self, turn: usize) -> (r: Self)
        ensures
            r == (State { turn, ..self }),
    {
        let mut s = self;
        s.turn = turn;
        s
    }

    /// Whether the board is well formed.
    pub fn is_valid(&self) -> (r: bool)
        ensures
            r == self.wf(),
    {
        if self.turn >= 2 {
            return false;
        }
        let mut side: usize = 0;
        while side < 2
            invariant
                side <= 2,
                forall|c: int, k: int|
                    0 <= c < side && 1 <= k <= 5 ==> 0 <= #[trigger] self.slot(c, k) <= 6,
                forall|c: int, k: int|
                    0 <= c < side && 1 <= k <= 5 ==> #[trigger] self.outbound(c, k)
                        || self.returning(c, k),
            decreases 2 - side,
        {
            let mut stone: usize = 1;
            while stone <= 5
                invariant
                    side < 2,
                    1 <= stone <= 6,
                    forall|c: int, k: int|
                        0 <= c < side && 1 <= k <= 5 ==> 0 <= #[trigger] self.slot(c, k) <= 6,
                    forall|c: int, k: int|
                        0 <= c < side && 1 <= k <= 5 ==> #[trigger] self.outbound(c, k)
                            || self.returning(c, k),
                    forall|k: int| 1 <= k < stone ==> 0 <= #[trigger] self.slot(side as int, k) <= 6,
                    forall|k: int|
                        1 <= k < stone ==> #[trigger] self.outbound(side as int, k)
                            || self.returning(side as int, k),
                decreases 6 - stone,
            {
                if self.at[side][stone] > 6 || self.dir[side][stone] > 1 {
                    assert(!(0 <= self.slot(side as int, stone as int) <= 6 && (self.outbound(
                        side as int,
                        stone as int,
                    ) || self.returning(side as int, stone as int))));
                    return false;
                }
                stone = stone + 1;
            }
            side = side + 1;
        }
        true
    }

    /// Whether stone `stone` of `side` is finished.
    pub fn is_finished(&self, side: usize, stone: usize) -> (r: bool)
        requires
            side < 2,
            1 <= stone <= 5,
        ensures
            r == self.finished(side as int, stone as int),
    {
        self.dir[side][stone] == 1 && self.at[side][stone] == 0
    }

    /// How many stones of `side` are finished.
    pub fn stones_done(&self, side: usize) -> (r: i32)
        requires
            side < 2,
        ensures
            r == self.finished_count(side as int),
            0 <= r <= 5,
    {
        let mut n: i32 = 0;
        let mut stone: usize = 1;
        while stone <= 5
            invariant
                side < 2,
                1 <= stone <= 6,
                n == self.finished_upto(side as int, stone - 1),
                0 <= n < stone,
            decreases 6 - stone,
        {
            if self.is_finished(side, stone) {
                n = n + 1;
            }
            stone = stone + 1;
        }
        n
    }

    /// Whether every stone of `side` is finished.
    pub fn side_done(&self, side: usize) -> (r: bool)
        requires
            side < 2,
        ensures
            r == self.all_finished(side as int),
    {
        let mut stone: usize = 1;
        while stone <= 5
            invariant
                side < 2,
                1 <= stone <= 6,
                forall|k: int| 1 <= k < stone ==> #[trigger] self.finished(side as int, k),
            decreases 6 - stone,
        {
            if !self.is_finished(side, stone) {
                return false;
            }
            stone = stone + 1;
        }
        true
    }

    /// The search cut-off: the side to move has every stone finished. The
    /// other side may still have stones in play.
    pub fn completed(&self) -> (r: bool)
        requires
            self.turn < 2,
        ensures
            r == self.is_completed(),
    {
        self.side_done(self.turn)
    }

    /// The first side has every stone finished.
    pub fn is_win(&self) -> (r: bool)
        ensures
            r == self.all_finished(YELLO as int),
    {
        self.side_done(YELLO)
    }

    /// Finished stones of the first side minus finished stones of the second.
    pub fn win_factor(&self) -> (r: i32)
        ensures
            r == self.finished_count(0) - self.finished_count(1),
            -5 <= r <= 5,
    {
        self.stones_done(0) - self.stones_done(1)
    }
}

} // verus!
