//! The rules: which moves a side has, and what each of them does to the board.
//!
//! A move takes one stone of the side to move along its lane. Slot `j` of the
//! lane of stone `i` is where that lane crosses lane `j` of the other side, so
//! the other side's stone `j` stands in the way exactly when its own slot is
//! `i`. A stone that meets an opposing stone walks over it, and over any that
//! follow directly behind, and rests on the first free slot after them; each
//! stone walked over goes back to the start of the leg it is on.

use vstd::prelude::*;
use crate::geometry::{step_of, step_size};
use crate::grid::{grid_of, lemma_grid_equal, lemma_grid_of, lemma_pair_equal, lemma_pair_of, pair_of};
use crate::state::State;

verus! {

/// 1 if `b` holds, else 0.
pub open spec fn one_if(b: bool) -> int {
    if b {
        1
    } else {
        0
    }
}

impl State {
    /// The side that is not to move.
    pub open spec fn opponent(self) -> int {
        1 - self.turn
    }

    /// Stone `stone` of the side to move has a move: it is not finished.
    pub open spec fn can_move(self, stone: int) -> bool {
        1 <= stone <= 5 && !self.finished(self.turn as int, stone)
    }

    /// The direction in which `stone` of the side to move travels: +1 on the
    /// way out, -1 on the way back.
    pub open spec fn heading(self, stone: int) -> int {
        if self.outbound(self.turn as int, stone) {
            1
        } else {
            -1
        }
    }

    /// The slot that `stone` reaches if nothing stands in its way: its step
    /// size further along, but never past the end of the lane.
    pub open spec fn target(self, stone: int) -> int {
        let here = self.slot(self.turn as int, stone);
        if self.outbound(self.turn as int, stone) {
            if here + step_size(self.turn as int, 0, stone) < 6 {
                here + step_size(self.turn as int, 0, stone)
            } else {
                6
            }
        } else {
            if here - step_size(self.turn as int, 1, stone) > 0 {
                here - step_size(self.turn as int, 1, stone)
            } else {
                0
            }
        }
    }

    /// The first slot that the walk of `stone` visits: the next one along the
    /// lane, but never past its end.
    pub open spec fn first_step(self, stone: int) -> int {
        let here = self.slot(self.turn as int, stone);
        if self.outbound(self.turn as int, stone) {
            if here + 1 < 6 {
                here + 1
            } else {
                6
            }
        } else {
            if here - 1 > 0 {
                here - 1
            } else {
                0
            }
        }
    }

    /// An opposing stone stands on slot `slot` of the lane of `stone`.
    pub open spec fn blocked(self, stone: int, slot: int) -> bool {
        0 < slot < 6 && self.slot(self.opponent(), slot) == stone
    }

    /// The first slot at or beyond `slot`, in the direction of travel, on
    /// which no opposing stone stands.
    pub open spec fn first_free(self, stone: int, slot: int) -> int
        decreases
            (if self.heading(stone) > 0 {
                6 - slot
            } else {
                slot
            }),
    {
        if self.blocked(stone, slot) {
            self.first_free(stone, slot + self.heading(stone))
        } else {
            slot
        }
    }

    /// Where `stone` comes to rest when it is about to enter `slot` and has
    /// met no opposing stone so far: on its target if the way is free, else on
    /// the first free slot behind the first opposing stone it meets.
    pub open spec fn rest_from(self, stone: int, slot: int) -> int
        decreases
            (if self.heading(stone) > 0 {
                6 - slot
            } else {
                slot
            }),
    {
        if self.blocked(stone, slot) {
            self.first_free(stone, slot + self.heading(stone))
        } else if slot == self.target(stone) || slot <= 0 || slot >= 6 {
            slot
        } else {
            self.rest_from(stone, slot + self.heading(stone))
        }
    }

    /// The slot on which `stone` rests after its move.
    pub open spec fn landing(self, stone: int) -> int {
        self.rest_from(stone, self.first_step(stone))
    }

    /// Slot `slot` lies on the walk of `stone` before the walk reaches `upto`.
    pub open spec fn walked(self, stone: int, slot: int, upto: int) -> bool {
        if self.heading(stone) > 0 {
            self.first_step(stone) <= slot < upto
        } else {
            upto < slot <= self.first_step(stone)
        }
    }

    /// The number of opposing stones that `stone` meets before its walk
    /// reaches `upto`.
    pub open spec fn hits_before(self, stone: int, upto: int) -> int {
        one_if(self.blocked(stone, 1) && self.walked(stone, 1, upto)) + one_if(
            self.blocked(stone, 2) && self.walked(stone, 2, upto),
        ) + one_if(self.blocked(stone, 3) && self.walked(stone, 3, upto)) + one_if(
            self.blocked(stone, 4) && self.walked(stone, 4, upto),
        ) + one_if(self.blocked(stone, 5) && self.walked(stone, 5, upto))
    }

    /// The move of `stone` captures the opposing stone `slot`: that stone
    /// stands on the walk, before the slot where the walk ends.
    pub open spec fn captured(self, stone: int, slot: int) -> bool {
        self.blocked(stone, slot) && self.walked(stone, slot, self.landing(stone))
    }

    /// The number of opposing stones that the move of `stone` captures.
    pub open spec fn capture_count(self, stone: int) -> int {
        self.hits_before(stone, self.landing(stone))
    }

    /// The slot of stone `k` of `side` after the move of `stone`: the mover
    /// stands on its landing slot, a captured stone is back at the start of
    /// its leg (slot 0 outbound, slot 6 on the way back), the others stay.
    pub open spec fn slot_after(self, stone: int, side: int, k: int) -> usize {
        if side == self.turn && k == stone {
            self.landing(stone) as usize
        } else if side == self.opponent() && self.captured(stone, k) {
            if self.outbound(side, k) {
                0
            } else {
                6
            }
        } else {
            self.at[side][k]
        }
    }

    /// The leg of stone `k` of `side` after the move of `stone`: the mover
    /// turns around when it comes to rest on slot 6 on its way out; nothing
    /// else changes.
    pub open spec fn leg_after(self, stone: int, side: int, k: int) -> usize {
        if side == self.turn && k == stone && self.outbound(side, k) && self.landing(stone)
            == 6 {
            1
        } else {
            self.dir[side][k]
        }
    }

    /// The points of `side` after the move of `stone`: one more for the
    /// mover's side for each capture.
    pub open spec fn points_after(self, stone: int, side: int) -> usize {
        if side == self.turn {
            (self.points[side] + self.capture_count(stone)) as usize
        } else {
            self.points[side]
        }
    }

    /// The board after the side to move has moved `stone`.
    pub open spec fn after_move(self, stone: int) -> State {
        State {
            depth: (self.depth + 1) as usize,
            turn: (1 - self.turn) as usize,
            points: pair_of(self.points_after(stone, 0), self.points_after(stone, 1)),
            at: grid_of(|side: int, k: int| self.slot_after(stone, side, k)),
            dir: grid_of(|side: int, k: int| self.leg_after(stone, side, k)),
        }
    }

    /// The moves of the stones 1 to `n`, in the order of the stones: each
    /// stone that can move, with the board after its move.
    pub open spec fn successors_upto(self, n: int) -> Seq<(usize, State)>
        decreases n,
    {
        if n <= 0 {
            Seq::empty()
        } else if self.can_move(n) {
            self.successors_upto(n - 1).push((n as usize, self.after_move(n)))
        } else {
            self.successors_upto(n - 1)
        }
    }

    /// Every move of the side to move, in the order of the stones.
    pub open spec fn successors(self) -> Seq<(usize, State)> {
        self.successors_upto(5)
    }

    /// The counters of the board leave room for `plies` more moves: `depth`
    /// can grow by one per ply and each side's points by five per ply.
    pub open spec fn has_room(self, plies: int) -> bool {
        &&& self.depth + plies <= usize::MAX
        &&& self.points[0] + 5 * plies <= usize::MAX
        &&& self.points[1] + 5 * plies <= usize::MAX
    }

    /// Whether the counters of the board leave room for `plies` more moves.
    pub fn has_room_for(&self, plies: usize) -> (r: bool)
        ensures
            r == self.has_room(plies as int),
    {
        if plies > usize::MAX / 5 {
            return false;
        }
        let needed: usize = 5 * plies;
        self.depth <= usize::MAX - plies && self.points[0] <= usize::MAX - needed && self.points[1]
            <= usize::MAX - needed
    }

    /// The entries of `after_move`, one by one.
    pub proof fn lemma_after_move_entries(self, stone: int)
        ensures
            self.after_move(stone).points[0] == self.points_after(stone, 0),
            self.after_move(stone).points[1] == self.points_after(stone, 1),
            forall|side: int, k: int|
                0 <= side < 2 && 0 <= k < 6 ==> #[trigger] self.after_move(stone).at[side][k]
                    == self.slot_after(stone, side, k),
            forall|side: int, k: int|
                0 <= side < 2 && 0 <= k < 6 ==> #[trigger] self.after_move(stone).dir[side][k]
                    == self.leg_after(stone, side, k),
    {
        lemma_pair_of(self.points_after(stone, 0), self.points_after(stone, 1));
        lemma_grid_of(|side: int, k: int| self.slot_after(stone, side, k));
        lemma_grid_of(|side: int, k: int| self.leg_after(stone, side, k));
    }

    /// Moves `stone` of the side to move and returns the board that results.
    pub fn advance(&self, stone: usize) -> (r: State)
        requires
            self.wf(),
            self.can_move(stone as int),
            self.has_room(1),
        ensures
            r == self.after_move(stone as int),
            r.wf(),
    {
        proof {
            self.lemma_move_keeps_wf(stone as int);
        }
        let color: usize = self.turn;
        let other: usize = 1 - color;
        let here: usize = self.at[color][stone];
        let leg: usize = self.dir[color][stone];
        assert(self.outbound(color as int, stone as int) || self.returning(
            color as int,
            stone as int,
        ));
        assert(0 <= self.slot(color as int, stone as int) <= 6);
        let step_by: usize = step_of(color, leg, stone);
        let target: usize = if leg == 0 {
            if here + step_by < 6 {
                here + step_by
            } else {
                6
            }
        } else {
            if here > step_by {
                here - step_by
            } else {
                0
            }
        };
        let mut j: usize = if leg == 0 {
            if here + 1 < 6 {
                here + 1
            } else {
                6
            }
        } else {
            if here > 1 {
                here - 1
            } else {
                0
            }
        };
        let ghost i = stone as int;
        let mut s = self.clone();
        let mut hit = false;
        loop
            invariant
                self.wf(),
                self.can_move(i),
                self.has_room(1),
                i == stone,
                color == self.turn,
                other == 1 - color,
                leg == self.dir[color as int][i],
                leg == 0 || leg == 1,
                target == self.target(i),
                0 <= j <= 6,
                self.heading(i) > 0 ==> self.first_step(i) <= j,
                self.heading(i) < 0 ==> j <= self.first_step(i),
                self.landing(i) == if hit {
                    self.first_free(i, j as int)
                } else {
                    self.rest_from(i, j as int)
                },
                s.depth == self.depth,
                s.turn == self.turn,
                s.dir == self.dir,
                s.at[color as int] == self.at[color as int],
                s.points[other as int] == self.points[other as int],
                s.points[color as int] == self.points[color as int] + self.hits_before(
                    i,
                    j as int,
                ),
                forall|k: int|
                    0 <= k < 6 ==> #[trigger] s.at[other as int][k] == if self.blocked(i, k)
                        && self.walked(i, k, j as int) {
                        if self.outbound(other as int, k) {
                            0usize
                        } else {
                            6usize
                        }
                    } else {
                        self.at[other as int][k]
                    },
            ensures
                j == self.landing(i),
            decreases
                (if self.heading(i) > 0 {
                    6 - j
                } else {
                    j as int
                }),
        {
            let here_blocked: bool = j > 0 && j < 6 && self.at[other][j] == stone;
            assert(here_blocked == self.blocked(i, j as int));
            if here_blocked {
                hit = true;
                s.points[color] = s.points[color] + 1;
                s.at[other][j] = if s.dir[other][j] == 0 {
                    0
                } else {
                    6
                };
            }
            if !hit && j == target {
                break ;
            } else if j == 0 || j == 6 {
                break ;
            } else if hit && !here_blocked {
                break ;
            }
            j = if leg == 0 {
                j + 1
            } else {
                j - 1
            };
        }
        s.at[color][stone] = j;
        if s.dir[color][stone] == 0 && j == 6 {
            s.dir[color][stone] = 1;
        }
        s.depth = s.depth + 1;
        s.turn = 1 - s.turn;
        proof {
            let t = self.after_move(i);
            self.lemma_after_move_entries(i);
            lemma_grid_equal(s.at, t.at);
            lemma_grid_equal(s.dir, t.dir);
            lemma_pair_equal(s.points, t.points);
        }
        s
    }

    /// Every legal move of the side to move: for each of its stones that is
    /// not finished, in the order of the stones, the stone's number and the
    /// board after its move. The result is empty exactly when the side to
    /// move has no stone left to move.
    pub fn next(&self) -> (r: Vec<(usize, State)>)
        requires
            self.wf(),
            self.has_room(1),
        ensures
            r@ == self.successors(),
            r.len() == 0 <==> self.is_completed(),
            forall|k: int|
                0 <= k < r.len() ==> {
                    let entry = #[trigger] r[k];
                    &&& self.can_move(entry.0 as int)
                    &&& entry.1 == self.after_move(entry.0 as int)
                    &&& entry.1.wf()
                },
            forall|j: int, k: int| 0 <= j < k < r.len() ==> r[j].0 < r[k].0,
            forall|stone: int|
                self.can_move(stone) ==> exists|k: int|
                    0 <= k < r.len() && #[trigger] r[k].0 == stone,
    {
        proof {
            self.lemma_successors();
            assert forall|k: int| 0 <= k < self.successors().len() implies (
            #[trigger] self.successors()[k]).1.wf() by {
                self.lemma_move_keeps_wf(self.successors()[k].0 as int);
            }
        }
        let mut possible: Vec<(usize, State)> = Vec::new();
        let mut stone: usize = 1;
        while stone <= 5
            invariant
                self.wf(),
                self.has_room(1),
                1 <= stone <= 6,
                possible@ == self.successors_upto(stone - 1),
            decreases 6 - stone,
        {
            if !self.is_finished(self.turn, stone) {
                let s = self.advance(stone);
                possible.push((stone, s));
            }
            stone = stone + 1;
        }
        possible
    }
}

} // verus!
