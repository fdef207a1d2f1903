//! What every move keeps true of the board.

use vstd::prelude::*;
use crate::geometry::lemma_step_size_bounds;
use crate::state::State;

verus! {

/// `t` is what `s` becomes by one move of the side to move.
pub open spec fn follows(s: State, t: State) -> bool {
    exists|stone: int| s.can_move(stone) && t == #[trigger] s.after_move(stone)
}

/// `line` is a course of play: each board follows from the one before it.
pub open spec fn is_play(line: Seq<State>) -> bool {
    forall|k: int| 0 <= k < line.len() - 1 ==> follows(#[trigger] line[k], line[k + 1])
}

impl State {
    /// A search for a free slot that starts on the lane ends on the lane, at
    /// or beyond where it started, on a slot where no opposing stone stands.
    pub proof fn lemma_first_free(self, stone: int, slot: int)
        requires
            0 <= slot <= 6,
        ensures
            0 <= self.first_free(stone, slot) <= 6,
            !self.blocked(stone, self.first_free(stone, slot)),
            self.heading(stone) > 0 ==> slot <= self.first_free(stone, slot),
            self.heading(stone) < 0 ==> self.first_free(stone, slot) <= slot,
            forall|k: int|
                (slot <= k < self.first_free(stone, slot) || self.first_free(stone, slot) < k
                    <= slot) ==> self.blocked(stone, k),
        decreases
            (if self.heading(stone) > 0 {
                6 - slot
            } else {
                slot
            }),
    {
        if self.blocked(stone, slot) {
            self.lemma_first_free(stone, slot + self.heading(stone));
        }
    }

    /// A walk that starts on the lane ends on the lane, at or beyond where it
    /// started, on a slot where no opposing stone stands.
    pub proof fn lemma_rest_from(self, stone: int, slot: int)
        requires
            0 <= slot <= 6,
        ensures
            0 <= self.rest_from(stone, slot) <= 6,
            !self.blocked(stone, self.rest_from(stone, slot)),
            self.heading(stone) > 0 ==> slot <= self.rest_from(stone, slot),
            self.heading(stone) < 0 ==> self.rest_from(stone, slot) <= slot,
        decreases
            (if self.heading(stone) > 0 {
                6 - slot
            } else {
                slot
            }),
    {
        if self.blocked(stone, slot) {
            self.lemma_first_free(stone, slot + self.heading(stone));
        } else if slot == self.target(stone) || slot <= 0 || slot >= 6 {
        } else {
            self.lemma_rest_from(stone, slot + self.heading(stone));
        }
    }

    /// A stone that moves comes to rest on its lane, ahead of where it stood
    /// (or, at the far end of the lane, on the spot), on a slot where no
    /// opposing stone stands.
    pub proof fn lemma_landing(self, stone: int)
        requires
            self.wf(),
            self.can_move(stone),
        ensures
            0 <= self.landing(stone) <= 6,
            !self.blocked(stone, self.landing(stone)),
            self.outbound(self.turn as int, stone) ==> self.slot(self.turn as int, stone)
                <= self.landing(stone),
            self.outbound(self.turn as int, stone) && self.slot(self.turn as int, stone) < 6
                ==> self.slot(self.turn as int, stone) < self.landing(stone),
            self.returning(self.turn as int, stone) ==> self.landing(stone) < self.slot(
                self.turn as int,
                stone,
            ),
    {
        assert(0 <= self.slot(self.turn as int, stone) <= 6);
        assert(self.outbound(self.turn as int, stone) || self.returning(self.turn as int, stone));
        self.lemma_rest_from(stone, self.first_step(stone));
    }

    /// Where the way to the target is free, the stone lands on its target and
    /// captures nothing.
    pub proof fn lemma_free_way(self, stone: int)
        requires
            self.wf(),
            self.can_move(stone),
            forall|k: int|
                (self.first_step(stone) <= k <= self.target(stone) || self.target(stone) <= k
                    <= self.first_step(stone)) ==> !self.blocked(stone, k),
        ensures
            self.landing(stone) == self.target(stone),
            self.capture_count(stone) == 0,
            forall|k: int| !self.captured(stone, k),
    {
        assert(0 <= self.slot(self.turn as int, stone) <= 6);
        assert(self.outbound(self.turn as int, stone) || self.returning(self.turn as int, stone));
        lemma_step_size_bounds(self.turn as int, 0, stone);
        lemma_step_size_bounds(self.turn as int, 1, stone);
        self.lemma_free_walk(stone, self.first_step(stone));
    }

    /// A walk over free slots only ends on the target.
    proof fn lemma_free_walk(self, stone: int, slot: int)
        requires
            0 <= self.target(stone) <= 6,
            self.heading(stone) > 0 ==> 1 <= slot <= self.target(stone),
            self.heading(stone) < 0 ==> self.target(stone) <= slot <= 5,
            forall|k: int|
                (slot <= k <= self.target(stone) || self.target(stone) <= k <= slot)
                    ==> !self.blocked(stone, k),
        ensures
            self.rest_from(stone, slot) == self.target(stone),
        decreases
            (if self.heading(stone) > 0 {
                6 - slot
            } else {
                slot
            }),
    {
        if slot == self.target(stone) || slot <= 0 || slot >= 6 {
        } else {
            self.lemma_free_walk(stone, slot + self.heading(stone));
        }
    }

    /// A move captures at most five stones, and the captured stones stand in
    /// one unbroken row that ends just before the landing slot.
    pub proof fn lemma_captures(self, stone: int)
        requires
            self.wf(),
            self.can_move(stone),
        ensures
            0 <= self.capture_count(stone) <= 5,
            self.capture_count(stone) > 0 <==> exists|k: int| self.captured(stone, k),
            forall|k: int, m: int|
                self.captured(stone, k) && (k <= m < self.landing(stone) || self.landing(stone)
                    < m <= k) ==> self.captured(stone, m),
    {
        let l = self.landing(stone);
        if self.capture_count(stone) > 0 {
            let k = if self.captured(stone, 1) {
                1int
            } else if self.captured(stone, 2) {
                2int
            } else if self.captured(stone, 3) {
                3int
            } else if self.captured(stone, 4) {
                4int
            } else {
                5int
            };
            assert(self.captured(stone, k));
        }
        assert(0 <= self.slot(self.turn as int, stone) <= 6);
        assert(self.outbound(self.turn as int, stone) || self.returning(self.turn as int, stone));
        self.lemma_row_behind(stone, self.first_step(stone));
    }

    /// Behind the first opposing stone that a walk meets, every slot up to the
    /// resting slot holds an opposing stone.
    proof fn lemma_row_behind(self, stone: int, slot: int)
        requires
            0 <= slot <= 6,
        ensures
            forall|k: int, m: int|
                self.blocked(stone, k) && (slot <= k <= m < self.rest_from(stone, slot)
                    || self.rest_from(stone, slot) < m <= k <= slot) ==> self.blocked(stone, m),
        decreases
            (if self.heading(stone) > 0 {
                6 - slot
            } else {
                slot
            }),
    {
        if self.blocked(stone, slot) {
            self.lemma_first_free(stone, slot + self.heading(stone));
        } else if slot == self.target(stone) || slot <= 0 || slot >= 6 {
        } else {
            self.lemma_rest_from(stone, slot + self.heading(stone));
            self.lemma_row_behind(stone, slot + self.heading(stone));
        }
    }

    /// A move keeps the board well formed: every stone stays on a slot from 0
    /// to 6 and on one of the two legs, and the turn passes to the other side.
    pub proof fn lemma_move_keeps_wf(self, stone: int)
        requires
            self.wf(),
            self.can_move(stone),
        ensures
            self.after_move(stone).wf(),
            self.after_move(stone).turn == 1 - self.turn,
    {
        let t = self.after_move(stone);
        self.lemma_after_move_entries(stone);
        self.lemma_landing(stone);
        assert forall|side: int, k: int| 0 <= side < 2 && 1 <= k <= 5 implies 0
            <= #[trigger] t.slot(side, k) <= 6 by {
            assert(t.at[side][k] == self.slot_after(stone, side, k));
            assert(0 <= self.slot(side, k) <= 6);
        }
        assert forall|side: int, k: int| 0 <= side < 2 && 1 <= k <= 5 implies #[trigger] t.outbound(
            side,
            k,
        ) || t.returning(side, k) by {
            assert(t.dir[side][k] == self.leg_after(stone, side, k));
            assert(self.outbound(side, k) || self.returning(side, k));
        }
    }

    /// A move never sends a stone from its return leg back to its outbound
    /// leg: a stone that has turned around stays turned around.
    pub proof fn lemma_move_never_turns_back(self, stone: int, side: int, k: int)
        requires
            self.wf(),
            self.can_move(stone),
            0 <= side < 2,
            1 <= k <= 5,
            self.returning(side, k),
        ensures
            self.after_move(stone).returning(side, k),
    {
        self.lemma_after_move_entries(stone);
        assert(self.after_move(stone).dir[side][k] == self.leg_after(stone, side, k));
    }

    /// A move never lowers a side's points, and raises the mover's by the
    /// number of stones it captures.
    pub proof fn lemma_move_points(self, stone: int)
        requires
            self.wf(),
            self.can_move(stone),
            self.has_room(1),
        ensures
            self.after_move(stone).points[self.turn as int] == self.points[self.turn as int]
                + self.capture_count(stone),
            self.after_move(stone).points[self.opponent()] == self.points[self.opponent()],
            self.after_move(stone).depth == self.depth + 1,
            self.after_move(stone).has_room(0),
    {
        self.lemma_after_move_entries(stone);
        self.lemma_captures(stone);
    }

    /// The moves listed for the stones 1 to `n` are those of the stones that
    /// are not finished, each once, in the order of the stones.
    pub proof fn lemma_successors_upto(self, n: int)
        requires
            0 <= n <= 5,
        ensures
            self.successors_upto(n).len() <= n,
            forall|j: int|
                0 <= j < self.successors_upto(n).len() ==> {
                    let entry = #[trigger] self.successors_upto(n)[j];
                    &&& 1 <= entry.0 <= n
                    &&& self.can_move(entry.0 as int)
                    &&& entry.1 == self.after_move(entry.0 as int)
                },
            forall|j: int, k: int|
                0 <= j < k < self.successors_upto(n).len() ==> self.successors_upto(n)[j].0
                    < self.successors_upto(n)[k].0,
            forall|stone: int|
                1 <= stone <= n && self.can_move(stone) ==> exists|j: int|
                    0 <= j < self.successors_upto(n).len() && #[trigger] self.successors_upto(
                        n,
                    )[j].0 == stone,
        decreases n,
    {
        if n > 0 {
            self.lemma_successors_upto(n - 1);
            let prev = self.successors_upto(n - 1);
            let all = self.successors_upto(n);
            assert forall|stone: int| 1 <= stone <= n && self.can_move(stone) implies exists|
                j: int,
            |
                0 <= j < all.len() && #[trigger] all[j].0 == stone by {
                if stone == n {
                    assert(all[all.len() - 1].0 == stone);
                } else {
                    let j = choose|j: int| 0 <= j < prev.len() && #[trigger] prev[j].0 == stone;
                    assert(all[j].0 == stone);
                }
            }
        }
    }

    /// A stone that is finished contributes no move; every other stone
    /// contributes exactly one. So a side has no move exactly when all its
    /// stones are finished.
    pub proof fn lemma_successors(self)
        ensures
            forall|j: int|
                0 <= j < self.successors().len() ==> {
                    let entry = #[trigger] self.successors()[j];
                    &&& self.can_move(entry.0 as int)
                    &&& !self.finished(self.turn as int, entry.0 as int)
                    &&& entry.1 == self.after_move(entry.0 as int)
                    &&& follows(self, entry.1)
                },
            forall|j: int, k: int|
                0 <= j < k < self.successors().len() ==> self.successors()[j].0
                    < self.successors()[k].0,
            forall|stone: int|
                self.can_move(stone) ==> exists|j: int|
                    0 <= j < self.successors().len() && #[trigger] self.successors()[j].0
                        == stone,
            self.successors().len() == 0 <==> self.is_completed(),
    {
        self.lemma_successors_upto(5);
        let all = self.successors();
        if all.len() == 0 {
            assert forall|stone: int| 1 <= stone <= 5 implies #[trigger] self.finished(
                self.turn as int,
                stone,
            ) by {
                if self.can_move(stone) {
                    let j = choose|j: int| 0 <= j < all.len() && #[trigger] all[j].0 == stone;
                }
            }
        } else {
            assert(self.can_move(all[0].0 as int));
        }
    }
}

/// One move keeps a well-formed board well formed and turns no stone back.
pub proof fn lemma_follows_keeps_invariants(s: State, t: State)
    requires
        s.wf(),
        follows(s, t),
    ensures
        t.wf(),
        forall|side: int, stone: int|
            0 <= side < 2 && 1 <= stone <= 5 && s.returning(side, stone) ==> #[trigger] t.returning(
                side,
                stone,
            ),
{
    let mover = choose|mover: int| s.can_move(mover) && t == #[trigger] s.after_move(mover);
    s.lemma_move_keeps_wf(mover);
    assert forall|side: int, stone: int|
        0 <= side < 2 && 1 <= stone <= 5 && s.returning(side, stone) implies #[trigger] t.returning(
        side,
        stone,
    ) by {
        s.lemma_move_never_turns_back(mover, side, stone);
    }
}

/// Along any course of play that starts from a well-formed board, every board
/// is well formed (each stone on a slot from 0 to 6), and a stone that has
/// turned around never travels outbound again.
pub proof fn lemma_play_keeps_invariants(line: Seq<State>, a: int, b: int)
    requires
        is_play(line),
        line.len() > 0,
        line[0].wf(),
        0 <= a <= b < line.len(),
    ensures
        line[a].wf(),
        line[b].wf(),
        forall|side: int, stone: int|
            0 <= side < 2 && 1 <= stone <= 5 ==> 0 <= #[trigger] line[b].slot(side, stone) <= 6,
        forall|side: int, stone: int|
            0 <= side < 2 && 1 <= stone <= 5 && line[a].returning(side, stone)
                ==> #[trigger] line[b].returning(side, stone),
    decreases b,
{
    if b > 0 {
        let before = line[b - 1];
        let after = line[b];
        assert(follows(before, line[b - 1 + 1]));
        if a < b {
            lemma_play_keeps_invariants(line, a, b - 1);
            lemma_follows_keeps_invariants(before, after);
        } else {
            lemma_play_keeps_invariants(line, b - 1, b - 1);
            lemma_follows_keeps_invariants(before, after);
        }
    }
}

} // verus!
