//! Depth-limited minimax search over the moves of the game.
//!
//! The search looks `depth` plies ahead. The two sides alternate: where the
//! maximizing side is to move the search takes the reply whose line ends in
//! the highest score, where the minimizing side is to move the one whose line
//! ends in the lowest. The replies of one board are searched in parallel.
//! Which of several equally good replies is taken is left open.

use vstd::prelude::*;
use rayon::iter::IntoParallelIterator;
use rayon::iter::ParallelIterator;
use crate::invariants::{follows, is_play};
use crate::state::State;

verus! {

/// The score that the evaluation function `h` gives to `s`.
pub open spec fn evaluation<H: Fn(&State) -> i32>(h: H, s: State) -> int {
    (choose|v: i32| call_ensures(h, (&s,), v)) as int
}

/// The evaluation function `h` as a function from boards to scores.
pub open spec fn scoring<H: Fn(&State) -> i32>(h: H) -> spec_fn(State) -> int {
    |s: State| evaluation(h, s)
}

/// `h` can serve as an evaluation function: it accepts every well-formed
/// board and its score depends on the board alone.
pub open spec fn is_evaluator<H: Fn(&State) -> i32>(h: H) -> bool {
    &&& forall|s: State| s.wf() ==> #[trigger] call_requires(h, (&s,))
    &&& forall|s: State, a: i32, b: i32|
        s.wf() && #[trigger] call_ensures(h, (&s,), a) && #[trigger] call_ensures(h, (&s,), b)
            ==> a == b
}

/// The better of two scores: the higher for the maximizing side, the lower
/// for the minimizing side.
pub open spec fn better(maximize: bool, a: int, b: int) -> int {
    if maximize == (a >= b) {
        a
    } else {
        b
    }
}

/// The better of two scores, where either may be missing.
pub open spec fn better_of(maximize: bool, a: Option<int>, b: Option<int>) -> Option<int> {
    match (a, b) {
        (Some(x), Some(y)) => Some(better(maximize, x, y)),
        (Some(x), None) => Some(x),
        (None, _) => b,
    }
}

/// The minimax value of `s` at `depth` plies: the score of `s` itself where
/// the search stops (no depth left, or the side to move has finished), else
/// the best, for the side to move, of the values of its replies one ply
/// shallower with the other side to choose.
pub open spec fn minimax_value(
    s: State,
    depth: nat,
    maximize: bool,
    score: spec_fn(State) -> int,
) -> int
    decreases depth, 1int, 0int,
{
    if depth == 0 || s.is_completed() {
        score(s)
    } else {
        match best_reply(s, 5, depth, maximize, score) {
            Some(v) => v,
            None => score(s),
        }
    }
}

/// The value of the reply with `stone`, if that stone can move.
pub open spec fn reply_value(
    s: State,
    stone: int,
    depth: nat,
    maximize: bool,
    score: spec_fn(State) -> int,
) -> Option<int>
    decreases depth, 0int, 0int,
{
    if depth > 0 && s.can_move(stone) {
        Some(minimax_value(s.after_move(stone), (depth - 1) as nat, !maximize, score))
    } else {
        None
    }
}

/// The best value among the replies with the stones 1 to `n`.
pub open spec fn best_reply(
    s: State,
    n: int,
    depth: nat,
    maximize: bool,
    score: spec_fn(State) -> int,
) -> Option<int>
    decreases depth, 0int, 1 + n,
{
    if n <= 0 {
        None
    } else {
        better_of(
            maximize,
            best_reply(s, n - 1, depth, maximize, score),
            reply_value(s, n, depth, maximize, score),
        )
    }
}

/// `path` and `leaf` are a principal variation of `s` at `depth` plies.
///
/// `path` lists the boards of the chosen line from the last one played back
/// to the first reply, so its last entry is the reply to `s` itself; `leaf`
/// is the board in which the line ends. Where the search stops at once the
/// path is empty and the leaf is `s`. Else the last entry of the path follows
/// from `s` by one move, the rest is a principal variation of that reply one
/// ply shallower with the other side to choose, and the leaf scores the
/// minimax value of `s`.
pub open spec fn principal_variation(
    s: State,
    depth: nat,
    maximize: bool,
    score: spec_fn(State) -> int,
    path: Seq<State>,
    leaf: State,
) -> bool
    decreases depth,
{
    if depth == 0 || s.is_completed() {
        path.len() == 0 && leaf == s
    } else {
        &&& path.len() > 0
        &&& follows(s, path.last())
        &&& principal_variation(
            path.last(),
            (depth - 1) as nat,
            !maximize,
            score,
            path.drop_last(),
            leaf,
        )
        &&& score(leaf) == minimax_value(s, depth, maximize, score)
    }
}

/// The boards of a line in the order in which they are played: `s` first,
/// then the entries of `path` from its last to its first.
pub open spec fn played(s: State, path: Seq<State>) -> Seq<State> {
    Seq::new(
        path.len() + 1,
        |k: int|
            if k == 0 {
                s
            } else {
                path[path.len() - k]
            },
    )
}

/// One searched reply: the line that the search chose behind it, and the
/// score of the board in which that line ends.
pub struct Line {
    /// The score of `leaf`.
    pub score: i32,
    /// The boards of the line, the last one played first, the reply itself last.
    pub path: Vec<State>,
    /// The board in which the line ends.
    pub leaf: State,
}

/// `line` is what the search returns for the reply `child`: a principal
/// variation of `child`, with `child` itself added at the end of the path,
/// and the score of its leaf.
pub open spec fn answers<H: Fn(&State) -> i32>(
    child: State,
    depth: nat,
    maximize: bool,
    h: H,
    line: Line,
) -> bool {
    &&& line.path@.len() > 0
    &&& line.path@.last() == child
    &&& principal_variation(child, depth, maximize, scoring(h), line.path@.drop_last(), line.leaf)
    &&& line.leaf.wf()
    &&& line.score == evaluation(h, line.leaf)
}

/// The best value among the replies with the stones 1 to `n` is the value of
/// one of them, and no reply among them is better for the side that chooses.
pub proof fn lemma_best_reply(
    s: State,
    n: int,
    depth: nat,
    maximize: bool,
    score: spec_fn(State) -> int,
)
    requires
        0 <= n <= 5,
        depth > 0,
    ensures
        best_reply(s, n, depth, maximize, score) is None <==> forall|stone: int|
            1 <= stone <= n ==> !s.can_move(stone),
        best_reply(s, n, depth, maximize, score) matches Some(v) ==> {
            &&& exists|stone: int|
                1 <= stone <= n && #[trigger] reply_value(s, stone, depth, maximize, score)
                    == Some(v)
            &&& forall|stone: int|
                1 <= stone <= n ==> (#[trigger] reply_value(s, stone, depth, maximize, score)
                    matches Some(w) ==> if maximize {
                    w <= v
                } else {
                    w >= v
                })
        },
    decreases n,
{
    if n > 0 {
        lemma_best_reply(s, n - 1, depth, maximize, score);
        let before = best_reply(s, n - 1, depth, maximize, score);
        let last = reply_value(s, n, depth, maximize, score);
        let now = best_reply(s, n, depth, maximize, score);
        assert(now == better_of(maximize, before, last));
        if now is Some {
            let v = now->0;
            if last == Some(v) {
                assert(reply_value(s, n, depth, maximize, score) == Some(v));
            } else {
                let stone = choose|stone: int|
                    1 <= stone <= n - 1 && #[trigger] reply_value(s, stone, depth, maximize, score)
                        == Some(v);
                assert(reply_value(s, stone, depth, maximize, score) == Some(v));
            }
        }
    }
}

/// Where the search does not stop, the minimax value of a board is the value
/// of one of its replies, and no reply is better for the side that chooses.
pub proof fn lemma_minimax_value_is_best(
    s: State,
    depth: nat,
    maximize: bool,
    score: spec_fn(State) -> int,
)
    requires
        depth > 0,
        !s.is_completed(),
    ensures
        exists|stone: int|
            s.can_move(stone) && minimax_value(s, depth, maximize, score) == minimax_value(
                #[trigger] s.after_move(stone),
                (depth - 1) as nat,
                !maximize,
                score,
            ),
        forall|stone: int|
            s.can_move(stone) ==> {
                let w = minimax_value(
                    #[trigger] s.after_move(stone),
                    (depth - 1) as nat,
                    !maximize,
                    score,
                );
                if maximize {
                    w <= minimax_value(s, depth, maximize, score)
                } else {
                    w >= minimax_value(s, depth, maximize, score)
                }
            },
{
    lemma_best_reply(s, 5, depth, maximize, score);
    let some_stone = choose|stone: int| 1 <= stone <= 5 && !s.finished(s.turn as int, stone);
    assert(s.can_move(some_stone));
    let v = best_reply(s, 5, depth, maximize, score)->0;
    let stone = choose|stone: int|
        1 <= stone <= 5 && #[trigger] reply_value(s, stone, depth, maximize, score) == Some(v);
    assert(s.can_move(stone));
    assert forall|k: int| s.can_move(k) implies {
        let w = minimax_value(#[trigger] s.after_move(k), (depth - 1) as nat, !maximize, score);
        if maximize {
            w <= minimax_value(s, depth, maximize, score)
        } else {
            w >= minimax_value(s, depth, maximize, score)
        }
    } by {
        assert(reply_value(s, k, depth, maximize, score) is Some);
    }
}

/// Where each reply has its minimax value and one of them is at least as good
/// for the side that chooses as every other, that reply has the minimax value
/// of the board.
pub proof fn lemma_best_line_has_value(
    s: State,
    depth: nat,
    maximize: bool,
    score: spec_fn(State) -> int,
    values: Seq<int>,
    chosen: int,
)
    requires
        depth > 0,
        !s.is_completed(),
        values.len() == s.successors().len(),
        forall|k: int|
            0 <= k < values.len() ==> #[trigger] values[k] == minimax_value(
                s.successors()[k].1,
                (depth - 1) as nat,
                !maximize,
                score,
            ),
        0 <= chosen < values.len(),
        forall|k: int|
            0 <= k < values.len() ==> if maximize {
                #[trigger] values[k] <= values[chosen]
            } else {
                values[k] >= values[chosen]
            },
    ensures
        values[chosen] == minimax_value(s, depth, maximize, score),
{
    lemma_minimax_value_is_best(s, depth, maximize, score);
    s.lemma_successors();
    let replies = s.successors();
    let v = minimax_value(s, depth, maximize, score);
    let stone = choose|stone: int|
        s.can_move(stone) && v == minimax_value(
            #[trigger] s.after_move(stone),
            (depth - 1) as nat,
            !maximize,
            score,
        );
    let j = choose|j: int| 0 <= j < replies.len() && #[trigger] replies[j].0 == stone;
    assert(replies[j].1 == s.after_move(stone));
    assert(values[j] == v);
    let mine = replies[chosen].0 as int;
    assert(s.can_move(mine));
    assert(replies[chosen].1 == s.after_move(mine));
}

/// A principal variation is a course of play: read from `s` on, each board of
/// it follows from the one before by one move of the game, and the leaf is
/// the last of them. It is as long as the depth allows, and shorter only
/// where it ends in a board whose side to move has finished; no board before
/// the leaf is such a board.
pub proof fn lemma_principal_variation_is_play(
    s: State,
    depth: nat,
    maximize: bool,
    score: spec_fn(State) -> int,
    path: Seq<State>,
    leaf: State,
)
    requires
        principal_variation(s, depth, maximize, score, path, leaf),
    ensures
        is_play(played(s, path)),
        played(s, path).last() == leaf,
        path.len() <= depth,
        path.len() < depth ==> leaf.is_completed(),
        forall|k: int| 0 <= k < path.len() ==> !(#[trigger] played(s, path)[k]).is_completed(),
    decreases depth,
{
    if depth == 0 || s.is_completed() {
    } else {
        let child = path.last();
        let rest = path.drop_last();
        lemma_principal_variation_is_play(child, (depth - 1) as nat, !maximize, score, rest, leaf);
        let whole = played(s, path);
        let tail = played(child, rest);
        assert forall|k: int| 0 <= k < tail.len() implies tail[k] == whole[k + 1] by {}
        assert forall|k: int| 0 <= k < whole.len() - 1 implies follows(
            #[trigger] whole[k],
            whole[k + 1],
        ) by {
            if k > 0 {
                assert(follows(tail[k - 1], tail[k - 1 + 1]));
            }
        }
        assert forall|k: int| 0 <= k < path.len() implies !(#[trigger] whole[k]).is_completed() by {
            if k > 0 {
                assert(!tail[k - 1].is_completed());
            }
        }
        assert(tail.last() == whole[whole.len() - 1]);
    }
}

/// Applies `follow` to every reply, in parallel, with rayon's
/// `into_par_iter`, `map` and `collect`. Trusted: the result holds, for each
/// reply and in the order of the replies, what `follow` returns for it.
#[verifier::external_body]
fn follow_all<H: Fn(&State) -> i32 + Sync>(
    replies: Vec<(usize, State)>,
    depth: usize,
    maximize: bool,
    heuristic: &H,
) -> (r: Vec<Line>)
    requires
        is_evaluator(*heuristic),
        forall|k: int|
            0 <= k < replies.len() ==> (#[trigger] replies[k]).1.wf() && replies[k].1.has_room(
                depth as int,
            ),
    ensures
        r.len() == replies.len(),
        forall|k: int|
            0 <= k < r.len() ==> answers(
                replies[k].1,
                depth as nat,
                maximize,
                *heuristic,
                #[trigger] r[k],
            ),
{
    replies.into_par_iter().map(|reply| follow(reply.1, depth, maximize, heuristic)).collect()
}

/// Picks a line of the highest score with rayon's `max_by_key`. Trusted:
/// there is no result exactly when there is no line; else the result is one
/// of the lines and no line scores higher. Which of several lines of the
/// highest score it is, is left open.
#[verifier::external_body]
fn highest(lines: Vec<Line>) -> (r: Option<Line>)
    ensures
        lines.len() == 0 ==> r is None,
        lines.len() > 0 ==> r is Some,
        r matches Some(best) ==> {
            &&& exists|k: int| 0 <= k < lines.len() && #[trigger] lines[k] == best
            &&& forall|k: int| 0 <= k < lines.len() ==> (#[trigger] lines[k]).score <= best.score
        },
{
    lines.into_par_iter().max_by_key(|line| line.score)
}

/// Picks a line of the lowest score with rayon's `min_by_key`. Trusted: there
/// is no result exactly when there is no line; else the result is one of the
/// lines and no line scores lower. Which of several lines of the lowest score
/// it is, is left open.
#[verifier::external_body]
fn lowest(lines: Vec<Line>) -> (r: Option<Line>)
    ensures
        lines.len() == 0 ==> r is None,
        lines.len() > 0 ==> r is Some,
        r matches Some(best) ==> {
            &&& exists|k: int| 0 <= k < lines.len() && #[trigger] lines[k] == best
            &&& forall|k: int| 0 <= k < lines.len() ==> (#[trigger] lines[k]).score >= best.score
        },
{
    lines.into_par_iter().min_by_key(|line| line.score)
}

/// Searches behind one reply: the principal variation of `child`, with
/// `child` itself added at the end of the path, and the score of its leaf.
fn follow<H: Fn(&State) -> i32 + Sync>(
    child: State,
    depth: usize,
    maximize: bool,
    heuristic: &H,
) -> (r: Line)
    requires
        child.wf(),
        child.has_room(depth as int),
        is_evaluator(*heuristic),
    ensures
        answers(child, depth as nat, maximize, *heuristic, r),
{
    let found = child.search(depth, maximize, heuristic);
    let mut path = found.0;
    let leaf = found.1;
    let ghost rest = path@;
    path.push(child);
    assert(path@.drop_last() == rest);
    let score: i32 = heuristic(&leaf);
    Line { score, path, leaf }
}

impl State {
    /// The search itself, with the evaluation function behind a reference so
    /// that every branch can share it.
    fn search<H: Fn(&State) -> i32 + Sync>(&self, depth: usize, maximize: bool, heuristic: &H) -> (r:
        (Vec<State>, State))
        requires
            self.wf(),
            self.has_room(depth as int),
            is_evaluator(*heuristic),
        ensures
            principal_variation(*self, depth as nat, maximize, scoring(*heuristic), r.0@, r.1),
            r.1.wf(),
    {
        if depth == 0 || self.completed() {
            (Vec::new(), self.clone())
        } else {
            let replies = self.next();
            proof {
                self.lemma_successors();
                assert forall|k: int| 0 <= k < replies.len() implies (#[trigger] replies[k]).1.wf()
                    && replies[k].1.has_room(depth - 1) by {
                    self.lemma_move_points(replies[k].0 as int);
                }
            }
            let ghost score = scoring(*heuristic);
            let ghost replies_seq = replies@;
            let lines = follow_all(replies, depth - 1, !maximize, heuristic);
            let ghost lines_seq = lines@;
            let best = if maximize {
                highest(lines)
            } else {
                lowest(lines)
            };
            match best {
                Some(line) => {
                    proof {
                        let chosen = choose|k: int|
                            0 <= k < lines_seq.len() && #[trigger] lines_seq[k] == line;
                        let values = Seq::new(lines_seq.len(), |k: int| lines_seq[k].score as int);
                        assert forall|k: int| 0 <= k < values.len() implies values[k]
                            == minimax_value(
                            self.successors()[k].1,
                            (depth - 1) as nat,
                            !maximize,
                            score,
                        ) by {
                            assert(answers(
                                replies_seq[k].1,
                                (depth - 1) as nat,
                                !maximize,
                                *heuristic,
                                lines_seq[k],
                            ));
                        }
                        lemma_best_line_has_value(
                            *self,
                            depth as nat,
                            maximize,
                            score,
                            values,
                            chosen,
                        );
                        assert(answers(
                            replies_seq[chosen].1,
                            (depth - 1) as nat,
                            !maximize,
                            *heuristic,
                            lines_seq[chosen],
                        ));
                        assert(follows(*self, self.successors()[chosen].1));
                        assert(score(line.leaf) == values[chosen]);
                    }
                    (line.path, line.leaf)
                },
                None => (Vec::new(), self.clone()),
            }
        }
    }

    /// Searches `depth` plies ahead and returns the chosen line and the board
    /// in which it ends.
    ///
    /// The path lists the boards of the line from the last one played back to
    /// the first reply; the board the search started from is not in it. With
    /// `maximize` the side to move takes the reply whose line ends in the
    /// highest score under `heuristic`, and the other side the lowest; without
    /// it the roles are swapped. The search stops where no depth is left or
    /// the side to move has finished all its stones.
    pub fn minimax<H: Fn(&State) -> i32 + Sync>(&self, depth: usize, maximize: bool, heuristic: H) -> (r:
        (Vec<State>, State))
        requires
            depth > 0 ==> self.wf() && self.has_room(depth as int) && is_evaluator(heuristic),
        ensures
            principal_variation(*self, depth as nat, maximize, scoring(heuristic), r.0@, r.1),
            depth == 0 || self.is_completed() ==> r.0@.len() == 0 && r.1 == *self,
            is_play(played(*self, r.0@)),
            played(*self, r.0@).last() == r.1,
            r.0@.len() <= depth,
            r.0@.len() < depth ==> r.1.is_completed(),
            forall|k: int|
                0 <= k < r.0@.len() ==> !(#[trigger] played(*self, r.0@)[k]).is_completed(),
            scoring(heuristic)(r.1) == minimax_value(
                *self,
                depth as nat,
                maximize,
                scoring(heuristic),
            ),
            self.wf() ==> r.1.wf(),
    {
        let found = if depth == 0 {
            (Vec::new(), self.clone())
        } else {
            self.search(depth, maximize, &heuristic)
        };
        proof {
            lemma_principal_variation_is_play(
                *self,
                depth as nat,
                maximize,
                scoring(heuristic),
                found.0@,
                found.1,
            );
        }
        found
    }
}

} // verus!
