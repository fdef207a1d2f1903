use squadro::State;
use squadro::{bully_heuristic, distance_heuristic, null_heuristic, steps_to_go_heuristic};
use squadro::{XULOS, YELLO};

fn mid_game() -> State {
    State {
        depth: 10,
        turn: YELLO,
        points: [0, 0],
        at: [[0, 3, 1, 2, 1, 3], [0, 1, 2, 0, 3, 1]],
        dir: [[0; 6], [0; 6]],
    }
}

fn last_move() -> State {
    State {
        depth: 0,
        turn: YELLO,
        points: [0, 0],
        at: [[0, 0, 0, 0, 0, 1], [0; 6]],
        dir: [[0, 1, 1, 1, 1, 1], [0, 1, 1, 1, 1, 1]],
    }
}

fn mixed(state: &State) -> i32 {
    if state.turn == 0 {
        bully_heuristic(state)
    } else {
        distance_heuristic(state)
    }
}

/// Checks that `path`, read from its last entry to its first, is a course of
/// play from `start` that ends in `leaf`, and that no board before the leaf
/// has a side to move that is finished.
fn assert_line(start: &State, path: &[State], leaf: &State) {
    let mut here = start.clone();
    for after in path.iter().rev() {
        assert!(!here.completed());
        let moves = here.next();
        assert!(moves.iter().any(|m| m.1 == *after), "{:?} does not follow {:?}", after, here);
        here = after.clone();
    }
    assert_eq!(here, *leaf);
}

/// The minimax value of `state`, by plain recursion over every line.
fn value(state: &State, depth: usize, maximize: bool, heuristic: fn(&State) -> i32) -> i32 {
    if depth == 0 || state.completed() {
        return heuristic(state);
    }
    let replies = state.next();
    let values = replies.iter().map(|m| value(&m.1, depth - 1, !maximize, heuristic));
    if maximize {
        values.max().unwrap()
    } else {
        values.min().unwrap()
    }
}

#[test]
fn depth_zero_returns_the_state_itself() {
    for state in [State::initial(), mid_game(), last_move()] {
        for maximize in [true, false] {
            let (path, leaf) = state.minimax(0, maximize, steps_to_go_heuristic);
            assert!(path.is_empty());
            assert_eq!(leaf, state);
            let (path, leaf) = state.minimax(0, maximize, null_heuristic);
            assert!(path.is_empty());
            assert_eq!(leaf, state);
        }
    }
}

#[test]
fn depth_zero_asks_nothing_of_the_state_or_the_heuristic() {
    let odd = State {
        depth: usize::MAX,
        turn: 7,
        points: [usize::MAX, usize::MAX],
        at: [[9; 6]; 2],
        dir: [[5; 6]; 2],
    };
    let (path, leaf) = odd.minimax(0, true, |_: &State| -> i32 { panic!("not to be called") });
    assert!(path.is_empty());
    assert_eq!(leaf, odd);
}

#[test]
fn completed_side_stops_the_search() {
    let state = State {
        depth: 40,
        turn: YELLO,
        points: [2, 2],
        at: [[0; 6], [0, 1, 2, 3, 4, 5]],
        dir: [[0, 1, 1, 1, 1, 1], [0; 6]],
    };
    assert!(state.completed());
    let (path, leaf) = state.minimax(5, true, distance_heuristic);
    assert!(path.is_empty());
    assert_eq!(leaf, state);
    let (path, leaf) = state.minimax(5, false, distance_heuristic);
    assert!(path.is_empty());
    assert_eq!(leaf, state);
}

#[test]
fn search_ends_where_the_side_to_move_is_finished() {
    let state = last_move();
    let (path, leaf) = state.minimax(3, true, distance_heuristic);
    assert_eq!(path.len(), 1);
    assert_eq!(leaf, path[0]);
    assert_eq!(leaf, state.advance(5));
    assert!(leaf.completed());
    assert_eq!(leaf.turn, XULOS);
    assert_eq!(distance_heuristic(&leaf), 0);
    assert_line(&state, &path, &leaf);
}

#[test]
fn first_move_by_steps_remaining() {
    let state = State::initial();
    let (path, leaf) = state.minimax(1, true, steps_to_go_heuristic);
    assert_eq!(path.len(), 1);
    assert_eq!(path[0], leaf);
    let candidates = state.next();
    assert_eq!(candidates.len(), 5);
    assert!(candidates.iter().any(|m| m.1 == leaf));
    let best: i32 = candidates.iter().map(|m| steps_to_go_heuristic(&m.1)).max().unwrap();
    assert_eq!(steps_to_go_heuristic(&leaf), best);
    assert_eq!(best, 1);
    for (_, candidate) in candidates.iter() {
        assert!(steps_to_go_heuristic(candidate) <= steps_to_go_heuristic(&leaf));
        assert_eq!(candidate.at[XULOS], state.at[XULOS]);
        assert_eq!(candidate.dir[XULOS], state.dir[XULOS]);
    }
}

#[test]
fn maximizer_takes_the_highest_reply() {
    let state = mid_game();
    let (path, leaf) = state.minimax(1, true, distance_heuristic);
    assert_eq!(leaf, state.advance(3));
    assert_eq!(path, vec![state.advance(3)]);
    assert_eq!(distance_heuristic(&leaf), 9);
}

#[test]
fn minimizer_takes_the_lowest_reply() {
    let state = mid_game();
    let (path, leaf) = state.minimax(1, false, distance_heuristic);
    assert_eq!(leaf, state.advance(4));
    assert_eq!(path, vec![state.advance(4)]);
    assert_eq!(distance_heuristic(&leaf), 4);
    let (path, leaf) = state.minimax(1, false, steps_to_go_heuristic);
    assert_eq!(leaf, state.advance(5));
    assert_eq!(path, vec![state.advance(5)]);
    assert_eq!(steps_to_go_heuristic(&leaf), -1);
}

#[test]
fn minimizer_at_the_start() {
    let state = State::initial();
    let (path, leaf) = state.minimax(1, false, distance_heuristic);
    assert_eq!(path.len(), 1);
    assert_eq!(distance_heuristic(&leaf), 1);
    assert!(leaf == state.advance(2) || leaf == state.advance(4));
}

#[test]
fn leaf_scores_the_minimax_value() {
    let state = mid_game();
    let steps_max: [i32; 5] = [2, 4, 1, 2, 1];
    let steps_min: [i32; 5] = [2, -1, 2, 0, -1];
    let dist_max: [i32; 5] = [3, 9, 4, 10, 4];
    let dist_min: [i32; 5] = [3, 4, 3, 4, 3];
    let bully_max: [i32; 5] = [0, 1, 1, 2, 2];
    for depth in 0..5 {
        let (_, leaf) = state.minimax(depth, true, steps_to_go_heuristic);
        assert_eq!(steps_to_go_heuristic(&leaf), steps_max[depth]);
        let (_, leaf) = state.minimax(depth, false, steps_to_go_heuristic);
        assert_eq!(steps_to_go_heuristic(&leaf), steps_min[depth]);
        let (_, leaf) = state.minimax(depth, true, distance_heuristic);
        assert_eq!(distance_heuristic(&leaf), dist_max[depth]);
        let (_, leaf) = state.minimax(depth, false, distance_heuristic);
        assert_eq!(distance_heuristic(&leaf), dist_min[depth]);
        let (_, leaf) = state.minimax(depth, true, bully_heuristic);
        assert_eq!(bully_heuristic(&leaf), bully_max[depth]);
        let (_, leaf) = state.minimax(depth, false, bully_heuristic);
        assert_eq!(bully_heuristic(&leaf), 0);
    }
}

#[test]
fn leaf_scores_what_plain_recursion_finds() {
    let heuristics: [fn(&State) -> i32; 5] =
        [steps_to_go_heuristic, distance_heuristic, bully_heuristic, null_heuristic, mixed];
    for state in [State::initial(), mid_game(), last_move()] {
        for heuristic in heuristics {
            for depth in 0..4 {
                for maximize in [true, false] {
                    let (path, leaf) = state.minimax(depth, maximize, heuristic);
                    assert_eq!(heuristic(&leaf), value(&state, depth, maximize, heuristic));
                    assert_line(&state, &path, &leaf);
                }
            }
        }
    }
}

#[test]
fn path_is_a_course_of_play_of_full_length() {
    let state = State::initial();
    for depth in 0..5 {
        let (path, leaf) = state.minimax(depth, true, distance_heuristic);
        assert_eq!(path.len(), depth);
        assert_line(&state, &path, &leaf);
        if depth > 0 {
            assert_eq!(path[0], leaf);
            assert_eq!(path[depth - 1].depth, 1);
            assert_eq!(leaf.depth, depth);
        }
        for (k, board) in path.iter().enumerate() {
            assert_eq!(board.depth, depth - k);
            assert!(board.is_valid());
        }
    }
}

#[test]
fn every_step_of_the_path_is_itself_the_best_reply() {
    let state = mid_game();
    let depth: usize = 4;
    let (path, leaf) = state.minimax(depth, true, distance_heuristic);
    assert_eq!(path.len(), depth);
    let mut here = state.clone();
    let mut maximize = true;
    for (k, after) in path.iter().rev().enumerate() {
        let left: usize = depth - k;
        assert_eq!(
            value(&here, left, maximize, distance_heuristic),
            value(after, left - 1, !maximize, distance_heuristic)
        );
        here = after.clone();
        maximize = !maximize;
    }
    assert_eq!(here, leaf);
    assert_eq!(distance_heuristic(&leaf), 4);
}

#[test]
fn heuristic_may_depend_on_the_turn() {
    let state = mid_game();
    let expected: [i32; 5] = [0, 9, 1, 10, 2];
    for depth in 0..5 {
        let (path, leaf) = state.minimax(depth, true, |s: &State| {
            if s.turn == 0 {
                bully_heuristic(s)
            } else {
                distance_heuristic(s)
            }
        });
        assert_eq!(mixed(&leaf), expected[depth]);
        assert_line(&state, &path, &leaf);
    }
}

#[test]
fn null_heuristic_still_returns_a_line() {
    let state = State::initial();
    let (path, leaf) = state.minimax(3, true, null_heuristic);
    assert_eq!(path.len(), 3);
    assert_line(&state, &path, &leaf);
}

#[test]
fn search_does_not_change_its_input() {
    let state = mid_game();
    let before = state.clone();
    let _ = state.minimax(3, true, steps_to_go_heuristic);
    assert_eq!(state, before);
}

#[test]
fn game_played_by_search_comes_to_an_end() {
    let mut state = State::initial();
    let mut plies: usize = 0;
    while !state.completed() {
        assert!(plies < 400, "no end after {} plies", plies);
        let (moves, _) = state.minimax(2, state.turn == 0, mixed);
        let after = moves.last().unwrap().clone();
        assert!(state.next().iter().any(|m| m.1 == after));
        state = after;
        plies += 1;
    }
    assert_eq!(state.depth, plies);
    assert!(state.is_valid());
    assert!(state.win_factor() >= -5 && state.win_factor() <= 5);
}
