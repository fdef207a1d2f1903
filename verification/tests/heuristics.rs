use squadro::State;
use squadro::{bully_heuristic, distance_heuristic, null_heuristic, steps_to_go_heuristic};
use squadro::{XULOS, YELLO};

fn mid_game() -> State {
    State {
        depth: 10,
        turn: YELLO,
        points: [0, 0],
        at: [[0, 3, 1, 2, 1, 3], [0, 1, 2, 0, 3, 1]],
        dir: [[0; 6], [0; 6]],
    }
}

fn late_game() -> State {
    State {
        depth: 20,
        turn: YELLO,
        points: [3, 1],
        at: [[0, 6, 2, 4, 0, 5], [0, 3, 6, 1, 0, 2]],
        dir: [[0, 1, 0, 1, 1, 0], [0, 0, 1, 1, 0, 1]],
    }
}

#[test]
fn all_heuristics_score_the_start_zero() {
    let state = State::initial();
    assert_eq!(steps_to_go_heuristic(&state), 0);
    assert_eq!(distance_heuristic(&state), 0);
    assert_eq!(bully_heuristic(&state), 0);
    assert_eq!(null_heuristic(&state), 0);
}

#[test]
fn steps_to_go_counts_moves_rounded_up() {
    let mut state = State::initial();
    state.at[YELLO][1] = 3;
    assert_eq!(steps_to_go_heuristic(&state), 1);
    state.at[YELLO][1] = 4;
    assert_eq!(steps_to_go_heuristic(&state), 1);
    state.at[YELLO][1] = 6;
    assert_eq!(steps_to_go_heuristic(&state), 2);
    state.dir[YELLO][1] = 1;
    assert_eq!(steps_to_go_heuristic(&state), -2);
    state.at[YELLO][1] = 0;
    assert_eq!(steps_to_go_heuristic(&state), 4);
    let mut other = State::initial();
    other.at[XULOS][3] = 1;
    assert_eq!(steps_to_go_heuristic(&other), 0);
    other.at[XULOS][3] = 2;
    assert_eq!(steps_to_go_heuristic(&other), -1);
}

#[test]
fn steps_to_go_on_given_boards() {
    assert_eq!(steps_to_go_heuristic(&mid_game()), 2);
    assert_eq!(steps_to_go_heuristic(&late_game()), 0);
}

#[test]
fn distance_counts_slots_travelled() {
    let mut state = State::initial();
    state.at[YELLO][2] = 5;
    assert_eq!(distance_heuristic(&state), 5);
    state.dir[YELLO][2] = 1;
    assert_eq!(distance_heuristic(&state), 7);
    state.at[YELLO][2] = 0;
    assert_eq!(distance_heuristic(&state), 12);
    state.at[XULOS][4] = 6;
    state.dir[XULOS][4] = 1;
    assert_eq!(distance_heuristic(&state), 6);
}

#[test]
fn distance_on_given_boards() {
    assert_eq!(distance_heuristic(&mid_game()), 3);
    assert_eq!(distance_heuristic(&late_game()), 3);
}

#[test]
fn bully_counts_the_first_side_s_points_only() {
    let mut state = late_game();
    assert_eq!(bully_heuristic(&state), 3);
    state.points = [0, 9];
    assert_eq!(bully_heuristic(&state), 0);
    state.points = [41, 0];
    state.at = [[0; 6]; 2];
    assert_eq!(bully_heuristic(&state), 41);
}

#[test]
fn bully_wraps_a_count_that_does_not_fit() {
    let mut state = State::initial();
    state.points[0] = 2147483647;
    assert_eq!(bully_heuristic(&state), i32::MAX);
    state.points[0] = 2147483648;
    assert_eq!(bully_heuristic(&state), i32::MIN);
}

#[test]
fn null_scores_every_board_zero() {
    assert_eq!(null_heuristic(&mid_game()), 0);
    assert_eq!(null_heuristic(&late_game()), 0);
}

#[test]
fn equal_boards_score_equal() {
    let built = mid_game();
    let mut made = State::initial();
    made.depth = 10;
    made.at = [[0, 3, 1, 2, 1, 3], [0, 1, 2, 0, 3, 1]];
    assert_eq!(built, made);
    assert_eq!(steps_to_go_heuristic(&built), steps_to_go_heuristic(&made));
    assert_eq!(distance_heuristic(&built), distance_heuristic(&made));
    assert_eq!(bully_heuristic(&built), bully_heuristic(&made));
    assert_eq!(null_heuristic(&built), null_heuristic(&made));
}

#[test]
fn heuristics_do_not_look_at_depth_or_turn() {
    let state = late_game();
    let moved = State { depth: 0, turn: XULOS, ..state.clone() };
    assert_eq!(steps_to_go_heuristic(&state), steps_to_go_heuristic(&moved));
    assert_eq!(distance_heuristic(&state), distance_heuristic(&moved));
    assert_eq!(bully_heuristic(&state), bully_heuristic(&moved));
}
