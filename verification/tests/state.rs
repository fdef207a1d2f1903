use squadro::State;
use squadro::{XULOS, YELLO};

#[test]
fn initial_state_is_the_start_of_a_game() {
    let state = State::initial();
    assert_eq!(state.depth, 0);
    assert_eq!(state.turn, YELLO);
    assert_eq!(state.points, [0, 0]);
    assert_eq!(state.at, [[0; 6]; 2]);
    assert_eq!(state.dir, [[0; 6]; 2]);
    assert!(state.is_valid());
    assert!(!state.completed());
    assert!(!state.is_win());
    assert_eq!(state.win_factor(), 0);
}

#[test]
fn with_turn_changes_the_turn_only() {
    let state = State::initial().with_turn(XULOS);
    assert_eq!(state.turn, XULOS);
    assert_eq!(state, State { turn: XULOS, ..State::initial() });
    assert_eq!(state.with_turn(YELLO), State::initial());
}

#[test]
fn clone_is_equal() {
    let state = State {
        depth: 4,
        turn: XULOS,
        points: [2, 1],
        at: [[0, 1, 2, 3, 4, 5], [0, 6, 5, 4, 3, 2]],
        dir: [[0, 0, 1, 0, 1, 0], [0, 1, 1, 0, 0, 1]],
    };
    assert_eq!(state.clone(), state);
}

#[test]
fn completed_looks_at_the_side_to_move_only() {
    let state = State {
        depth: 30,
        turn: YELLO,
        points: [0, 0],
        at: [[0; 6], [0, 1, 0, 0, 0, 0]],
        dir: [[0, 1, 1, 1, 1, 1], [0, 1, 1, 1, 1, 1]],
    };
    assert!(state.completed());
    assert!(!state.clone().with_turn(XULOS).completed());
    assert!(state.is_win());
    assert!(state.with_turn(XULOS).is_win());
}

#[test]
fn stone_on_slot_zero_is_finished_only_on_its_return_leg() {
    let state = State {
        depth: 0,
        turn: YELLO,
        points: [0, 0],
        at: [[0, 0, 0, 1, 6, 0], [0; 6]],
        dir: [[0, 1, 0, 1, 1, 1], [0; 6]],
    };
    assert!(state.is_finished(YELLO, 1));
    assert!(!state.is_finished(YELLO, 2));
    assert!(!state.is_finished(YELLO, 3));
    assert!(!state.is_finished(YELLO, 4));
    assert!(state.is_finished(YELLO, 5));
    assert!(!state.is_finished(XULOS, 1));
    assert_eq!(state.stones_done(YELLO), 2);
    assert_eq!(state.stones_done(XULOS), 0);
    assert!(!state.side_done(YELLO));
    assert!(!state.completed());
    assert!(!state.is_win());
}

#[test]
fn win_factor_is_the_difference_of_finished_stones() {
    let state = State {
        depth: 0,
        turn: YELLO,
        points: [0, 0],
        at: [[0, 0, 0, 0, 2, 0], [0, 0, 3, 0, 0, 0]],
        dir: [[0, 1, 1, 0, 1, 1], [0, 1, 1, 1, 1, 1]],
    };
    assert_eq!(state.stones_done(YELLO), 3);
    assert_eq!(state.stones_done(XULOS), 4);
    assert_eq!(state.win_factor(), -1);
    let all = State {
        depth: 0,
        turn: YELLO,
        points: [0, 0],
        at: [[0; 6], [0; 6]],
        dir: [[0, 1, 1, 1, 1, 1], [0; 6]],
    };
    assert_eq!(all.win_factor(), 5);
    assert!(all.is_win());
    assert!(all.side_done(YELLO));
    assert!(!all.side_done(XULOS));
}

#[test]
fn validity_is_checked_stone_by_stone() {
    let good = State::initial();
    assert!(good.is_valid());
    let mut far = State::initial();
    far.at[XULOS][5] = 7;
    assert!(!far.is_valid());
    let mut leg = State::initial();
    leg.dir[YELLO][1] = 2;
    assert!(!leg.is_valid());
    let turn = State::initial().with_turn(2);
    assert!(!turn.is_valid());
    let mut unused = State::initial();
    unused.at[YELLO][0] = 9;
    unused.dir[XULOS][0] = 9;
    assert!(unused.is_valid());
}

#[test]
fn room_is_counted_in_plies() {
    let state = State::initial();
    assert!(state.has_room_for(0));
    assert!(state.has_room_for(1000));
    assert!(state.has_room_for(usize::MAX / 5));
    assert!(!state.has_room_for(usize::MAX / 5 + 1));
    assert!(!state.has_room_for(usize::MAX));
    let deep = State { depth: usize::MAX, ..State::initial() };
    assert!(deep.has_room_for(0));
    assert!(!deep.has_room_for(1));
    let rich = State { points: [0, usize::MAX - 9], ..State::initial() };
    assert!(rich.has_room_for(1));
    assert!(!rich.has_room_for(2));
}
