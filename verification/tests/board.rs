use squadro::State;
use squadro::{parse_board, MalformedBoard};
use squadro::{XULOS, YELLO};

const START: &str = "/ - 1 3 2 3 1 - \\\n|   v v v v v   |\n3 >           . 1\n1 >           . 3\n2 >           . 2\n1 >           . 3\n3 >           . 1\n|   . . . . .   |\n\\ - 3 1 2 1 3 - /";

const MID: &str = "/ - 1 3 2 3 1 - \\\n|   . . v . .   |\n3 . v   >   v . 1\n1 . > v       . 3\n2 .   >   v   . 2\n1 . >         . 3\n3 .     >     . 1\n|   . . . . .   |\n\\ - 3 1 2 1 3 - /";

const LATE: &str = "/ - 1 3 2 3 1 - \\\n|   . . . v .   |\n3 .     ^     < 1\n1 .   >     ^ . 3\n2 . v     <   . 2\n1 <           . 3\n3 .         > . 1\n|   . ^ . . .   |\n\\ - 3 1 2 1 3 - /";

fn mid_game() -> State {
    State {
        depth: 10,
        turn: YELLO,
        points: [0, 0],
        at: [[0, 3, 1, 2, 1, 3], [0, 1, 2, 0, 3, 1]],
        dir: [[0; 6], [0; 6]],
    }
}

fn late_game() -> State {
    State {
        depth: 20,
        turn: YELLO,
        points: [3, 1],
        at: [[0, 6, 2, 4, 0, 5], [0, 3, 6, 1, 0, 2]],
        dir: [[0, 1, 0, 1, 1, 0], [0, 0, 1, 1, 0, 1]],
    }
}

fn shown(state: &State) -> State {
    State { depth: 0, turn: YELLO, points: [0, 0], at: state.at, dir: state.dir }
}

fn replace_line(text: &str, row: usize, with: &str) -> String {
    let mut lines: Vec<String> = text.split('\n').map(|l| l.to_string()).collect();
    lines[row] = with.to_string();
    lines.join("\n")
}

#[test]
fn diagram_of_the_start() {
    assert_eq!(State::initial().diagram(0), START);
}

#[test]
fn diagram_of_given_boards() {
    assert_eq!(mid_game().diagram(0), MID);
    assert_eq!(late_game().diagram(0), LATE);
}

#[test]
fn diagram_has_nine_lines_of_seventeen_characters() {
    let text = late_game().diagram(0);
    let lines: Vec<&str> = text.split('\n').collect();
    assert_eq!(lines.len(), 9);
    for line in lines {
        assert_eq!(line.chars().count(), 17);
    }
    assert!(!text.ends_with('\n'));
}

#[test]
fn diagram_is_indented_by_three_blanks_per_level() {
    let plain = late_game().diagram(0);
    for indent in 0..4 {
        let text = late_game().diagram(indent);
        let expected: Vec<String> =
            plain.split('\n').map(|l| format!("{}{}", "   ".repeat(indent), l)).collect();
        assert_eq!(text, expected.join("\n"));
    }
    assert_eq!(
        late_game().diagram(2),
        "      / - 1 3 2 3 1 - \\\n      |   . . . v .   |\n      3 .     ^     < 1\n      1 .   >     ^ . 3\n      2 . v     <   . 2\n      1 <           . 3\n      3 .         > . 1\n      |   . ^ . . .   |\n      \\ - 3 1 2 1 3 - /"
    );
}

#[test]
fn diagram_does_not_show_depth_turn_or_points() {
    assert_eq!(shown(&late_game()).diagram(0), late_game().diagram(0));
    assert_eq!(late_game().with_turn(XULOS).diagram(0), LATE);
}

#[test]
fn diagram_shows_one_of_two_stones_on_the_same_crossing() {
    let state = State {
        depth: 0,
        turn: YELLO,
        points: [0, 0],
        at: [[0, 2, 0, 1, 0, 0], [0, 3, 1, 0, 0, 0]],
        dir: [[0, 0, 0, 1, 0, 0], [0, 1, 0, 0, 0, 0]],
    };
    assert_eq!(
        state.diagram(0),
        "/ - 1 3 2 3 1 - \\\n|   . . v v v   |\n3 .   v       . 1\n1 >           . 3\n2 . <         . 2\n1 >           . 3\n3 >           . 1\n|   . . . . .   |\n\\ - 3 1 2 1 3 - /"
    );
    let equal = State {
        depth: 0,
        turn: YELLO,
        points: [0, 0],
        at: [[0, 0, 2, 0, 0, 0], [0, 0, 2, 0, 0, 0]],
        dir: [[0; 6], [0; 6]],
    };
    assert_eq!(
        equal.diagram(0),
        "/ - 1 3 2 3 1 - \\\n|   v . v v v   |\n3 >           . 1\n1 .   v       . 3\n2 >           . 2\n1 >           . 3\n3 >           . 1\n|   . . . . .   |\n\\ - 3 1 2 1 3 - /"
    );
}

#[test]
fn parse_reads_the_start() {
    assert_eq!(parse_board(START), Ok(State::initial()));
}

#[test]
fn parse_reads_given_boards() {
    assert_eq!(parse_board(MID), Ok(shown(&mid_game())));
    assert_eq!(parse_board(LATE), Ok(shown(&late_game())));
}

#[test]
fn parse_through_from_str() {
    assert_eq!(START.parse::<State>(), Ok(State::initial()));
    assert_eq!(LATE.parse::<State>(), Ok(shown(&late_game())));
    assert_eq!("".parse::<State>(), Err(MalformedBoard { side: 0, stone: 1 }));
}

#[test]
fn parse_takes_a_final_line_feed_and_carriage_returns() {
    let with_feed = format!("{}\n", LATE);
    assert_eq!(parse_board(&with_feed), Ok(shown(&late_game())));
    let dos = LATE.replace('\n', "\r\n");
    assert_eq!(parse_board(&dos), Ok(shown(&late_game())));
    let dos_feed = format!("{}\r\n", dos);
    assert_eq!(parse_board(&dos_feed), Ok(shown(&late_game())));
}

#[test]
fn parse_ignores_the_frame_and_further_lines() {
    let bare = "\n    v v v v v\n  >\n  >\n  >\n  >\n  >\n\n";
    assert_eq!(parse_board(bare), Ok(State::initial()));
    let more = format!("{}\nwhatever follows\n> < v ^", MID);
    assert_eq!(parse_board(&more), Ok(shown(&mid_game())));
    let other_frame = MID.replace('|', "#").replace('.', "o").replace('3', "é");
    assert_eq!(parse_board(&other_frame), Ok(shown(&mid_game())));
}

#[test]
fn parse_reads_every_second_character() {
    let shifted = replace_line(START, 2, "3 .>            . 1");
    assert_eq!(parse_board(&shifted), Err(MalformedBoard { side: 0, stone: 1 }));
    let wide = replace_line(START, 2, "é é é é > é é é é");
    let mut expected = State::initial();
    expected.at[YELLO][1] = 3;
    assert_eq!(parse_board(&wide), Ok(expected));
}

#[test]
fn parse_prefers_the_first_outbound_glyph() {
    let both = replace_line(START, 3, "1 < >   >     . 3");
    let mut expected = State::initial();
    expected.at[YELLO][2] = 1;
    assert_eq!(parse_board(&both), Ok(expected));
    let back = replace_line(START, 3, "1 .   < <     . 3");
    let mut expected = State::initial();
    expected.at[YELLO][2] = 2;
    expected.dir[YELLO][2] = 1;
    assert_eq!(parse_board(&back), Ok(expected));
}

#[test]
fn parse_reads_an_outbound_stone_on_slot_six() {
    let far = replace_line(START, 2, "3 .           > 1");
    let mut expected = State::initial();
    expected.at[YELLO][1] = 6;
    assert_eq!(parse_board(&far), Ok(expected.clone()));
    assert!(expected.is_valid());
}

#[test]
fn parse_reads_a_short_line_up_to_its_glyph() {
    let short = replace_line(START, 2, "3 >");
    assert_eq!(parse_board(&short), Ok(State::initial()));
}

#[test]
fn empty_text_is_malformed() {
    assert_eq!(parse_board(""), Err(MalformedBoard { side: 0, stone: 1 }));
    assert_eq!(parse_board("\n"), Err(MalformedBoard { side: 0, stone: 1 }));
}

#[test]
fn missing_stone_is_malformed() {
    let no_third = replace_line(START, 4, "2 .           . 2");
    assert_eq!(parse_board(&no_third), Err(MalformedBoard { side: 0, stone: 3 }));
    let no_second_column = replace_line(START, 1, "|   v . v v v   |");
    assert_eq!(parse_board(&no_second_column), Err(MalformedBoard { side: 1, stone: 2 }));
}

#[test]
fn first_unreadable_lane_is_named() {
    let two = replace_line(&replace_line(START, 6, "3 .           . 1"), 3, "1 .           . 3");
    assert_eq!(parse_board(&two), Err(MalformedBoard { side: 0, stone: 2 }));
    let both_sides =
        replace_line(&replace_line(START, 1, "|   . . . . .   |"), 6, "3 .           . 1");
    assert_eq!(parse_board(&both_sides), Err(MalformedBoard { side: 0, stone: 5 }));
}

#[test]
fn text_cut_short_is_malformed() {
    let lines: Vec<&str> = START.split('\n').collect();
    assert_eq!(parse_board(&lines[..5].join("\n")), Err(MalformedBoard { side: 0, stone: 4 }));
    assert_eq!(parse_board(&lines[..7].join("\n")), Ok(State::initial()));
    let narrow = replace_line(START, 5, "1 <");
    let mut expected = State::initial();
    expected.dir[YELLO][4] = 1;
    assert_eq!(parse_board(&narrow), Err(MalformedBoard { side: 0, stone: 4 }));
    expected.at[YELLO][4] = 0;
    let narrow_out = replace_line(START, 5, "1 >");
    assert_eq!(parse_board(&narrow_out), Ok(State::initial()));
    let column_cut = replace_line(MID, 1, "|   . .");
    assert_eq!(parse_board(&column_cut), Err(MalformedBoard { side: 1, stone: 3 }));
}

#[test]
fn leading_empty_line_shifts_the_rows() {
    let shifted = format!("\n{}", START);
    assert_eq!(parse_board(&shifted), Err(MalformedBoard { side: 0, stone: 1 }));
}

#[test]
fn indented_diagram_is_not_read_back() {
    let text = State::initial().diagram(1);
    assert_eq!(parse_board(&text), Err(MalformedBoard { side: 0, stone: 1 }));
}

#[test]
fn reading_a_diagram_gives_the_stones_back() {
    let mut seed: u64 = 2024;
    for _ in 0..10 {
        let mut state = State::initial();
        for _ in 0..150 {
            let text = state.diagram(0);
            let read = parse_board(&text);
            assert_eq!(read, Ok(shown(&state)), "{}", text);
            let again = read.unwrap();
            assert_eq!(again.diagram(0), text);
            assert_eq!(parse_board(&again.diagram(0)), Ok(again));
            let moves = state.next();
            if moves.is_empty() {
                break;
            }
            seed = seed.wrapping_mul(6364136223846793005).wrapping_add(1442695040888963407);
            let pick: usize = ((seed >> 33) % (moves.len() as u64)) as usize;
            state = moves[pick].1.clone();
        }
    }
}

#[test]
fn read_boards_score_like_built_boards() {
    let read = parse_board(LATE).unwrap();
    let built = shown(&late_game());
    assert_eq!(read, built);
    assert_eq!(squadro::steps_to_go_heuristic(&read), squadro::steps_to_go_heuristic(&built));
    assert_eq!(squadro::distance_heuristic(&read), 3);
    assert_eq!(squadro::bully_heuristic(&read), 0);
    assert_eq!(squadro::null_heuristic(&read), 0);
    let again = parse_board(&read.diagram(0)).unwrap();
    assert_eq!(again, read);
    assert_eq!(squadro::steps_to_go_heuristic(&again), squadro::steps_to_go_heuristic(&read));
}
