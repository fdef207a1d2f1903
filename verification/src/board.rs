//! The board as text: a diagram of nine lines, and the reading of one.
//!
//! The diagram is a grid of nine rows and nine columns, one character per
//! cell, the cells of a row set apart by single spaces. The outer rows and
//! columns are the frame; it shows the step sizes of the lanes as digits. The
//! stones of the first side stand in rows 2 to 6, one per row, as `>` on the
//! way out and `<` on the way back, in the column of their slot plus one. The
//! stones of the second side stand in columns 2 to 6, one per column, as `v`
//! and `^`, in the row of their slot plus one.

use vstd::prelude::*;
use vstd::string::StringExecFns;
use crate::geometry::{step_of, step_size, XULOS, YELLO};
use crate::grid::{grid_of, lemma_grid_equal, lemma_grid_of, lemma_pair_equal, lemma_pair_of, pair_of};
use crate::state::State;

verus! {

/// The digit that shows a step size.
pub open spec fn digit(n: int) -> char {
    if n == 0 {
        '0'
    } else if n == 1 {
        '1'
    } else if n == 2 {
        '2'
    } else {
        '3'
    }
}

/// The cell of the frame and the empty field at `row` and `col`: corners and
/// edges, the step sizes of the lanes on the edges next to them, dots where
/// the lanes begin and end, blanks in between.
pub open spec fn frame_cell(row: int, col: int) -> char {
    if row == 0 || row == 8 {
        if col == 0 {
            if row == 0 {
                '/'
            } else {
                '\\'
            }
        } else if col == 8 {
            if row == 0 {
                '\\'
            } else {
                '/'
            }
        } else if 2 <= col <= 6 {
            digit(step_size(XULOS as int, if row == 0 { 0int } else { 1int }, col - 1))
        } else {
            '-'
        }
    } else if row == 1 || row == 7 {
        if col == 0 || col == 8 {
            '|'
        } else if 2 <= col <= 6 {
            '.'
        } else {
            ' '
        }
    } else {
        if col == 0 || col == 8 {
            digit(step_size(YELLO as int, if col == 0 { 0int } else { 1int }, row - 1))
        } else if col == 1 || col == 7 {
            '.'
        } else {
            ' '
        }
    }
}

/// The glyph of a stone of `side` that travels out.
pub open spec fn out_glyph(side: int) -> char {
    if side == 0 {
        '>'
    } else {
        'v'
    }
}

/// The glyph of a stone of `side` that travels back.
pub open spec fn back_glyph(side: int) -> char {
    if side == 0 {
        '<'
    } else {
        '^'
    }
}

impl State {
    /// The glyph of stone `stone` of `side`.
    pub open spec fn glyph(self, side: int, stone: int) -> char {
        if self.outbound(side, stone) {
            out_glyph(side)
        } else {
            back_glyph(side)
        }
    }

    /// A stone of the first side stands in the cell at `row` and `col`.
    pub open spec fn first_side_on(self, row: int, col: int) -> bool {
        2 <= row <= 6 && self.slot(0, row - 1) + 1 == col
    }

    /// A stone of the second side stands in the cell at `row` and `col`.
    pub open spec fn second_side_on(self, row: int, col: int) -> bool {
        2 <= col <= 6 && self.slot(1, col - 1) + 1 == row
    }

    /// The cell of the diagram at `row` and `col`. Where a stone of each side
    /// stands in the same cell, the diagram shows the one with the higher
    /// number, and the second side's where the numbers are equal.
    pub open spec fn cell(self, row: int, col: int) -> char {
        if self.second_side_on(row, col) && (!self.first_side_on(row, col) || col >= row) {
            self.glyph(1, col - 1)
        } else if self.first_side_on(row, col) {
            self.glyph(0, row - 1)
        } else {
            frame_cell(row, col)
        }
    }

    /// Row `row` of the diagram: its nine cells with single spaces between.
    pub open spec fn row_text(self, row: int) -> Seq<char> {
        Seq::new(
            17,
            |k: int|
                if k % 2 == 0 {
                    self.cell(row, k / 2)
                } else {
                    ' '
                },
        )
    }

    /// Row `row` of the diagram behind a margin of three blanks per level of
    /// `indent`.
    pub open spec fn line_text(self, indent: int, row: int) -> Seq<char> {
        margin(indent) + self.row_text(row)
    }

    /// The first `n` lines of the diagram, with a line feed between each two.
    pub open spec fn diagram_rows(self, indent: int, n: int) -> Seq<char>
        decreases n,
    {
        if n <= 0 {
            Seq::empty()
        } else if n == 1 {
            self.line_text(indent, 0)
        } else {
            self.diagram_rows(indent, n - 1) + seq!['\n'] + self.line_text(indent, n - 1)
        }
    }

    /// The diagram of the board: nine lines, no line feed after the last.
    pub open spec fn diagram_text(self, indent: int) -> Seq<char> {
        self.diagram_rows(indent, 9)
    }

    /// The text of one cell of the diagram.
    fn cell_str(&self, row: usize, col: usize) -> (r: &'static str)
        requires
            self.wf(),
            row < 9,
            col < 9,
        ensures
            r@ == seq![self.cell(row as int, col as int)],
    {
        proof {
            reveal_strlit(">");
            reveal_strlit("<");
            reveal_strlit("v");
            reveal_strlit("^");
            if 2 <= col <= 6 {
                assert(0 <= self.slot(1, col - 1) <= 6);
            }
            if 2 <= row <= 6 {
                assert(0 <= self.slot(0, row - 1) <= 6);
            }
        }
        let second_here: bool = 2 <= col && col <= 6 && self.at[XULOS][col - 1] + 1 == row;
        let first_here: bool = 2 <= row && row <= 6 && self.at[YELLO][row - 1] + 1 == col;
        if second_here && (!first_here || col >= row) {
            if self.dir[XULOS][col - 1] == 0 {
                "v"
            } else {
                "^"
            }
        } else if first_here {
            if self.dir[YELLO][row - 1] == 0 {
                ">"
            } else {
                "<"
            }
        } else {
            frame_str(row, col)
        }
    }

    /// Appends one line of the diagram to `out`.
    fn write_line(&self, out: &mut String, indent: usize, row: usize)
        requires
            self.wf(),
            row < 9,
        ensures
            final(out)@ == old(out)@ + self.line_text(indent as int, row as int),
    {
        let ghost before = out@;
        let mut level: usize = 0;
        while level < indent
            invariant
                level <= indent,
                out@ == before + margin(level as int),
            decreases indent - level,
        {
            proof {
                reveal_strlit("   ");
            }
            out.append("   ");
            level = level + 1;
            assert(out@ =~= before + margin(level as int));
        }
        let ghost start = out@;
        let ghost whole = self.row_text(row as int);
        let mut col: usize = 0;
        while col < 9
            invariant
                self.wf(),
                row < 9,
                col <= 9,
                whole == self.row_text(row as int),
                out@ == start + whole.take(
                    if col == 0 {
                        0int
                    } else {
                        2 * col - 1
                    },
                ),
            decreases 9 - col,
        {
            if col > 0 {
                proof {
                    reveal_strlit(" ");
                }
                out.append(" ");
            }
            let text = self.cell_str(row, col);
            out.append(text);
            col = col + 1;
            assert(out@ =~= start + whole.take(2 * col - 1));
        }
        assert(whole.take(17) =~= whole);
        assert(out@ =~= before + self.line_text(indent as int, row as int));
    }

    /// The diagram of the board as text: nine lines with a line feed between
    /// each two, every line behind a margin of three blanks per level of
    /// `indent`.
    pub fn diagram(&self, indent: usize) -> (r: String)
        requires
            self.wf(),
        ensures
            r@ == self.diagram_text(indent as int),
    {
        let mut out = String::new();
        let mut row: usize = 0;
        while row < 9
            invariant
                self.wf(),
                row <= 9,
                out@ == self.diagram_rows(indent as int, row as int),
            decreases 9 - row,
        {
            if row > 0 {
                proof {
                    reveal_strlit("\n");
                }
                out.append("\n");
            }
            self.write_line(&mut out, indent, row);
            row = row + 1;
            assert(out@ =~= self.diagram_rows(indent as int, row as int));
        }
        out
    }
}

/// A margin of three blanks per level of `indent`.
pub open spec fn margin(indent: int) -> Seq<char> {
    Seq::new((3 * indent) as nat, |k: int| ' ')
}

/// The text of the digit that shows the step size `n`.
fn digit_str(n: usize) -> (r: &'static str)
    requires
        n <= 3,
    ensures
        r@ == seq![digit(n as int)],
{
    proof {
        reveal_strlit("0");
        reveal_strlit("1");
        reveal_strlit("2");
        reveal_strlit("3");
    }
    if n == 0 {
        "0"
    } else if n == 1 {
        "1"
    } else if n == 2 {
        "2"
    } else {
        "3"
    }
}

/// The text of one cell of the frame and the empty field.
fn frame_str(row: usize, col: usize) -> (r: &'static str)
    requires
        row < 9,
        col < 9,
    ensures
        r@ == seq![frame_cell(row as int, col as int)],
{
    proof {
        reveal_strlit("/");
        reveal_strlit("\\");
        reveal_strlit("-");
        reveal_strlit("|");
        reveal_strlit(".");
        reveal_strlit(" ");
    }
    if row == 0 || row == 8 {
        if col == 0 {
            if row == 0 {
                "/"
            } else {
                "\\"
            }
        } else if col == 8 {
            if row == 0 {
                "\\"
            } else {
                "/"
            }
        } else if 2 <= col && col <= 6 {
            digit_str(step_of(XULOS, if row == 0 { 0 } else { 1 }, col - 1))
        } else {
            "-"
        }
    } else if row == 1 || row == 7 {
        if col == 0 || col == 8 {
            "|"
        } else if 2 <= col && col <= 6 {
            "."
        } else {
            " "
        }
    } else {
        if col == 0 || col == 8 {
            digit_str(step_of(YELLO, if col == 0 { 0 } else { 1 }, row - 1))
        } else if col == 1 || col == 7 {
            "."
        } else {
            " "
        }
    }
}


/// A text that does not show a board: the lane of stone `stone` of `side` is
/// the first, in reading order, that cannot be read.
#[derive(Debug, Clone, Copy, PartialEq, Eq)]
pub struct MalformedBoard {
    /// The side of the stone whose lane cannot be read.
    pub side: usize,
    /// The number of that stone.
    pub stone: usize,
}

/// What a search along a lane comes to.
#[derive(Debug, Clone, Copy, PartialEq, Eq)]
pub enum Scan {
    /// The glyph stands at this position of the lane.
    Found(usize),
    /// The lane has all its seven positions and the glyph is on none of them.
    Absent,
    /// The text ends before the glyph is met.
    Broken,
}

/// A line without the carriage return that may end it.
pub open spec fn without_return(line: Seq<char>) -> Seq<char> {
    if line.len() > 0 && line.last() == '\r' {
        line.drop_last()
    } else {
        line
    }
}

/// The lines that `text` has closed with a line feed, and what it holds
/// behind the last line feed. A carriage return just before a line feed
/// belongs to the line ending, not to the line.
pub open spec fn split_lines(text: Seq<char>) -> (Seq<Seq<char>>, Seq<char>)
    decreases text.len(),
{
    if text.len() == 0 {
        (Seq::empty(), Seq::empty())
    } else {
        let before = split_lines(text.drop_last());
        if text.last() == '\n' {
            (before.0.push(without_return(before.1)), Seq::empty())
        } else {
            (before.0, before.1.push(text.last()))
        }
    }
}

/// The lines of `text`. Every line feed ends a line; what follows the last
/// line feed is a line too unless it is empty.
pub open spec fn lines_of(text: Seq<char>) -> Seq<Seq<char>> {
    let split = split_lines(text);
    if split.1.len() > 0 {
        split.0.push(split.1)
    } else {
        split.0
    }
}

/// The cell at `row` and `col` of a text given by its lines: the character
/// at position `2 * col` of line `row`, if the text has one there.
pub open spec fn cell_at(lines: Seq<Seq<char>>, row: int, col: int) -> Option<char> {
    if 0 <= row < lines.len() && 0 <= col && 2 * col < lines[row].len() {
        Some(lines[row][2 * col])
    } else {
        None
    }
}

/// The cell at position `p` of the lane of stone `stone` of `side`: the
/// lanes of the first side are rows, those of the second side columns.
pub open spec fn lane_cell(lines: Seq<Seq<char>>, side: int, stone: int, p: int) -> Option<char> {
    if side == 0 {
        cell_at(lines, stone + 1, p)
    } else {
        cell_at(lines, p, stone + 1)
    }
}

/// The search for `glyph` along a lane, from position `p` to position 7.
pub open spec fn find_glyph(lines: Seq<Seq<char>>, side: int, stone: int, glyph: char, p: int) -> Scan
    decreases 8 - p,
{
    if p > 7 {
        Scan::Absent
    } else {
        match lane_cell(lines, side, stone, p) {
            None => Scan::Broken,
            Some(c) => if c == glyph {
                Scan::Found(p as usize)
            } else {
                find_glyph(lines, side, stone, glyph, p + 1)
            },
        }
    }
}

/// The leg and the slot that the text shows for stone `stone` of `side`. The
/// first glyph of the outbound leg on the lane decides, at position `p` for
/// slot `p - 1`; a lane without one is read for the first glyph of the return
/// leg. A lane that the text cuts short before a glyph is met, or that shows
/// neither glyph, cannot be read.
pub open spec fn read_lane(lines: Seq<Seq<char>>, side: int, stone: int) -> Option<(usize, usize)> {
    match find_glyph(lines, side, stone, out_glyph(side), 1) {
        Scan::Found(p) => Some((0usize, (p - 1) as usize)),
        Scan::Broken => None,
        Scan::Absent => match find_glyph(lines, side, stone, back_glyph(side), 1) {
            Scan::Found(p) => Some((1usize, (p - 1) as usize)),
            _ => None,
        },
    }
}

/// The side of the lane with number `lane` in reading order: the five lanes
/// of the first side come first.
pub open spec fn lane_side(lane: int) -> int {
    lane / 5
}

/// The stone of the lane with number `lane` in reading order.
pub open spec fn lane_stone(lane: int) -> int {
    lane % 5 + 1
}

/// The first lane from number `lane` on, in reading order, that cannot be
/// read.
pub open spec fn first_unreadable(lines: Seq<Seq<char>>, lane: int) -> Option<int>
    decreases 10 - lane,
{
    if lane >= 10 {
        None
    } else if read_lane(lines, lane_side(lane), lane_stone(lane)) is None {
        Some(lane)
    } else {
        first_unreadable(lines, lane + 1)
    }
}

/// The slot that the text shows for stone `k` of `side`; 0 for the unused
/// entry and for a lane that cannot be read.
pub open spec fn shown_slot(lines: Seq<Seq<char>>, side: int, k: int) -> usize {
    match read_lane(lines, side, k) {
        Some(found) => if 1 <= k <= 5 {
            found.1
        } else {
            0
        },
        None => 0,
    }
}

/// The leg that the text shows for stone `k` of `side`; 0 for the unused
/// entry and for a lane that cannot be read.
pub open spec fn shown_leg(lines: Seq<Seq<char>>, side: int, k: int) -> usize {
    match read_lane(lines, side, k) {
        Some(found) => if 1 <= k <= 5 {
            found.0
        } else {
            0
        },
        None => 0,
    }
}

/// The board that the text shows: its stones where the text has them,
/// nothing played yet, the first side to move, no points.
pub open spec fn board_of(lines: Seq<Seq<char>>) -> State {
    State {
        depth: 0,
        turn: 0,
        points: pair_of(0usize, 0usize),
        at: grid_of(|side: int, k: int| shown_slot(lines, side, k)),
        dir: grid_of(|side: int, k: int| shown_leg(lines, side, k)),
    }
}

/// What reading `text` as a board comes to: the board it shows if all ten
/// lanes can be read, else the first lane that cannot.
pub open spec fn parse_text(text: Seq<char>) -> Result<State, MalformedBoard> {
    let lines = lines_of(text);
    match first_unreadable(lines, 0) {
        Some(lane) => Err(
            MalformedBoard { side: lane_side(lane) as usize, stone: lane_stone(lane) as usize },
        ),
        None => Ok(board_of(lines)),
    }
}

/// The lines of a text held line by line.
pub open spec fn rows_of(lines: Vec<Vec<char>>) -> Seq<Seq<char>> {
    Seq::new(lines@.len(), |k: int| lines@[k]@)
}

/// Splits `text` into its lines.
fn text_lines(text: &str) -> (r: Vec<Vec<char>>)
    ensures
        rows_of(r) == lines_of(text@),
{
    let mut lines: Vec<Vec<char>> = Vec::new();
    let mut current: Vec<char> = Vec::new();
    for c in it: text.chars()
        invariant
            it.seq() == text@,
            split_lines(text@.take(it.index() as int)) == (rows_of(lines), current@),
    {
        let ghost seen = text@.take(it.index() as int);
        let ghost now = text@.take(it.index() + 1);
        assert(now.drop_last() =~= seen);
        assert(now.last() == c);
        if c == '\n' {
            let n: usize = current.len();
            if n > 0 && current[n - 1] == '\r' {
                current.pop();
            }
            let ghost line = current@;
            let ghost closed = rows_of(lines);
            lines.push(current);
            current = Vec::new();
            assert(rows_of(lines) =~= closed.push(line));
        } else {
            let ghost closed = rows_of(lines);
            current.push(c);
            assert(rows_of(lines) =~= closed);
        }
    }
    assert(text@.take(text@.len() as int) =~= text@);
    if current.len() > 0 {
        let ghost line = current@;
        let ghost closed = rows_of(lines);
        lines.push(current);
        assert(rows_of(lines) =~= closed.push(line));
    }
    lines
}

/// The cell at `row` and `col` of a text held line by line.
fn cell_of(lines: &Vec<Vec<char>>, row: usize, col: usize) -> (r: Option<char>)
    requires
        row <= 8,
        col <= 8,
    ensures
        r == cell_at(rows_of(*lines), row as int, col as int),
{
    if row < lines.len() && 2 * col < lines[row].len() {
        Some(lines[row][2 * col])
    } else {
        None
    }
}

/// Searches the lane of stone `stone` of `side` for `glyph`.
fn scan_lane(lines: &Vec<Vec<char>>, side: usize, stone: usize, glyph: char) -> (r: Scan)
    requires
        side < 2,
        1 <= stone <= 5,
    ensures
        r == find_glyph(rows_of(*lines), side as int, stone as int, glyph, 1),
        r matches Scan::Found(p) ==> 1 <= p <= 7,
{
    let mut p: usize = 1;
    while p <= 7
        invariant
            side < 2,
            1 <= stone <= 5,
            1 <= p <= 8,
            find_glyph(rows_of(*lines), side as int, stone as int, glyph, 1) == find_glyph(
                rows_of(*lines),
                side as int,
                stone as int,
                glyph,
                p as int,
            ),
        decreases 8 - p,
    {
        let here = if side == 0 {
            cell_of(lines, stone + 1, p)
        } else {
            cell_of(lines, p, stone + 1)
        };
        match here {
            None => {
                return Scan::Broken;
            },
            Some(c) => {
                if c == glyph {
                    return Scan::Found(p);
                }
            },
        }
        p = p + 1;
    }
    Scan::Absent
}

/// Reads the leg and the slot of stone `stone` of `side`.
fn lane_of(lines: &Vec<Vec<char>>, side: usize, stone: usize) -> (r: Option<(usize, usize)>)
    requires
        side < 2,
        1 <= stone <= 5,
    ensures
        r == read_lane(rows_of(*lines), side as int, stone as int),
        r matches Some(found) ==> found.0 <= 1 && found.1 <= 6,
{
    match scan_lane(lines, side, stone, if side == 0 { '>' } else { 'v' }) {
        Scan::Found(p) => Some((0, p - 1)),
        Scan::Broken => None,
        Scan::Absent => match scan_lane(lines, side, stone, if side == 0 { '<' } else { '^' }) {
            Scan::Found(p) => Some((1, p - 1)),
            _ => None,
        },
    }
}

/// Reads a board from its diagram.
///
/// Only the glyphs of the stones are read; the frame, and whatever else the
/// text holds, is not looked at. The board that comes back has the stones
/// where the text shows them, nothing played yet, the first side to move and
/// no points.
pub fn parse_board(text: &str) -> (r: Result<State, MalformedBoard>)
    ensures
        r == parse_text(text@),
        r matches Ok(s) ==> s.wf(),
{
    let lines = text_lines(text);
    let mut s = State::initial();
    let mut lane: usize = 0;
    while lane < 10
        invariant
            lane <= 10,
            rows_of(lines) == lines_of(text@),
            first_unreadable(rows_of(lines), 0) == first_unreadable(rows_of(lines), lane as int),
            s.depth == 0,
            s.turn == 0,
            s.points[0] == 0,
            s.points[1] == 0,
            forall|side: int, k: int|
                0 <= side < 2 && 0 <= k < 6 ==> #[trigger] s.at[side][k] == if side * 5 + k - 1
                    < lane {
                    shown_slot(rows_of(lines), side, k)
                } else {
                    0
                },
            forall|side: int, k: int|
                0 <= side < 2 && 0 <= k < 6 ==> #[trigger] s.dir[side][k] == if side * 5 + k - 1
                    < lane {
                    shown_leg(rows_of(lines), side, k)
                } else {
                    0
                },
        decreases 10 - lane,
    {
        let side: usize = lane / 5;
        let stone: usize = lane % 5 + 1;
        match lane_of(&lines, side, stone) {
            Some(found) => {
                s.dir[side][stone] = found.0;
                s.at[side][stone] = found.1;
            },
            None => {
                return Err(MalformedBoard { side, stone });
            },
        }
        lane = lane + 1;
    }
    proof {
        let shown = board_of(rows_of(lines));
        lemma_pair_of(0usize, 0usize);
        lemma_grid_of(|side: int, k: int| shown_slot(rows_of(lines), side, k));
        lemma_grid_of(|side: int, k: int| shown_leg(rows_of(lines), side, k));
        assert forall|side: int, k: int| 0 <= side < 2 && 0 <= k < 6 implies s.at[side][k]
            == shown.at[side][k] by {
            lemma_unused_entry(rows_of(lines), side);
        }
        assert forall|side: int, k: int| 0 <= side < 2 && 0 <= k < 6 implies s.dir[side][k]
            == shown.dir[side][k] by {
            lemma_unused_entry(rows_of(lines), side);
        }
        lemma_grid_equal(s.at, shown.at);
        lemma_grid_equal(s.dir, shown.dir);
        lemma_pair_equal(s.points, shown.points);
        lemma_all_readable(rows_of(lines), 0);
        assert forall|side: int, k: int| 0 <= side < 2 && 1 <= k <= 5 implies 0
            <= #[trigger] s.slot(side, k) <= 6 by {
            lemma_read_lane_bounds(rows_of(lines), side, k);
            assert(lane_side(side * 5 + k - 1) == side && lane_stone(side * 5 + k - 1) == k);
        }
        assert forall|side: int, k: int| 0 <= side < 2 && 1 <= k <= 5 implies #[trigger] s.outbound(
            side,
            k,
        ) || s.returning(side, k) by {
            lemma_read_lane_bounds(rows_of(lines), side, k);
            assert(lane_side(side * 5 + k - 1) == side && lane_stone(side * 5 + k - 1) == k);
        }
    }
    Ok(s)
}

impl core::str::FromStr for State {
    type Err = MalformedBoard;

    /// Reads a board from its diagram, as `parse_board` does: the board that
    /// the text shows if all ten lanes can be read, else the first lane that
    /// cannot.
    fn from_str(text: &str) -> (r: Result<Self, Self::Err>)
        ensures
            r == parse_text(text@),
            r matches Ok(s) ==> s.wf(),
    {
        parse_board(text)
    }
}

/// The unused entry 0 of each row reads as 0.
proof fn lemma_unused_entry(lines: Seq<Seq<char>>, side: int)
    ensures
        shown_slot(lines, side, 0) == 0,
        shown_leg(lines, side, 0) == 0,
{
}

/// Where no lane from `lane` on is unreadable, each of them can be read.
pub proof fn lemma_all_readable(lines: Seq<Seq<char>>, lane: int)
    requires
        0 <= lane <= 10,
        first_unreadable(lines, lane) is None,
    ensures
        forall|n: int|
            lane <= n < 10 ==> read_lane(lines, #[trigger] lane_side(n), lane_stone(n)) is Some,
    decreases 10 - lane,
{
    if lane < 10 {
        lemma_all_readable(lines, lane + 1);
    }
}

/// A glyph that is found stands on one of the seven positions of the lane,
/// at or behind the position where the search began.
pub proof fn lemma_find_glyph_bounds(
    lines: Seq<Seq<char>>,
    side: int,
    stone: int,
    glyph: char,
    p: int,
)
    requires
        1 <= p,
    ensures
        find_glyph(lines, side, stone, glyph, p) matches Scan::Found(q) ==> p <= q <= 7
            && lane_cell(lines, side, stone, q as int) == Some(glyph),
    decreases 8 - p,
{
    if p <= 7 {
        lemma_find_glyph_bounds(lines, side, stone, glyph, p + 1);
    }
}

/// A lane that can be read shows one of the two legs and a slot from 0 to 6.
pub proof fn lemma_read_lane_bounds(lines: Seq<Seq<char>>, side: int, stone: int)
    ensures
        read_lane(lines, side, stone) matches Some(found) ==> found.0 <= 1 && found.1 <= 6,
{
    lemma_find_glyph_bounds(lines, side, stone, out_glyph(side), 1);
    lemma_find_glyph_bounds(lines, side, stone, back_glyph(side), 1);
}

} // verus!
