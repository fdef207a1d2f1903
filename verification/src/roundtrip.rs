//! The diagram keeps what the rules produce: reading the diagram of a board
//! gives the stones of that board back.

use vstd::prelude::*;
use crate::board::{
    back_glyph, board_of, cell_at, find_glyph, first_unreadable, frame_cell, lane_cell, lane_side,
    lane_stone, lemma_all_readable, lemma_find_glyph_bounds, lemma_read_lane_bounds, lines_of, margin, out_glyph, parse_text, read_lane,
    shown_leg, shown_slot, split_lines, without_return, MalformedBoard, Scan,
};
use crate::grid::{lemma_grid_equal, lemma_grid_of, lemma_pair_equal, lemma_pair_of};
use crate::state::State;

verus! {

impl State {
    /// No two stones stand on the same crossing: where stone `i` of the first
    /// side is on slot `k`, stone `k` of the second side is not on slot `i`.
    pub open spec fn is_clear(self) -> bool {
        forall|i: int, k: int|
            1 <= i <= 5 && 1 <= k <= 5 ==> !(#[trigger] self.slot(0, i) == k
                && #[trigger] self.slot(1, k) == i)
    }

    /// The board holds nothing that a diagram does not show: nothing played
    /// yet, the first side to move, no points, the unused entries 0.
    pub open spec fn is_fresh(self) -> bool {
        &&& self.depth == 0
        &&& self.turn == 0
        &&& self.points[0] == 0
        &&& self.points[1] == 0
        &&& forall|side: int| 0 <= side < 2 ==> #[trigger] self.at[side][0] == 0
        &&& forall|side: int| 0 <= side < 2 ==> #[trigger] self.dir[side][0] == 0
    }

    /// The stones of `self` and `other` stand alike: each on the same slot
    /// and the same leg.
    pub open spec fn same_stones(self, other: State) -> bool {
        &&& forall|side: int, stone: int|
            0 <= side < 2 && 1 <= stone <= 5 ==> #[trigger] self.at[side][stone]
                == other.at[side][stone]
        &&& forall|side: int, stone: int|
            0 <= side < 2 && 1 <= stone <= 5 ==> #[trigger] self.dir[side][stone]
                == other.dir[side][stone]
    }

    /// The nine rows of the diagram, as lines.
    pub open spec fn diagram_lines(self) -> Seq<Seq<char>> {
        Seq::new(9, |row: int| self.row_text(row))
    }

    /// The start of a game is clear.
    pub proof fn lemma_initial_is_clear(self)
        requires
            self.is_initial(),
        ensures
            self.is_clear(),
            self.is_fresh(),
            self.wf(),
    {
        assert forall|i: int, k: int| 1 <= i <= 5 && 1 <= k <= 5 implies !(#[trigger] self.slot(
            0,
            i,
        ) == k && #[trigger] self.slot(1, k) == i) by {
            assert(self.at[0][i] == 0);
        }
        assert forall|side: int, stone: int| 0 <= side < 2 && 1 <= stone <= 5 implies 0
            <= #[trigger] self.slot(side, stone) <= 6 by {
            assert(self.at[side][stone] == 0);
        }
        assert forall|side: int, stone: int|
            0 <= side < 2 && 1 <= stone <= 5 implies #[trigger] self.outbound(side, stone)
            || self.returning(side, stone) by {
            assert(self.dir[side][stone] == 0);
        }
    }

    /// A move of the game keeps the board clear: the mover rests on a free
    /// crossing and every stone it walked over has left the field.
    pub proof fn lemma_move_keeps_clear(self, stone: int)
        requires
            self.wf(),
            self.is_clear(),
            self.can_move(stone),
        ensures
            self.after_move(stone).is_clear(),
    {
        let t = self.after_move(stone);
        self.lemma_after_move_entries(stone);
        self.lemma_landing(stone);
        assert forall|i: int, k: int| 1 <= i <= 5 && 1 <= k <= 5 implies !(#[trigger] t.slot(0, i)
            == k && #[trigger] t.slot(1, k) == i) by {
            assert(t.at[0][i] == self.slot_after(stone, 0, i));
            assert(t.at[1][k] == self.slot_after(stone, 1, k));
            assert(!(self.slot(0, i) == k && self.slot(1, k) == i));
            if self.turn == 0 {
                assert(self.blocked(stone, k) == (self.slot(1, k) == stone));
            } else {
                assert(self.blocked(stone, i) == (self.slot(0, i) == stone));
            }
        }
    }

    /// On a clear board every stone shows in the diagram, in the cell of its
    /// lane that belongs to its slot, and no other cell of its lane shows a
    /// glyph of its side.
    pub proof fn lemma_lane_shows_stone(self, side: int, stone: int, p: int)
        requires
            self.wf(),
            self.is_clear(),
            0 <= side < 2,
            1 <= stone <= 5,
            1 <= p <= 7,
        ensures
            lane_cell(self.diagram_lines(), side, stone, p) is Some,
            p == self.slot(side, stone) + 1 ==> lane_cell(self.diagram_lines(), side, stone, p)
                == Some(self.glyph(side, stone)),
            p != self.slot(side, stone) + 1 ==> lane_cell(self.diagram_lines(), side, stone, p)
                != Some(out_glyph(side)) && lane_cell(self.diagram_lines(), side, stone, p)
                != Some(back_glyph(side)),
    {
        let lines = self.diagram_lines();
        let row = if side == 0 {
            stone + 1
        } else {
            p
        };
        let col = if side == 0 {
            p
        } else {
            stone + 1
        };
        assert(lines[row] == self.row_text(row));
        assert(self.row_text(row)[2 * col] == self.cell(row, col));
        assert(cell_at(lines, row, col) == Some(self.cell(row, col)));
        assert(0 <= self.slot(side, stone) <= 6);
        if 2 <= col <= 6 {
            assert(0 <= self.slot(1, col - 1) <= 6);
        }
        if 2 <= row <= 6 {
            assert(0 <= self.slot(0, row - 1) <= 6);
        }
        if self.first_side_on(row, col) && self.second_side_on(row, col) {
            assert(self.slot(0, row - 1) == col - 1 && self.slot(1, col - 1) == row - 1);
        }
        lemma_frame_has_no_glyph(row, col);
    }

    /// The diagram without a margin splits into its nine rows.
    pub proof fn lemma_diagram_lines(self)
        requires
            self.wf(),
        ensures
            lines_of(self.diagram_text(0)) == self.diagram_lines(),
    {
        self.lemma_diagram_rows_split(9);
        assert(self.diagram_lines().take(8).push(self.row_text(8)) =~= self.diagram_lines());
    }

    /// The first `n` lines of the diagram split into the first `n - 1` rows,
    /// closed, and row `n - 1`, still open.
    proof fn lemma_diagram_rows_split(self, n: int)
        requires
            self.wf(),
            1 <= n <= 9,
        ensures
            split_lines(self.diagram_rows(0, n)) == (
                self.diagram_lines().take(n - 1),
                self.row_text(n - 1),
            ),
        decreases n,
    {
        assert(margin(0) =~= Seq::<char>::empty());
        assert(self.line_text(0, n - 1) =~= self.row_text(n - 1));
        self.lemma_row_is_one_line(n - 1);
        let row = self.row_text(n - 1);
        if n == 1 {
            assert(Seq::<char>::empty() + row =~= row);
            lemma_split_appended(Seq::empty(), row);
            assert(self.diagram_lines().take(0) =~= Seq::<Seq<char>>::empty());
        } else {
            self.lemma_diagram_rows_split(n - 1);
            self.lemma_row_is_one_line(n - 2);
            let before = self.diagram_rows(0, n - 1);
            let closed = before + seq!['\n'];
            assert(closed.drop_last() =~= before);
            assert(closed.last() == '\n');
            assert(split_lines(closed) == (
                self.diagram_lines().take(n - 2).push(self.row_text(n - 2)),
                Seq::<char>::empty(),
            ));
            assert(self.diagram_lines().take(n - 2).push(self.row_text(n - 2))
                =~= self.diagram_lines().take(n - 1));
            lemma_split_appended(closed, row);
            assert(Seq::<char>::empty() + row =~= row);
            assert(self.diagram_rows(0, n) =~= closed + row);
        }
    }

    /// A row of the diagram holds no line feed and does not end in a carriage
    /// return.
    proof fn lemma_row_is_one_line(self, row: int)
        requires
            self.wf(),
            0 <= row <= 8,
        ensures
            forall|k: int| 0 <= k < 17 ==> #[trigger] self.row_text(row)[k] != '\n',
            self.row_text(row).len() == 17,
            without_return(self.row_text(row)) == self.row_text(row),
    {
        assert forall|k: int| 0 <= k < 17 implies #[trigger] self.row_text(row)[k] != '\n'
            && self.row_text(row)[k] != '\r' by {
            if k % 2 == 0 {
                lemma_cell_is_printable(self, row, k / 2);
            }
        }
        assert(self.row_text(row).last() == self.row_text(row)[16]);
    }

    /// Reading the diagram of a clear board gives the leg and the slot of
    /// every stone back.
    pub proof fn lemma_diagram_read_lane(self, side: int, stone: int)
        requires
            self.wf(),
            self.is_clear(),
            0 <= side < 2,
            1 <= stone <= 5,
        ensures
            read_lane(self.diagram_lines(), side, stone) == Some(
                (self.dir[side][stone], self.at[side][stone]),
            ),
    {
        let lines = self.diagram_lines();
        let q = self.slot(side, stone) + 1;
        assert(0 <= self.slot(side, stone) <= 6);
        assert(self.outbound(side, stone) || self.returning(side, stone));
        assert forall|p: int| 1 <= p <= 7 implies lane_cell(lines, side, stone, p) is Some && (p
            == q ==> lane_cell(lines, side, stone, p) == Some(self.glyph(side, stone))) && (p != q
            ==> lane_cell(lines, side, stone, p) != Some(out_glyph(side)) && lane_cell(
            lines,
            side,
            stone,
            p,
        ) != Some(back_glyph(side))) by {
            self.lemma_lane_shows_stone(side, stone, p);
        }
        if self.outbound(side, stone) {
            lemma_find_first(lines, side, stone, out_glyph(side), 1, q);
        } else {
            lemma_find_none(lines, side, stone, out_glyph(side), 1);
            lemma_find_first(lines, side, stone, back_glyph(side), 1, q);
        }
    }

    /// Reading the diagram of a clear board gives a board with the same
    /// stones, and the board itself where it holds nothing that a diagram
    /// does not show.
    pub proof fn lemma_diagram_parses(self)
        requires
            self.wf(),
            self.is_clear(),
        ensures
            parse_text(self.diagram_text(0)) matches Ok(shown) && shown.same_stones(self)
                && shown.is_fresh(),
            self.is_fresh() ==> parse_text(self.diagram_text(0)) == Ok::<State, MalformedBoard>(self),
    {
        self.lemma_diagram_lines();
        let lines = self.diagram_lines();
        assert forall|n: int| 0 <= n < 10 implies read_lane(
            lines,
            #[trigger] lane_side(n),
            lane_stone(n),
        ) is Some by {
            self.lemma_diagram_read_lane(lane_side(n), lane_stone(n));
        }
        lemma_none_unreadable(lines, 0);
        let shown = board_of(lines);
        lemma_pair_of(0usize, 0usize);
        lemma_grid_of(|side: int, k: int| shown_slot(lines, side, k));
        lemma_grid_of(|side: int, k: int| shown_leg(lines, side, k));
        assert forall|side: int, stone: int| 0 <= side < 2 && 1 <= stone <= 5 implies shown.at[side][stone]
            == self.at[side][stone] && shown.dir[side][stone] == self.dir[side][stone] by {
            self.lemma_diagram_read_lane(side, stone);
        }
        assert forall|side: int| 0 <= side < 2 implies shown.at[side][0] == 0 && shown.dir[side][0]
            == 0 by {
            assert(shown.at[side][0] == shown_slot(lines, side, 0));
            assert(shown.dir[side][0] == shown_leg(lines, side, 0));
        }
        if self.is_fresh() {
            lemma_grid_equal(shown.at, self.at);
            lemma_grid_equal(shown.dir, self.dir);
            lemma_pair_equal(shown.points, self.points);
        }
    }
}

/// No cell of the frame or the empty field shows the glyph of a stone.
pub proof fn lemma_frame_has_no_glyph(row: int, col: int)
    ensures
        frame_cell(row, col) != '>',
        frame_cell(row, col) != '<',
        frame_cell(row, col) != 'v',
        frame_cell(row, col) != '^',
        frame_cell(row, col) != '\n',
        frame_cell(row, col) != '\r',
{
}

/// No cell of a diagram is a line feed or a carriage return.
proof fn lemma_cell_is_printable(s: State, row: int, col: int)
    ensures
        s.cell(row, col) != '\n',
        s.cell(row, col) != '\r',
{
    lemma_frame_has_no_glyph(row, col);
}

/// Text without a line feed, added behind a text, adds to its open line.
proof fn lemma_split_appended(text: Seq<char>, more: Seq<char>)
    requires
        forall|k: int| 0 <= k < more.len() ==> more[k] != '\n',
    ensures
        split_lines(text + more) == (split_lines(text).0, split_lines(text).1 + more),
    decreases more.len(),
{
    if more.len() == 0 {
        assert(text + more =~= text);
        assert(split_lines(text).1 + more =~= split_lines(text).1);
    } else {
        let shorter = more.drop_last();
        lemma_split_appended(text, shorter);
        assert((text + more).drop_last() =~= text + shorter);
        assert((text + more).last() == more.last());
        assert((split_lines(text).1 + shorter).push(more.last()) =~= split_lines(text).1 + more);
    }
}

/// A lane whose cells from `p` up to `q` are all there, with `glyph` on `q`
/// and on none before it, is found to hold `glyph` at `q`.
proof fn lemma_find_first(
    lines: Seq<Seq<char>>,
    side: int,
    stone: int,
    glyph: char,
    p: int,
    q: int,
)
    requires
        1 <= p <= q <= 7,
        lane_cell(lines, side, stone, q) == Some(glyph),
        forall|j: int|
            p <= j < q ==> lane_cell(lines, side, stone, j) is Some && lane_cell(
                lines,
                side,
                stone,
                j,
            ) != Some(glyph),
    ensures
        find_glyph(lines, side, stone, glyph, p) == Scan::Found(q as usize),
    decreases q - p,
{
    if p < q {
        lemma_find_first(lines, side, stone, glyph, p + 1, q);
    }
}

/// A lane whose cells from `p` on are all there and none of them `glyph` is
/// found not to hold `glyph`.
proof fn lemma_find_none(lines: Seq<Seq<char>>, side: int, stone: int, glyph: char, p: int)
    requires
        1 <= p <= 8,
        forall|j: int|
            p <= j <= 7 ==> lane_cell(lines, side, stone, j) is Some && lane_cell(
                lines,
                side,
                stone,
                j,
            ) != Some(glyph),
    ensures
        find_glyph(lines, side, stone, glyph, p) == Scan::Absent,
    decreases 8 - p,
{
    if p <= 7 {
        lemma_find_none(lines, side, stone, glyph, p + 1);
    }
}

/// Where every lane from `lane` on can be read, none of them is the first
/// that cannot.
proof fn lemma_none_unreadable(lines: Seq<Seq<char>>, lane: int)
    requires
        0 <= lane <= 10,
        forall|n: int|
            lane <= n < 10 ==> read_lane(lines, #[trigger] lane_side(n), lane_stone(n)) is Some,
    ensures
        first_unreadable(lines, lane) is None,
    decreases 10 - lane,
{
    if lane < 10 {
        assert(read_lane(lines, lane_side(lane), lane_stone(lane)) is Some);
        lemma_none_unreadable(lines, lane + 1);
    }
}

/// A board that was read from a text is well formed, clear, and holds
/// nothing that a diagram does not show.
pub proof fn lemma_parsed_board(text: Seq<char>)
    requires
        parse_text(text) is Ok,
    ensures
        parse_text(text)->Ok_0.wf(),
        parse_text(text)->Ok_0.is_clear(),
        parse_text(text)->Ok_0.is_fresh(),
{
    let lines = lines_of(text);
    let s = board_of(lines);
    lemma_all_readable(lines, 0);
    lemma_pair_of(0usize, 0usize);
    lemma_grid_of(|side: int, k: int| shown_slot(lines, side, k));
    lemma_grid_of(|side: int, k: int| shown_leg(lines, side, k));
    assert forall|side: int, stone: int| 0 <= side < 2 && 1 <= stone <= 5 implies read_lane(
        lines,
        side,
        stone,
    ) == Some((s.dir[side][stone], s.at[side][stone])) by {
        let n = side * 5 + stone - 1;
        assert(lane_side(n) == side && lane_stone(n) == stone);
        assert(s.at[side][stone] == shown_slot(lines, side, stone));
        assert(s.dir[side][stone] == shown_leg(lines, side, stone));
    }
    assert forall|side: int, stone: int| 0 <= side < 2 && 1 <= stone <= 5 implies 0
        <= #[trigger] s.slot(side, stone) <= 6 by {
        lemma_read_lane_bounds(lines, side, stone);
    }
    assert forall|side: int, stone: int| 0 <= side < 2 && 1 <= stone <= 5 implies #[trigger] s.outbound(
        side,
        stone,
    ) || s.returning(side, stone) by {
        lemma_read_lane_bounds(lines, side, stone);
    }
    assert forall|side: int| 0 <= side < 2 implies #[trigger] s.at[side][0] == 0 by {
        assert(s.at[side][0] == shown_slot(lines, side, 0));
    }
    assert forall|side: int| 0 <= side < 2 implies #[trigger] s.dir[side][0] == 0 by {
        assert(s.dir[side][0] == shown_leg(lines, side, 0));
    }
    assert forall|i: int, k: int| 1 <= i <= 5 && 1 <= k <= 5 implies !(#[trigger] s.slot(0, i) == k
        && #[trigger] s.slot(1, k) == i) by {
        if s.slot(0, i) == k && s.slot(1, k) == i {
            lemma_lane_holds_glyph(lines, 0, i);
            lemma_lane_holds_glyph(lines, 1, k);
            assert(lane_cell(lines, 0, i, k + 1) == cell_at(lines, i + 1, k + 1));
            assert(lane_cell(lines, 1, k, i + 1) == cell_at(lines, i + 1, k + 1));
        }
    }
}

/// Where a lane was read, the text holds a glyph of the lane's side in the
/// cell of the slot that was read.
proof fn lemma_lane_holds_glyph(lines: Seq<Seq<char>>, side: int, stone: int)
    requires
        read_lane(lines, side, stone) is Some,
    ensures
        ({
            let found = read_lane(lines, side, stone)->0;
            let there = lane_cell(lines, side, stone, found.1 + 1);
            there == Some(out_glyph(side)) || there == Some(back_glyph(side))
        }),
{
    lemma_find_glyph_bounds(lines, side, stone, out_glyph(side), 1);
    lemma_find_glyph_bounds(lines, side, stone, back_glyph(side), 1);
}

/// Reading a text, drawing the board that was read and reading the drawing
/// gives the same board again.
pub proof fn lemma_parse_round_trip(text: Seq<char>)
    requires
        parse_text(text) is Ok,
    ensures
        parse_text(parse_text(text)->Ok_0.diagram_text(0)) == parse_text(text),
{
    lemma_parsed_board(text);
    parse_text(text)->Ok_0.lemma_diagram_parses();
}

} // verus!
