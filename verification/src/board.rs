//! The board: an occupancy grid, the region constraint it has resolved so
//! far, and the history of placements that lets each one be taken back.
//!
//! [`BoardType`] is the region constraint with its narrowing order.
//! [`Board`] is the executable board; what its operations do is stated over
//! its view, a [`BoardView`], and the rules of [`crate::position`].

use vstd::prelude::*;
use vstd::seq_lib::lemma_seq_concat_contains_all_elements;
use vstd::seq_lib::lemma_seq_contains_after_push;
use crate::action::Coordinate;
use crate::action::Direction;
use crate::action::Move;
use crate::action::MoveType;
use crate::action::POSSIBLE_DIRECTIONS;
use crate::position::Position;

verus! {

pub const NUM_COLS: usize = 5;

pub const NUM_ROWS: usize = 4;

/// What is known of the layout of the lower-left region. `Left`, `Middle`
/// and `Right` are the three layouts the region can end up with;
/// `LeftOrMiddle` and `RightOrMiddle` leave two of them open. The variants
/// are declared in their canonical order.
#[derive(Clone, Copy, Debug, Hash, PartialEq, Eq, PartialOrd, Ord, Structural)]
pub enum BoardType {
    Left,
    LeftOrMiddle,
    Middle,
    RightOrMiddle,
    Right,
}

/// Every constraint value, in canonical order.
pub const POSSIBLE_BOARD_TYPES: [BoardType; 5] = [
    BoardType::Left,
    BoardType::LeftOrMiddle,
    BoardType::Middle,
    BoardType::RightOrMiddle,
    BoardType::Right,
];

impl BoardType {
    /// The position of the value in the canonical order.
    pub open spec fn rank(self) -> int {
        match self {
            BoardType::Left => 0,
            BoardType::LeftOrMiddle => 1,
            BoardType::Middle => 2,
            BoardType::RightOrMiddle => 3,
            BoardType::Right => 4,
        }
    }

    /// The position of a placement's resulting constraint in the order of
    /// generation: no constraint first, then the values in canonical order.
    pub open spec fn option_rank(t: Option<BoardType>) -> int {
        match t {
            None => 0,
            Some(t) => t.rank() + 1,
        }
    }

    /// Whether the region can still end up with the final layout `layout`
    /// once the constraint is `self`.
    pub open spec fn leaves_open(self, layout: BoardType) -> bool {
        match self {
            BoardType::LeftOrMiddle => layout == BoardType::Left || layout == BoardType::Middle,
            BoardType::RightOrMiddle => layout == BoardType::Right || layout == BoardType::Middle,
            _ => layout == self,
        }
    }

    /// The constraint at position `i` of the canonical order.
    pub fn nth(i: usize) -> (t: BoardType)
        requires
            i < 5,
        ensures
            t.rank() == i,
    {
        POSSIBLE_BOARD_TYPES[i]
    }

    /// The result of [`BoardType::is_final`], as a specification.
    pub open spec fn spec_is_final(&self) -> bool {
        *self == BoardType::Left || *self == BoardType::Middle || *self == BoardType::Right
    }

    /// Whether the value is one of the three final layouts, which cannot be
    /// narrowed any further.
    #[verifier::when_used_as_spec(spec_is_final)]
    pub fn is_final(&self) -> (terminal: bool)
        ensures
            terminal == self.spec_is_final(),
            terminal <==> forall|t: BoardType| #[trigger] t.spec_applies_to(Some(*self)) ==> t == *self,
    {
        proof {
            if !self.spec_is_final() {
                assert(BoardType::Middle.spec_applies_to(Some(*self)));
            }
        }
        match *self {
            BoardType::Left => true,
            BoardType::Middle => true,
            BoardType::Right => true,
            BoardType::LeftOrMiddle => false,
            BoardType::RightOrMiddle => false,
        }
    }

    /// The result of [`BoardType::applies_to`], as a specification: a board
    /// without a constraint can take on any; `LeftOrMiddle` narrows to
    /// itself, `Left` or `Middle`; `RightOrMiddle` to itself, `Right` or
    /// `Middle`; a final layout stays what it is.
    pub open spec fn spec_applies_to(&self, current: Option<BoardType>) -> bool {
        match current {
            None => true,
            Some(BoardType::LeftOrMiddle) => *self == BoardType::LeftOrMiddle || *self
                == BoardType::Left || *self == BoardType::Middle,
            Some(BoardType::RightOrMiddle) => *self == BoardType::RightOrMiddle || *self
                == BoardType::Right || *self == BoardType::Middle,
            Some(c) => *self == c,
        }
    }

    /// Whether a board whose constraint is `current` may take on the
    /// constraint `self`.
    #[verifier::when_used_as_spec(spec_applies_to)]
    pub fn applies_to(&self, current: Option<BoardType>) -> (allowed: bool)
        ensures
            allowed == self.spec_applies_to(current),
    {
        match (current, *self) {
            (None, _) => true,
            (Some(BoardType::LeftOrMiddle), BoardType::LeftOrMiddle) => true,
            (Some(BoardType::LeftOrMiddle), BoardType::Left) => true,
            (Some(BoardType::LeftOrMiddle), BoardType::Middle) => true,
            (Some(BoardType::LeftOrMiddle), _) => false,
            (Some(BoardType::RightOrMiddle), BoardType::RightOrMiddle) => true,
            (Some(BoardType::RightOrMiddle), BoardType::Right) => true,
            (Some(BoardType::RightOrMiddle), BoardType::Middle) => true,
            (Some(BoardType::RightOrMiddle), _) => false,
            (Some(BoardType::Left), BoardType::Left) => true,
            (Some(BoardType::Left), _) => false,
            (Some(BoardType::Middle), BoardType::Middle) => true,
            (Some(BoardType::Middle), _) => false,
            (Some(BoardType::Right), BoardType::Right) => true,
            (Some(BoardType::Right), _) => false,
        }
    }

    /// The result of [`BoardType::induced_by`], as a specification. Outside
    /// the constrained region every cell passes. Inside it, `Left` rules out
    /// (2,1) and (1,1), `Middle` rules out (3,0) and (1,1), `Right` rules out
    /// (3,0) and (2,0); `LeftOrMiddle` is induced by (1,0) alone and
    /// `RightOrMiddle` by (3,1) alone.
    pub open spec fn spec_induced_by(&self, c: Coordinate) -> bool {
        if !c.spec_induces_board_type() {
            true
        } else {
            match *self {
                BoardType::Left => c != (Coordinate { row: 2, col: 1 }) && c != (Coordinate {
                    row: 1,
                    col: 1,
                }),
                BoardType::LeftOrMiddle => c == (Coordinate { row: 1, col: 0 }),
                BoardType::Middle => c != (Coordinate { row: 3, col: 0 }) && c != (Coordinate {
                    row: 1,
                    col: 1,
                }),
                BoardType::RightOrMiddle => c == (Coordinate { row: 3, col: 1 }),
                BoardType::Right => c != (Coordinate { row: 3, col: 0 }) && c != (Coordinate {
                    row: 2,
                    col: 0,
                }),
            }
        }
    }

    /// Whether a tile on `c` is consistent with the board taking on the
    /// constraint `self`.
    #[verifier::when_used_as_spec(spec_induced_by)]
    pub fn induced_by(&self, c: Coordinate) -> (consistent: bool)
        ensures
            consistent == self.spec_induced_by(c),
    {
        if !c.induces_board_type() {
            return true;
        }
        match *self {
            BoardType::Left => !(c.row == 2 && c.col == 1) && !(c.row == 1 && c.col == 1),
            BoardType::LeftOrMiddle => c.row == 1 && c.col == 0,
            BoardType::Middle => !(c.row == 3 && c.col == 0) && !(c.row == 1 && c.col == 1),
            BoardType::RightOrMiddle => c.row == 3 && c.col == 1,
            BoardType::Right => !(c.row == 3 && c.col == 0) && !(c.row == 2 && c.col == 0),
        }
    }

    /// Narrowing is a partial order on constraints: every value narrows to
    /// itself, two values that narrow to each other are the same, and
    /// narrowing twice is narrowing once.
    pub proof fn lemma_narrowing_is_partial_order(a: BoardType, b: BoardType, c: BoardType)
        ensures
            a.spec_applies_to(Some(a)),
            a.spec_applies_to(Some(b)) && b.spec_applies_to(Some(a)) ==> a == b,
            c.spec_applies_to(Some(b)) && b.spec_applies_to(Some(a)) ==> c.spec_applies_to(Some(a)),
            c.spec_applies_to(Some(b)) ==> c.spec_applies_to(None),
    {
    }

    /// A constraint narrows to another exactly when every final layout that
    /// the second leaves open was left open by the first, so that narrowing
    /// never widens what the region can become.
    pub proof fn lemma_narrowing_is_inclusion(from: BoardType, to: BoardType)
        ensures
            to.spec_applies_to(Some(from)) <==> forall|layout: BoardType| #[trigger]
                to.leaves_open(layout) ==> from.leaves_open(layout),
    {
        if !to.spec_applies_to(Some(from)) {
            let witness = if to == BoardType::RightOrMiddle {
                if from.leaves_open(BoardType::Right) {
                    BoardType::Middle
                } else {
                    BoardType::Right
                }
            } else if to == BoardType::LeftOrMiddle {
                if from.leaves_open(BoardType::Left) {
                    BoardType::Middle
                } else {
                    BoardType::Left
                }
            } else {
                to
            };
            assert(to.leaves_open(witness) && !from.leaves_open(witness));
        }
    }

    /// Once the constraint is a final layout it cannot change: the layout is
    /// the only value it narrows to.
    pub proof fn lemma_final_is_terminal(layout: BoardType, next: BoardType)
        requires
            layout.spec_is_final(),
            next.spec_applies_to(Some(layout)),
        ensures
            next == layout,
    {
    }
}


/// The occupancy grid, one `bool` per cell, by row and then by column.
pub type BoardArray = [[bool; NUM_COLS]; NUM_ROWS];

/// The cells that `array` marks as occupied.
pub open spec fn occupied_cells(array: BoardArray) -> Set<Coordinate> {
    Set::new(|c: Coordinate| c.in_grid() && array[c.row as int][c.col as int])
}

/// One applied placement, with the constraint that the board had before it.
#[derive(Clone, Copy, Debug, PartialEq, Eq, Structural)]
pub struct HistoryEntry {
    pub applied: Move,
    pub prior: Option<BoardType>,
}

/// The two ways in which a board can be misused.
#[derive(Clone, Copy, Debug, PartialEq, Eq, Structural)]
pub enum BoardError {
    /// A move asked for a constraint that the board's current constraint
    /// does not narrow to.
    IncompatibleBoardType { current: Option<BoardType>, requested: BoardType },
    /// There is no applied move left to take back.
    NothingToUndo,
}

/// The mathematical model of a [`Board`]: its position and the placements
/// applied so far, oldest first.
pub struct BoardView {
    pub position: Position,
    pub history: Seq<HistoryEntry>,
}

impl BoardView {
    /// Whether only cells of the grid are occupied and every placement in
    /// the history lies on the grid.
    pub open spec fn wf(self) -> bool {
        &&& self.position.wf()
        &&& forall|i: int| 0 <= i < self.history.len() ==> (#[trigger] self.history[i]).applied.on_grid()
    }

    /// Whether the board takes `m`: the constraint it carries, if any, is
    /// one that the current constraint narrows to.
    pub open spec fn accepts(self, m: Move) -> bool {
        m.new_board_type matches Some(t) ==> t.spec_applies_to(self.position.constraint)
    }

    /// The board after `m` has been applied.
    pub open spec fn made(self, m: Move) -> BoardView {
        BoardView {
            position: self.position.after(m),
            history: self.history.push(
                HistoryEntry { applied: m, prior: self.position.constraint },
            ),
        }
    }

    /// The board after its latest placement has been taken back. Meaningful
    /// only where the history is not empty.
    pub open spec fn undone(self) -> BoardView {
        BoardView {
            position: self.position.before(self.history.last().applied, self.history.last().prior),
            history: self.history.drop_last(),
        }
    }

    /// The board after the placements of `line` have been applied in order.
    pub open spec fn made_all(self, line: Seq<Move>) -> BoardView
        decreases line.len(),
    {
        if line.len() == 0 {
            self
        } else {
            self.made_all(line.drop_last()).made(line.last())
        }
    }

    /// The board after its latest `n` placements have been taken back.
    pub open spec fn undone_times(self, n: nat) -> BoardView
        decreases n,
    {
        if n == 0 {
            self
        } else {
            self.undone().undone_times((n - 1) as nat)
        }
    }

    /// Whether `line` is a legal line of play from this board: each of its
    /// placements is a legal move where it is made.
    pub open spec fn legal_line(self, line: Seq<Move>) -> bool
        decreases line.len(),
    {
        line.len() == 0 || (self.legal_line(line.drop_last()) && self.made_all(
            line.drop_last(),
        ).position.is_legal(line.last()))
    }

    /// Applying a placement that covers no occupied cell and taking it back
    /// at once gives the very board one started with: the same occupied
    /// cells, the same constraint, the same history.
    pub proof fn lemma_undo_reverts_make(self, m: Move)
        requires
            forall|c: Coordinate| m.cells().contains(c) ==> !self.position.occupied.contains(c),
        ensures
            self.made(m).undone() == self,
    {
        let back = self.made(m).undone();
        assert(back.position.occupied =~= self.position.occupied);
        assert(back.history =~= self.history);
    }

    /// A legal move is taken by the board, and taking it back at once
    /// restores the board exactly.
    pub proof fn lemma_legal_move_round_trip(self, m: Move)
        requires
            self.position.is_legal(m),
        ensures
            self.accepts(m),
            self.made(m).undone() == self,
            self.wf() ==> self.made(m).wf(),
    {
        self.position.lemma_legal_move_cells_free(m);
        self.lemma_undo_reverts_make(m);
    }

    /// A legal line of play is never longer than the number of cells that
    /// were free when it began, which is at most the number of cells of the
    /// grid.
    pub proof fn lemma_legal_line_length(self, line: Seq<Move>)
        requires
            self.legal_line(line),
        ensures
            line.len() + self.made_all(line).position.free_cells() <= self.position.free_cells(),
            line.len() <= self.position.free_cells() <= NUM_ROWS * NUM_COLS,
        decreases line.len(),
    {
        self.position.lemma_free_cells_bounded();
        if line.len() > 0 {
            self.lemma_legal_line_length(line.drop_last());
            self.made_all(line.drop_last()).position.lemma_legal_move_fills(line.last());
        }
    }

    /// Along a legal line of play the board stays well formed, occupancy
    /// and constraint stay in agreement if they were, and the constraint only
    /// narrows: what it is after the line is what the constraint before the
    /// line narrows to.
    pub proof fn lemma_legal_line_keeps_invariants(self, line: Seq<Move>)
        requires
            self.legal_line(line),
        ensures
            self.wf() ==> self.made_all(line).wf(),
            self.position.consistent() ==> self.made_all(line).position.consistent(),
            match self.made_all(line).position.constraint {
                Some(t) => t.spec_applies_to(self.position.constraint),
                None => self.position.constraint is None,
            },
        decreases line.len(),
    {
        if line.len() > 0 {
            let shorter = line.drop_last();
            let reached = self.made_all(shorter);
            self.lemma_legal_line_keeps_invariants(shorter);
            reached.lemma_legal_move_round_trip(line.last());
            reached.position.lemma_legal_move_is_monotone(line.last());
            if self.position.consistent() {
                reached.position.lemma_legal_move_keeps_consistency(line.last());
            }
            if let Some(t) = self.made_all(line).position.constraint {
                if let Some(via) = reached.position.constraint {
                    if let Some(from) = self.position.constraint {
                        BoardType::lemma_narrowing_is_partial_order(from, via, t);
                    }
                }
            }
        } else {
            if let Some(t) = self.position.constraint {
                BoardType::lemma_narrowing_is_partial_order(t, t, t);
            }
        }
    }

    /// Once the constraint is a final layout, no placement of a legal line
    /// of play carries a constraint, and the layout is still in place after
    /// the line.
    pub proof fn lemma_final_constraint_stays_along(self, line: Seq<Move>)
        requires
            self.position.constraint_final(),
            self.legal_line(line),
        ensures
            forall|k: int| 0 <= k < line.len() ==> (#[trigger] line[k]).new_board_type is None,
            self.made_all(line).position.constraint == self.position.constraint,
        decreases line.len(),
    {
        if line.len() > 0 {
            let shorter = line.drop_last();
            self.lemma_final_constraint_stays_along(shorter);
            self.made_all(shorter).position.lemma_final_constraint_stays(line.last());
            assert forall|k: int| 0 <= k < line.len() implies (#[trigger] line[k]).new_board_type is None by {
                if k < shorter.len() {
                    assert(line[k] == shorter[k]);
                }
            }
        }
    }

    /// Applying a legal line of play and then taking back as many
    /// placements as it holds restores the board exactly.
    pub proof fn lemma_undo_all_reverts_line(self, line: Seq<Move>)
        requires
            self.legal_line(line),
        ensures
            self.made_all(line).undone_times(line.len()) == self,
        decreases line.len(),
    {
        if line.len() > 0 {
            let shorter = line.drop_last();
            self.made_all(shorter).lemma_legal_move_round_trip(line.last());
            self.lemma_undo_all_reverts_line(shorter);
        }
    }
}

/// A board: which cells are occupied, what is known of the constrained
/// region, and the placements applied so far. It is changed by
/// [`Board::make_move`] and [`Board::undo_move`] only, and every placement in
/// its history lies on the grid.
#[derive(Debug)]
pub struct Board {
    board: BoardArray,
    board_type: Option<BoardType>,
    history: Vec<HistoryEntry>,
}

impl View for Board {
    type V = BoardView;

    closed spec fn view(&self) -> BoardView {
        BoardView {
            position: Position { occupied: occupied_cells(self.board), constraint: self.board_type },
            history: self.history@,
        }
    }
}

impl Board {
    /// Every placement in the history lies on the grid, so that each can be
    /// taken back.
    #[verifier::type_invariant]
    spec fn history_on_grid(self) -> bool {
        forall|i: int| 0 <= i < self.history@.len() ==> (#[trigger] self.history@[i]).applied.on_grid()
    }

    /// A board with the occupancy `array` and the constraint `board_type`,
    /// on which no placement has been applied yet.
    pub fn new(array: BoardArray, board_type: Option<BoardType>) -> (created: Board)
        ensures
            created@.position.occupied == occupied_cells(array),
            created@.position.constraint == board_type,
            created@.history == Seq::<HistoryEntry>::empty(),
            created@.wf(),
    {
        Board { board: array, board_type: board_type, history: Vec::new() }
    }

    /// The current region constraint, if there is one yet.
    pub fn board_type(&self) -> (current: Option<BoardType>)
        ensures
            current == self@.position.constraint,
    {
        self.board_type
    }

    /// The number of applied placements that can be taken back.
    pub fn depth(&self) -> (applied: usize)
        ensures
            applied == self@.history.len(),
    {
        self.history.len()
    }

    /// Whether the cell `c` of the grid is occupied.
    pub fn occupied(&self, c: Coordinate) -> (filled: bool)
        requires
            c.in_grid(),
        ensures
            filled == self@.position.occupied.contains(c),
    {
        self.board[c.row][c.col]
    }

    /// Whether the current constraint lets a tile stand on `c`.
    pub fn compatible(&self, c: Coordinate) -> (allowed: bool)
        ensures
            allowed == self@.position.compatible(c),
    {
        if !c.induces_board_type() {
            return true;
        }
        match self.board_type {
            Some(BoardType::Left) => !(c.row == 2 && c.col == 1) && !(c.row == 1 && c.col == 1),
            Some(BoardType::LeftOrMiddle) => !(c.row == 1 && c.col == 1),
            Some(BoardType::Middle) => !(c.row == 3 && c.col == 0) && !(c.row == 1 && c.col == 1),
            Some(BoardType::RightOrMiddle) => !(c.row == 3 && c.col == 0),
            Some(BoardType::Right) => !(c.row == 3 && c.col == 0) && !(c.row == 2 && c.col == 0),
            None => true,
        }
    }

    /// Whether the constraint has been resolved to a final layout.
    pub fn board_type_final(&self) -> (resolved: bool)
        ensures
            resolved == self@.position.constraint_final(),
    {
        match self.board_type {
            Some(t) => t.is_final(),
            None => false,
        }
    }

    /// Whether the neighbour of `c` in direction `dir` is on the grid and
    /// occupied.
    fn neighbor_occupied(&self, c: Coordinate, dir: Direction) -> (filled: bool)
        requires
            c.in_grid(),
        ensures
            filled == self@.position.neighbor_occupied(c, dir),
    {
        match c.move_in(dir, 1) {
            Some(x) => self.occupied(x),
            None => false,
        }
    }

    /// Whether `c` is a frontier cell.
    fn is_frontier(&self, c: Coordinate) -> (anchors: bool)
        requires
            c.in_grid(),
        ensures
            anchors == self@.position.is_frontier(c),
    {
        if self.occupied(c) || !self.compatible(c) {
            return false;
        }
        let mut i: usize = 0;
        while i < 4
            invariant
                i <= 4,
                c.in_grid(),
                self@.position.is_free(c),
                forall|j: int| 0 <= j < i ==> !self@.position.neighbor_occupied(c, POSSIBLE_DIRECTIONS[j]),
            decreases 4 - i,
        {
            if self.neighbor_occupied(c, POSSIBLE_DIRECTIONS[i]) {
                assert(i == 0 || i == 1 || i == 2 || i == 3);
                return true;
            }
            i += 1;
        }
        proof {
            assert(!self@.position.neighbor_occupied(c, POSSIBLE_DIRECTIONS[0]));
            assert(!self@.position.neighbor_occupied(c, POSSIBLE_DIRECTIONS[1]));
            assert(!self@.position.neighbor_occupied(c, POSSIBLE_DIRECTIONS[2]));
            assert(!self@.position.neighbor_occupied(c, POSSIBLE_DIRECTIONS[3]));
        }
        false
    }

    /// The frontier: every free cell of the grid that has an occupied
    /// neighbour, row by row. These are the cells that can anchor a
    /// placement.
    pub fn frontier(&self) -> (cells: Vec<Coordinate>)
        ensures
            forall|i: int| 0 <= i < cells.len() ==> self@.position.is_frontier(#[trigger] cells[i]),
            forall|c: Coordinate| self@.position.is_frontier(c) ==> cells@.contains(c),
            forall|i: int, j: int|
                0 <= i < j < cells.len() ==> (#[trigger] cells[i]).precedes(#[trigger] cells[j]),
    {
        let mut results: Vec<Coordinate> = Vec::new();
        let mut row: usize = 0;
        while row < NUM_ROWS
            invariant
                row <= NUM_ROWS,
                forall|i: int|
                    0 <= i < results.len() ==> self@.position.is_frontier(#[trigger] results[i])
                        && results[i].row < row,
                forall|c: Coordinate|
                    self@.position.is_frontier(c) && c.row < row ==> results@.contains(c),
                forall|i: int, j: int|
                    0 <= i < j < results.len() ==> (#[trigger] results[i]).precedes(
                        #[trigger] results[j],
                    ),
            decreases NUM_ROWS - row,
        {
            let mut col: usize = 0;
            while col < NUM_COLS
                invariant
                    row < NUM_ROWS,
                    col <= NUM_COLS,
                    forall|i: int|
                        0 <= i < results.len() ==> self@.position.is_frontier(#[trigger] results[i])
                            && (results[i].row < row || (results[i].row == row && results[i].col
                            < col)),
                    forall|c: Coordinate|
                        self@.position.is_frontier(c) && (c.row < row || (c.row == row && c.col
                            < col)) ==> results@.contains(c),
                    forall|i: int, j: int|
                        0 <= i < j < results.len() ==> (#[trigger] results[i]).precedes(
                            #[trigger] results[j],
                        ),
                decreases NUM_COLS - col,
            {
                let coord = Coordinate { row: row, col: col };
                let ghost before = results@;
                if self.is_frontier(coord) {
                    results.push(coord);
                }
                proof {
                    assert forall|c: Coordinate|
                        self@.position.is_frontier(c) && (c.row < row || (c.row == row && c.col
                            < col + 1)) implies results@.contains(c) by {
                        if c == coord {
                            assert(results@[results.len() - 1] == c);
                        } else {
                            assert(before.contains(c));
                            let i = choose|i: int| 0 <= i < before.len() && before[i] == c;
                            assert(results@[i] == c);
                        }
                    }
                }
                col += 1;
            }
            row += 1;
        }
        results
    }

    /// Marks the anchor and the footprint of `m` as occupied, or as free.
    fn set_squares(&mut self, m: Move, mode: bool)
        requires
            m.on_grid(),
        ensures
            final(self)@.position.occupied == (if mode {
                old(self)@.position.occupied.union(m.cells())
            } else {
                old(self)@.position.occupied.difference(m.cells())
            }),
            final(self)@.position.constraint == old(self)@.position.constraint,
            final(self)@.history == old(self)@.history,
    {
        let ghost start = self.board;
        let ghost constraint = self.board_type;
        let ghost history = self.history@;
        proof {
            use_type_invariant(&*self);
            m.lemma_in_bounds_is_fit();
        }
        self.board[m.coord.row][m.coord.col] = mode;
        let ext = m.extensions();
        let mut i: usize = 0;
        while i < ext.len()
            invariant
                i <= ext.len(),
                ext@ == m.footprint(),
                m.coord.in_grid(),
                forall|k: int| 0 <= k < ext.len() ==> (#[trigger] ext@[k]).in_grid(),
                self.board_type == constraint,
                self.history@ == history,
                self.history_on_grid(),
                forall|c: Coordinate|
                    c.in_grid() ==> self.board[c.row as int][c.col as int] == (if c == m.coord
                        || ext@.take(i as int).contains(c) {
                        mode
                    } else {
                        start[c.row as int][c.col as int]
                    }),
            decreases ext.len() - i,
        {
            let other_space = ext[i];
            self.board[other_space.row][other_space.col] = mode;
            proof {
                let done = ext@.take(i as int);
                let next = ext@.take(i + 1);
                assert(next =~= done.push(other_space));
                assert forall|c: Coordinate| c.in_grid() implies self.board[c.row as int][c.col as int]
                    == (if c == m.coord || next.contains(c) {
                    mode
                } else {
                    start[c.row as int][c.col as int]
                }) by {
                    lemma_seq_contains_after_push(done, other_space, c);
                }
            }
            i += 1;
        }
        proof {
            assert(ext@.take(ext.len() as int) =~= ext@);
            if mode {
                assert(self@.position.occupied =~= occupied_cells(start).union(m.cells()));
            } else {
                assert(self@.position.occupied =~= occupied_cells(start).difference(m.cells()));
            }
        }
    }

    /// Applies `m`: its cells become occupied, the constraint becomes the
    /// one it carries, if it carries one, and the placement is added to the
    /// history. A move whose constraint the current one does not narrow to
    /// is refused, and the board stays as it was. A legal move is never
    /// refused, and it keeps occupancy and constraint in agreement.
    pub fn make_move(&mut self, m: Move) -> (outcome: Result<(), BoardError>)
        requires
            m.on_grid(),
        ensures
            final(self)@.wf(),
            old(self)@.position.is_legal(m) ==> outcome is Ok,
            old(self)@.position.is_legal(m) && old(self)@.position.consistent()
                ==> final(self)@.position.consistent(),
            match outcome {
                Ok(_) => old(self)@.accepts(m) && final(self)@ == old(self)@.made(m),
                Err(e) => !old(self)@.accepts(m) && final(self)@ == old(self)@ && e == (
                BoardError::IncompatibleBoardType {
                    current: old(self)@.position.constraint,
                    requested: m.new_board_type->0,
                }),
            },
    {
        proof {
            use_type_invariant(&*self);
            if self@.position.is_legal(m) {
                self@.lemma_legal_move_round_trip(m);
                if self@.position.consistent() {
                    self@.position.lemma_legal_move_keeps_consistency(m);
                }
            }
        }
        let prior = self.board_type;
        if let Some(bt) = m.new_board_type {
            if !bt.applies_to(self.board_type) {
                return Err(
                    BoardError::IncompatibleBoardType { current: self.board_type, requested: bt },
                );
            }
            self.board_type = m.new_board_type;
        }
        self.set_squares(m, true);
        // The history is taken out of the board while it changes: `push` may
        // unwind, and the board has to be valid whenever it can be seen.
        let mut history: Vec<HistoryEntry> = Vec::new();
        std::mem::swap(&mut history, &mut self.history);
        history.push(HistoryEntry { applied: m, prior: prior });
        self.history = history;
        Ok(())
    }

    /// Takes back the latest placement: its cells become free again and the
    /// constraint is the one the board had before it. Fails, leaving the
    /// board as it was, if no placement is left to take back.
    pub fn undo_move(&mut self) -> (outcome: Result<(), BoardError>)
        ensures
            final(self)@.wf(),
            match outcome {
                Ok(_) => old(self)@.history.len() > 0 && final(self)@ == old(self)@.undone(),
                Err(e) => old(self)@.history.len() == 0 && final(self)@ == old(self)@ && e
                    == BoardError::NothingToUndo,
            },
    {
        proof {
            use_type_invariant(&*self);
        }
        let mut history: Vec<HistoryEntry> = Vec::new();
        std::mem::swap(&mut history, &mut self.history);
        let latest = history.pop();
        self.history = history;
        match latest {
            None => Err(BoardError::NothingToUndo),
            Some(entry) => {
                self.board_type = entry.prior;
                self.set_squares(entry.applied, false);
                Ok(())
            },
        }
    }

    /// Whether the placement `mov`, whose footprint is `ext`, could narrow
    /// the constraint to `t`.
    fn is_candidate(&self, mov: Move, ext: &Vec<Coordinate>, t: BoardType) -> (passes: bool)
        requires
            ext@ == mov.footprint(),
        ensures
            passes == self@.position.candidate(mov, t),
    {
        if !t.applies_to(self.board_type) || !t.induced_by(mov.coord) {
            return false;
        }
        let mut i: usize = 0;
        while i < ext.len()
            invariant
                i <= ext.len(),
                ext@ == mov.footprint(),
                forall|k: int| 0 <= k < i ==> t.spec_induced_by(#[trigger] ext@[k]),
            decreases ext.len() - i,
        {
            if !t.induced_by(ext[i]) {
                return false;
            }
            i += 1;
        }
        true
    }

    /// The legal moves with the anchor `anchor` and the shape `shape`, in
    /// the order of the constraints they carry.
    fn placements(&self, anchor: Coordinate, shape: MoveType) -> (moves: Vec<Move>)
        requires
            self@.position.is_frontier(anchor),
        ensures
            forall|i: int|
                0 <= i < moves.len() ==> (#[trigger] moves[i]).coord == anchor && moves[i].move_type
                    == shape && self@.position.is_legal(moves[i]),
            forall|m: Move|
                m.coord == anchor && m.move_type == shape && self@.position.is_legal(m)
                    ==> moves@.contains(m),
            forall|i: int, j: int|
                0 <= i < j < moves.len() ==> BoardType::option_rank(
                    (#[trigger] moves[i]).new_board_type,
                ) < BoardType::option_rank((#[trigger] moves[j]).new_board_type),
    {
        let ghost pos = self@.position;
        let mov = match Move::new(anchor, shape) {
            Some(x) => x,
            None => {
                return Vec::new();
            },
        };
        proof {
            mov.lemma_in_bounds_is_fit();
        }
        let ext = mov.extensions();
        let mut touches = anchor.induces_board_type();
        let mut i: usize = 0;
        while i < ext.len()
            invariant
                i <= ext.len(),
                ext@ == mov.footprint(),
                pos == self@.position,
                mov.coord == anchor,
                mov.move_type == shape,
                forall|k: int| 0 <= k < ext.len() ==> (#[trigger] ext@[k]).in_grid(),
                forall|k: int| 0 <= k < i ==> pos.is_free(#[trigger] ext@[k]),
                touches == (anchor.spec_induces_board_type() || exists|k: int|
                    0 <= k < i && (#[trigger] ext@[k]).spec_induces_board_type()),
            decreases ext.len() - i,
        {
            let other_space = ext[i];
            if other_space.induces_board_type() {
                touches = true;
            }
            if self.occupied(other_space) || !self.compatible(other_space) {
                proof {
                    assert forall|m: Move|
                        m.coord == anchor && m.move_type == shape implies !pos.is_legal(m) by {
                        pos.lemma_same_placement(m, mov);
                        assert(!pos.is_free(m.footprint()[i as int]));
                    }
                }
                return Vec::new();
            }
            i += 1;
        }
        let mut moves: Vec<Move> = Vec::new();
        if !touches || self.board_type_final() {
            moves.push(mov);
            assert(moves@[0] == mov);
            return moves;
        }
        let mut ok_board_types: [bool; 5] = [false, false, false, false, false];
        let mut k: usize = 0;
        while k < 5
            invariant
                k <= 5,
                ext@ == mov.footprint(),
                pos == self@.position,
                forall|j: int|
                    0 <= j < k ==> #[trigger] ok_board_types[j] == pos.candidate(
                        mov,
                        POSSIBLE_BOARD_TYPES[j],
                    ),
            decreases 5 - k,
        {
            let passes = self.is_candidate(mov, &ext, BoardType::nth(k));
            ok_board_types[k] = passes;
            k += 1;
        }
        assert(ok_board_types[0] == pos.candidate(mov, BoardType::Left));
        assert(ok_board_types[1] == pos.candidate(mov, BoardType::LeftOrMiddle));
        assert(ok_board_types[2] == pos.candidate(mov, BoardType::Middle));
        assert(ok_board_types[3] == pos.candidate(mov, BoardType::RightOrMiddle));
        assert(ok_board_types[4] == pos.candidate(mov, BoardType::Right));
        if ok_board_types[1] {
            ok_board_types[0] = false;
            ok_board_types[2] = false;
        }
        if ok_board_types[3] {
            ok_board_types[4] = false;
            ok_board_types[2] = false;
        }
        assert forall|t: BoardType| #[trigger]
            ok_board_types[t.rank()] == (pos.candidate(mov, t) && !pos.dominated(mov, t)) by {}
        let mut k: usize = 0;
        while k < 5
            invariant
                k <= 5,
                pos == self@.position,
                pos.placeable(mov),
                pos.must_narrow(mov),
                mov.coord == anchor,
                mov.move_type == shape,
                forall|t: BoardType| #[trigger]
                    ok_board_types[t.rank()] == (pos.candidate(mov, t) && !pos.dominated(mov, t)),
                forall|i: int|
                    0 <= i < moves.len() ==> (#[trigger] moves[i]).coord == anchor
                        && moves[i].move_type == shape && pos.is_legal(moves[i])
                        && BoardType::option_rank(moves[i].new_board_type) <= k,
                forall|t: BoardType|
                    t.rank() < k && ok_board_types[t.rank()] ==> moves@.contains(
                        #[trigger] mov.with_constraint(t),
                    ),
                forall|i: int, j: int|
                    0 <= i < j < moves.len() ==> BoardType::option_rank(
                        (#[trigger] moves[i]).new_board_type,
                    ) < BoardType::option_rank((#[trigger] moves[j]).new_board_type),
            decreases 5 - k,
        {
            let ghost before = moves@;
            let board_type = BoardType::nth(k);
            if ok_board_types[k] {
                moves.push(mov.with_board_type(board_type));
                proof {
                    pos.lemma_same_placement(mov.with_constraint(board_type), mov);
                    assert(ok_board_types[board_type.rank()]);
                }
            }
            proof {
                assert forall|t: BoardType|
                    t.rank() < k + 1 && ok_board_types[t.rank()] implies moves@.contains(
                    #[trigger] mov.with_constraint(t),
                ) by {
                    if t.rank() == k {
                        assert(t == board_type);
                        assert(moves@[moves.len() - 1] == mov.with_constraint(t));
                    } else {
                        assert(before.contains(mov.with_constraint(t)));
                        let i = choose|i: int|
                            0 <= i < before.len() && before[i] == mov.with_constraint(t);
                        assert(moves@[i] == mov.with_constraint(t));
                    }
                }
            }
            k += 1;
        }
        proof {
            assert forall|m: Move|
                m.coord == anchor && m.move_type == shape && pos.is_legal(m) implies moves@.contains(
                m,
            ) by {
                pos.lemma_same_placement(m, mov);
                let t = m.new_board_type->0;
                assert(m == mov.with_constraint(t));
                assert(ok_board_types[t.rank()]);
            }
        }
        moves
    }

    /// Every legal move, in the order of generation: by anchor, row by row;
    /// then by shape; then by the constraint the move carries.
    ///
    /// Every listed move lies on the grid and is taken by
    /// [`Board::make_move`]. A move that carries a constraint narrows the
    /// current one to it, and each cell it covers induces that constraint.
    /// Where a placement that has to narrow could carry `LeftOrMiddle`, it is
    /// listed with `LeftOrMiddle` and with neither `Left` nor `Middle`; where
    /// it could carry `RightOrMiddle`, it is listed with `RightOrMiddle` and
    /// with neither `Right` nor `Middle`. Once the constraint is a final
    /// layout, no move carries any.
    pub fn legal_moves(&self) -> (moves: Vec<Move>)
        ensures
            self@.position.is_move_list(moves@),
            forall|i: int|
                0 <= i < moves.len() ==> (#[trigger] moves[i]).on_grid() && self@.accepts(moves[i]),
            forall|i: int|
                0 <= i < moves.len() ==> ((#[trigger] moves[i]).new_board_type matches Some(t) ==> {
                    &&& t.spec_applies_to(self@.position.constraint)
                    &&& forall|c: Coordinate|
                        moves[i].cells().contains(c) ==> #[trigger] t.spec_induced_by(c)
                }),
            forall|i: int|
                0 <= i < moves.len() && (#[trigger] moves[i]).new_board_type is Some
                    && self@.position.candidate(moves[i], BoardType::LeftOrMiddle) ==> {
                    &&& moves@.contains(moves[i].with_constraint(BoardType::LeftOrMiddle))
                    &&& moves[i].new_board_type != Some(BoardType::Left)
                    &&& moves[i].new_board_type != Some(BoardType::Middle)
                },
            forall|i: int|
                0 <= i < moves.len() && (#[trigger] moves[i]).new_board_type is Some
                    && self@.position.candidate(moves[i], BoardType::RightOrMiddle) ==> {
                    &&& moves@.contains(moves[i].with_constraint(BoardType::RightOrMiddle))
                    &&& moves[i].new_board_type != Some(BoardType::Right)
                    &&& moves[i].new_board_type != Some(BoardType::Middle)
                },
            self@.position.constraint_final() ==> forall|i: int|
                0 <= i < moves.len() ==> (#[trigger] moves[i]).new_board_type is None,
    {
        let ghost pos = self@.position;
        let frontier = self.frontier();
        let mut results: Vec<Move> = Vec::new();
        let mut fi: usize = 0;
        while fi < frontier.len()
            invariant
                fi <= frontier.len(),
                pos == self@.position,
                forall|i: int| 0 <= i < frontier.len() ==> pos.is_frontier(#[trigger] frontier[i]),
                forall|i: int, j: int|
                    0 <= i < j < frontier.len() ==> (#[trigger] frontier[i]).precedes(
                        #[trigger] frontier[j],
                    ),
                forall|i: int| 0 <= i < results.len() ==> pos.is_legal(#[trigger] results[i]),
                fi < frontier.len() ==> forall|i: int|
                    0 <= i < results.len() ==> (#[trigger] results[i]).coord.precedes(
                        frontier[fi as int],
                    ),
                forall|m: Move, k: int|
                    0 <= k < fi && pos.is_legal(m) && m.coord == #[trigger] frontier[k]
                        ==> #[trigger] results@.contains(m),
                forall|i: int, j: int|
                    0 <= i < j < results.len() ==> (#[trigger] results[i]).precedes(
                        #[trigger] results[j],
                    ),
            decreases frontier.len() - fi,
        {
            let anchor = frontier[fi];
            let mut si: usize = 0;
            while si < 11
                invariant
                    si <= 11,
                    fi < frontier.len(),
                    anchor == frontier[fi as int],
                    pos == self@.position,
                    pos.is_frontier(anchor),
                    forall|i: int|
                        0 <= i < results.len() ==> pos.is_legal(#[trigger] results[i]) && (
                        results[i].coord.precedes(anchor) || (results[i].coord == anchor
                            && results[i].move_type.index() < si)),
                    forall|m: Move, k: int|
                        0 <= k < fi && pos.is_legal(m) && m.coord == #[trigger] frontier[k]
                            ==> #[trigger] results@.contains(m),
                    forall|m: Move|
                        pos.is_legal(m) && m.coord == anchor && m.move_type.index() < si
                            ==> #[trigger] results@.contains(m),
                    forall|i: int, j: int|
                        0 <= i < j < results.len() ==> (#[trigger] results[i]).precedes(
                            #[trigger] results[j],
                        ),
                decreases 11 - si,
            {
                let shape = MoveType::nth(si);
                let mut batch = self.placements(anchor, shape);
                let ghost before = results@;
                let ghost added = batch@;
                results.append(&mut batch);
                proof {
                    assert forall|m: Move, k: int|
                        0 <= k < fi && pos.is_legal(m) && m.coord
                            == #[trigger] frontier[k] implies #[trigger] results@.contains(m) by {
                        assert(before.contains(m));
                        lemma_seq_concat_contains_all_elements(before, added, m);
                    }
                    assert forall|m: Move|
                        pos.is_legal(m) && m.coord == anchor && m.move_type.index() < si
                            + 1 implies #[trigger] results@.contains(m) by {
                        if m.move_type.index() < si {
                            assert(before.contains(m));
                        } else {
                            MoveType::lemma_index_identifies(m.move_type, shape);
                            assert(added.contains(m));
                        }
                        lemma_seq_concat_contains_all_elements(before, added, m);
                    }
                    assert forall|i: int, j: int| 0 <= i < j < results.len() implies (
                    #[trigger] results[i]).precedes(#[trigger] results[j]) by {
                        if j >= before.len() {
                            assert(results[j] == added[j - before.len()]);
                            if i >= before.len() {
                                assert(results[i] == added[i - before.len()]);
                            } else {
                                assert(results[i] == before[i]);
                            }
                        } else {
                            assert(results[i] == before[i] && results[j] == before[j]);
                        }
                    }
                    assert forall|i: int| 0 <= i < results.len() implies pos.is_legal(
                        #[trigger] results[i],
                    ) && (results[i].coord.precedes(anchor) || (results[i].coord == anchor
                        && results[i].move_type.index() < si + 1)) by {
                        if i >= before.len() {
                            assert(results[i] == added[i - before.len()]);
                        } else {
                            assert(results[i] == before[i]);
                        }
                    }
                }
                si += 1;
            }
            proof {
                assert forall|m: Move, k: int|
                    0 <= k < fi + 1 && pos.is_legal(m) && m.coord
                        == #[trigger] frontier[k] implies #[trigger] results@.contains(m) by {
                    if k == fi {
                        MoveType::lemma_index_identifies(m.move_type, m.move_type);
                    }
                }
            }
            fi += 1;
        }
        proof {
            assert forall|m: Move| pos.is_legal(m) implies results@.contains(m) by {
                assert(frontier@.contains(m.coord));
                let k = choose|k: int| 0 <= k < frontier.len() && frontier@[k] == m.coord;
                assert(m.coord == frontier[k]);
            }
            assert forall|i: int|
                0 <= i < results.len() && (#[trigger] results[i]).new_board_type is Some implies {
                &&& pos.candidate(results[i], BoardType::LeftOrMiddle) ==> {
                    &&& results@.contains(results[i].with_constraint(BoardType::LeftOrMiddle))
                    &&& results[i].new_board_type != Some(BoardType::Left)
                    &&& results[i].new_board_type != Some(BoardType::Middle)
                }
                &&& pos.candidate(results[i], BoardType::RightOrMiddle) ==> {
                    &&& results@.contains(results[i].with_constraint(BoardType::RightOrMiddle))
                    &&& results[i].new_board_type != Some(BoardType::Right)
                    &&& results[i].new_board_type != Some(BoardType::Middle)
                }
            } by {
                pos.lemma_dominance(results[i]);
            }
            assert forall|i: int| 0 <= i < results.len() implies (#[trigger] results[i]).on_grid()
                && self@.accepts(results[i]) by {
                self@.lemma_legal_move_round_trip(results[i]);
                pos.lemma_legal_move_cells_free(results[i]);
            }
            assert forall|i: int| 0 <= i < results.len() implies ((
            #[trigger] results[i]).new_board_type matches Some(t) ==> {
                &&& t.spec_applies_to(pos.constraint)
                &&& forall|c: Coordinate|
                    results[i].cells().contains(c) ==> #[trigger] t.spec_induced_by(c)
            }) by {
                if let Some(t) = results[i].new_board_type {
                    pos.lemma_legal_move_narrows(results[i], t);
                }
            }
        }
        results
    }
}

} // verus!
