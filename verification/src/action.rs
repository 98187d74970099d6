//! Grid geometry and the shape of a placement.
//!
//! A [`Move`] is an anchor cell, one of eleven fixed shapes, and, when the
//! placement has to narrow the board's region constraint, the constraint it
//! narrows to. The cells a shape covers besides its anchor are its
//! *footprint*; a fixed table gives, for each shape, the steps that lead from
//! the anchor to them.

use vstd::prelude::*;
use crate::board::BoardType;
use crate::board::NUM_COLS;
use crate::board::NUM_ROWS;

verus! {

/// A cell of the grid, by row and column. Row 0 is the top row.
#[derive(Clone, Copy, Debug, PartialEq, Eq, Structural)]
pub struct Coordinate {
    pub row: usize,
    pub col: usize,
}

/// The four directions in which cells are adjacent.
#[derive(Clone, Copy, Debug, PartialEq, Eq, Structural)]
pub enum Direction {
    Up,
    Down,
    Left,
    Right,
}

/// Every direction, in the order in which neighbours are inspected.
pub const POSSIBLE_DIRECTIONS: [Direction; 4] = [
    Direction::Up,
    Direction::Down,
    Direction::Left,
    Direction::Right,
];

impl Coordinate {
    /// The result of [`Coordinate::in_grid`], as a specification.
    pub open spec fn spec_in_grid(&self) -> bool {
        self.row < NUM_ROWS && self.col < NUM_COLS
    }

    /// Whether the cell lies on the grid.
    #[verifier::when_used_as_spec(spec_in_grid)]
    pub fn in_grid(&self) -> (inside: bool)
        ensures
            inside == self.spec_in_grid(),
    {
        self.row < NUM_ROWS && self.col < NUM_COLS
    }

    /// Whether `self` comes before `other` when the grid is read row by row.
    pub open spec fn precedes(self, other: Coordinate) -> bool {
        self.row < other.row || (self.row == other.row && self.col < other.col)
    }

    /// The cell `delta` steps from `self` in direction `dir`, with no regard
    /// for the edges of the grid. Meaningful only where the step does not
    /// pass row 0 or column 0.
    pub open spec fn shifted(self, dir: Direction, delta: int) -> Coordinate {
        match dir {
            Direction::Up => Coordinate { row: (self.row - delta) as usize, col: self.col },
            Direction::Down => Coordinate { row: (self.row + delta) as usize, col: self.col },
            Direction::Left => Coordinate { row: self.row, col: (self.col - delta) as usize },
            Direction::Right => Coordinate { row: self.row, col: (self.col + delta) as usize },
        }
    }

    /// Whether a step of `delta` cells in direction `dir` stays clear of the
    /// edge it heads for: the top and left edges for `Up` and `Left`, the
    /// bottom and right edges for `Down` and `Right`.
    pub open spec fn can_move_in(self, dir: Direction, delta: int) -> bool {
        match dir {
            Direction::Up => self.row >= delta,
            Direction::Down => self.row + delta < NUM_ROWS,
            Direction::Left => self.col >= delta,
            Direction::Right => self.col + delta < NUM_COLS,
        }
    }

    /// The result of [`Coordinate::move_in`], as a specification.
    pub open spec fn spec_move_in(&self, dir: Direction, delta: usize) -> Option<Coordinate> {
        if self.can_move_in(dir, delta as int) {
            Some(self.shifted(dir, delta as int))
        } else {
            None
        }
    }

    /// The cell `delta` steps away in direction `dir`, or `None` if the step
    /// would cross the edge of the grid it heads for.
    #[verifier::when_used_as_spec(spec_move_in)]
    pub fn move_in(&self, dir: Direction, delta: usize) -> (target: Option<Coordinate>)
        ensures
            target == self.spec_move_in(dir, delta),
            target is Some <==> self.can_move_in(dir, delta as int),
            self.in_grid() && target is Some ==> target->0.in_grid(),
    {
        match dir {
            Direction::Up => if self.row >= delta {
                Some(Coordinate { row: self.row - delta, col: self.col })
            } else {
                None
            },
            Direction::Down => if delta < NUM_ROWS && self.row < NUM_ROWS - delta {
                Some(Coordinate { row: self.row + delta, col: self.col })
            } else {
                None
            },
            Direction::Left => if self.col >= delta {
                Some(Coordinate { row: self.row, col: self.col - delta })
            } else {
                None
            },
            Direction::Right => if delta < NUM_COLS && self.col < NUM_COLS - delta {
                Some(Coordinate { row: self.row, col: self.col + delta })
            } else {
                None
            },
        }
    }

    /// The cell `delta` steps away in direction `dir`, for a step that is
    /// known to stay on the grid.
    pub fn unchecked_move_in(&self, dir: Direction, delta: usize) -> (target: Coordinate)
        requires
            self.can_move_in(dir, delta as int),
        ensures
            target == self.shifted(dir, delta as int),
            Some(target) == self.spec_move_in(dir, delta),
    {
        match dir {
            Direction::Up => Coordinate { row: self.row - delta, col: self.col },
            Direction::Down => Coordinate { row: self.row + delta, col: self.col },
            Direction::Left => Coordinate { row: self.row, col: self.col - delta },
            Direction::Right => Coordinate { row: self.row, col: self.col + delta },
        }
    }

    /// The result of [`Coordinate::induces_board_type`], as a specification:
    /// the constrained region is every row but the first, in the two
    /// leftmost columns.
    pub open spec fn spec_induces_board_type(&self) -> bool {
        self.col < 2 && self.row >= 1
    }

    /// Whether the cell lies in the lower-left region whose layout the
    /// board's region constraint describes.
    #[verifier::when_used_as_spec(spec_induces_board_type)]
    pub fn induces_board_type(&self) -> (inside: bool)
        ensures
            inside == self.spec_induces_board_type(),
    {
        self.col < 2 && self.row >= 1
    }
}

/// The shape of a placement around its anchor cell.
#[derive(Clone, Copy, Debug, PartialEq, Eq, Structural)]
pub enum MoveType {
    Single,
    OneUp,
    OneDown,
    OneLeft,
    OneRight,
    TwoUp,
    TwoDown,
    TwoLeft,
    TwoRight,
    UpAndDown,
    LeftAndRight,
}

/// Every shape, in the order in which the move generator tries them.
pub const POSSIBLE_MOVE_TYPES: [MoveType; 11] = [
    MoveType::Single,
    MoveType::OneUp,
    MoveType::OneDown,
    MoveType::OneLeft,
    MoveType::OneRight,
    MoveType::TwoUp,
    MoveType::TwoDown,
    MoveType::TwoLeft,
    MoveType::TwoRight,
    MoveType::UpAndDown,
    MoveType::LeftAndRight,
];

impl MoveType {
    /// The position of the shape in [`POSSIBLE_MOVE_TYPES`].
    pub open spec fn index(self) -> int {
        match self {
            MoveType::Single => 0,
            MoveType::OneUp => 1,
            MoveType::OneDown => 2,
            MoveType::OneLeft => 3,
            MoveType::OneRight => 4,
            MoveType::TwoUp => 5,
            MoveType::TwoDown => 6,
            MoveType::TwoLeft => 7,
            MoveType::TwoRight => 8,
            MoveType::UpAndDown => 9,
            MoveType::LeftAndRight => 10,
        }
    }

    /// The footprint pattern of the shape: for each cell that it covers
    /// besides the anchor, the direction and the distance from the anchor.
    pub open spec fn pattern(self) -> Seq<(Direction, int)> {
        match self {
            MoveType::Single => seq![],
            MoveType::OneUp => seq![(Direction::Up, 1int)],
            MoveType::OneDown => seq![(Direction::Down, 1int)],
            MoveType::OneLeft => seq![(Direction::Left, 1int)],
            MoveType::OneRight => seq![(Direction::Right, 1int)],
            MoveType::TwoUp => seq![(Direction::Up, 1int), (Direction::Up, 2int)],
            MoveType::TwoDown => seq![(Direction::Down, 1int), (Direction::Down, 2int)],
            MoveType::TwoLeft => seq![(Direction::Left, 1int), (Direction::Left, 2int)],
            MoveType::TwoRight => seq![(Direction::Right, 1int), (Direction::Right, 2int)],
            MoveType::UpAndDown => seq![(Direction::Up, 1int), (Direction::Down, 1int)],
            MoveType::LeftAndRight => seq![(Direction::Left, 1int), (Direction::Right, 1int)],
        }
    }

    /// Whether every step of the shape's pattern, taken from `anchor`, stays
    /// clear of the edge it heads for.
    pub open spec fn fits_at(self, anchor: Coordinate) -> bool {
        forall|i: int|
            0 <= i < self.pattern().len() ==> anchor.can_move_in(
                #[trigger] self.pattern()[i].0,
                self.pattern()[i].1,
            )
    }

    /// The cells that the shape covers besides `anchor`, in the order of its
    /// pattern. Meaningful only where the shape fits.
    pub open spec fn footprint_at(self, anchor: Coordinate) -> Seq<Coordinate> {
        Seq::new(self.pattern().len(), |i: int| anchor.shifted(self.pattern()[i].0, self.pattern()[i].1))
    }

    /// The shape at position `i` of [`POSSIBLE_MOVE_TYPES`].
    pub fn nth(i: usize) -> (shape: MoveType)
        requires
            i < 11,
        ensures
            shape.index() == i,
    {
        POSSIBLE_MOVE_TYPES[i]
    }

    /// Every shape has its own position among the eleven.
    pub proof fn lemma_index_identifies(a: MoveType, b: MoveType)
        ensures
            0 <= a.index() < 11,
            a.index() == b.index() <==> a == b,
    {
    }
}

/// A placement: the anchor, the shape, and the region constraint that the
/// board takes on when the placement is applied (`None` leaves the board's
/// constraint as it is).
#[derive(Clone, Copy, Debug, PartialEq, Eq, Structural)]
pub struct Move {
    pub coord: Coordinate,
    pub move_type: MoveType,
    pub new_board_type: Option<BoardType>,
}

impl Move {
    /// The result of [`Move::in_bounds`], as a specification: each shape
    /// asks for as many rows or columns between the anchor and an edge as it
    /// extends towards that edge.
    pub open spec fn spec_in_bounds(&self) -> bool {
        match self.move_type {
            MoveType::Single => true,
            MoveType::OneUp => self.coord.row >= 1,
            MoveType::OneDown => self.coord.row < NUM_ROWS - 1,
            MoveType::OneLeft => self.coord.col >= 1,
            MoveType::OneRight => self.coord.col < NUM_COLS - 1,
            MoveType::TwoUp => self.coord.row >= 2,
            MoveType::TwoDown => self.coord.row < NUM_ROWS - 2,
            MoveType::TwoLeft => self.coord.col >= 2,
            MoveType::TwoRight => self.coord.col < NUM_COLS - 2,
            MoveType::UpAndDown => self.coord.row >= 1 && self.coord.row < NUM_ROWS - 1,
            MoveType::LeftAndRight => self.coord.col >= 1 && self.coord.col < NUM_COLS - 1,
        }
    }

    /// Whether every step of the shape's pattern stays clear of the edge it
    /// heads for.
    pub open spec fn pattern_fits(self) -> bool {
        self.move_type.fits_at(self.coord)
    }

    /// The cells that the placement covers besides its anchor, in the order
    /// of the shape's pattern. Meaningful only for a placement that is in
    /// bounds.
    pub open spec fn footprint(self) -> Seq<Coordinate> {
        self.move_type.footprint_at(self.coord)
    }

    /// Every cell that the placement covers: the anchor and the footprint.
    pub open spec fn cells(self) -> Set<Coordinate> {
        Set::new(|c: Coordinate| c == self.coord || self.footprint().contains(c))
    }

    /// Whether the anchor is on the grid and the shape fits there, so that
    /// every covered cell is on the grid.
    pub open spec fn on_grid(self) -> bool {
        self.coord.in_grid() && self.spec_in_bounds()
    }

    /// Whether the anchor or a footprint cell lies in the constrained region.
    pub open spec fn touches_region(self) -> bool {
        self.coord.spec_induces_board_type() || exists|i: int|
            0 <= i < self.footprint().len() && (#[trigger] self.footprint()[i]).spec_induces_board_type()
    }

    /// The order in which the move generator lists placements: by anchor row,
    /// then anchor column, then shape, then resulting constraint, where a
    /// placement without one comes first.
    pub open spec fn precedes(self, other: Move) -> bool {
        ||| self.coord.precedes(other.coord)
        ||| self.coord == other.coord && self.move_type.index() < other.move_type.index()
        ||| self.coord == other.coord && self.move_type == other.move_type
            && BoardType::option_rank(self.new_board_type) < BoardType::option_rank(other.new_board_type)
    }

    /// The same placement, carrying the constraint `t`.
    pub open spec fn with_constraint(self, t: BoardType) -> Move {
        Move { new_board_type: Some(t), ..self }
    }

    /// A placement of shape `move_type` anchored at `coord` that leaves the
    /// region constraint alone, or `None` if the shape does not fit on the
    /// grid there.
    pub fn new(coord: Coordinate, move_type: MoveType) -> (created: Option<Move>)
        ensures
            created == (if (Move { coord, move_type, new_board_type: None }).spec_in_bounds() {
                Some(Move { coord, move_type, new_board_type: None })
            } else {
                None::<Move>
            }),
    {
        let c = Move { coord: coord, move_type: move_type, new_board_type: None };
        if c.in_bounds() {
            Some(c)
        } else {
            None
        }
    }

    /// The same placement, narrowing the region constraint to
    /// `new_board_type`.
    pub fn with_board_type(&self, new_board_type: BoardType) -> (narrowing: Move)
        ensures
            narrowing == self.with_constraint(new_board_type),
    {
        Move { coord: self.coord, move_type: self.move_type, new_board_type: Some(new_board_type) }
    }

    /// Whether the shape fits on the grid at the anchor: for an anchor on the
    /// grid, whether every footprint cell is on the grid too.
    #[verifier::when_used_as_spec(spec_in_bounds)]
    pub fn in_bounds(&self) -> (fits: bool)
        ensures
            fits == self.spec_in_bounds(),
            fits == self.pattern_fits(),
            self.coord.in_grid() && fits ==> forall|i: int|
                0 <= i < self.footprint().len() ==> (#[trigger] self.footprint()[i]).in_grid(),
    {
        proof {
            self.lemma_in_bounds_is_fit();
        }
        match self.move_type {
            MoveType::Single => true,
            MoveType::OneUp => self.coord.row >= 1,
            MoveType::OneDown => self.coord.row < NUM_ROWS - 1,
            MoveType::OneLeft => self.coord.col >= 1,
            MoveType::OneRight => self.coord.col < NUM_COLS - 1,
            MoveType::TwoUp => self.coord.row >= 2,
            MoveType::TwoDown => self.coord.row < NUM_ROWS - 2,
            MoveType::TwoLeft => self.coord.col >= 2,
            MoveType::TwoRight => self.coord.col < NUM_COLS - 2,
            MoveType::UpAndDown => self.coord.row >= 1 && self.coord.row < NUM_ROWS - 1,
            MoveType::LeftAndRight => self.coord.col >= 1 && self.coord.col < NUM_COLS - 1,
        }
    }

    /// The cells that the placement covers besides its anchor: one for each
    /// step of the shape's pattern, none of them the anchor and no two the
    /// same.
    pub fn extensions(&self) -> (cells: Vec<Coordinate>)
        requires
            self.spec_in_bounds(),
        ensures
            cells@ == self.footprint(),
            cells@.len() == self.move_type.pattern().len(),
            !cells@.contains(self.coord),
            cells@.no_duplicates(),
    {
        proof {
            self.lemma_in_bounds_is_fit();
            self.lemma_footprint_distinct();
        }
        let ghost pattern = self.move_type.pattern();
        let cells = match self.move_type {
            MoveType::Single => Vec::new(),
            MoveType::OneUp => {
                assert(self.coord.can_move_in(pattern[0].0, pattern[0].1));
                vec![self.coord.unchecked_move_in(Direction::Up, 1)]
            },
            MoveType::OneDown => {
                assert(self.coord.can_move_in(pattern[0].0, pattern[0].1));
                vec![self.coord.unchecked_move_in(Direction::Down, 1)]
            },
            MoveType::OneLeft => {
                assert(self.coord.can_move_in(pattern[0].0, pattern[0].1));
                vec![self.coord.unchecked_move_in(Direction::Left, 1)]
            },
            MoveType::OneRight => {
                assert(self.coord.can_move_in(pattern[0].0, pattern[0].1));
                vec![self.coord.unchecked_move_in(Direction::Right, 1)]
            },
            MoveType::TwoUp => {
                assert(self.coord.can_move_in(pattern[1].0, pattern[1].1));
                vec![
                    self.coord.unchecked_move_in(Direction::Up, 1),
                    self.coord.unchecked_move_in(Direction::Up, 2),
                ]
            },
            MoveType::TwoDown => {
                assert(self.coord.can_move_in(pattern[1].0, pattern[1].1));
                vec![
                    self.coord.unchecked_move_in(Direction::Down, 1),
                    self.coord.unchecked_move_in(Direction::Down, 2),
                ]
            },
            MoveType::TwoLeft => {
                assert(self.coord.can_move_in(pattern[1].0, pattern[1].1));
                vec![
                    self.coord.unchecked_move_in(Direction::Left, 1),
                    self.coord.unchecked_move_in(Direction::Left, 2),
                ]
            },
            MoveType::TwoRight => {
                assert(self.coord.can_move_in(pattern[1].0, pattern[1].1));
                vec![
                    self.coord.unchecked_move_in(Direction::Right, 1),
                    self.coord.unchecked_move_in(Direction::Right, 2),
                ]
            },
            MoveType::UpAndDown => {
                assert(self.coord.can_move_in(pattern[0].0, pattern[0].1));
                assert(self.coord.can_move_in(pattern[1].0, pattern[1].1));
                vec![
                    self.coord.unchecked_move_in(Direction::Up, 1),
                    self.coord.unchecked_move_in(Direction::Down, 1),
                ]
            },
            MoveType::LeftAndRight => {
                assert(self.coord.can_move_in(pattern[0].0, pattern[0].1));
                assert(self.coord.can_move_in(pattern[1].0, pattern[1].1));
                vec![
                    self.coord.unchecked_move_in(Direction::Left, 1),
                    self.coord.unchecked_move_in(Direction::Right, 1),
                ]
            },
        };
        assert(cells@ =~= self.footprint());
        cells
    }

    /// The per-shape bounds test says exactly that the shape's pattern fits
    /// at the anchor.
    pub proof fn lemma_in_bounds_is_fit(self)
        ensures
            self.spec_in_bounds() == self.pattern_fits(),
            self.on_grid() ==> forall|i: int|
                0 <= i < self.footprint().len() ==> (#[trigger] self.footprint()[i]).in_grid(),
    {
        let pattern = self.move_type.pattern();
        if self.spec_in_bounds() {
            assert forall|i: int| 0 <= i < pattern.len() implies self.coord.can_move_in(
                #[trigger] pattern[i].0,
                pattern[i].1,
            ) by {}
        } else {
            if pattern.len() == 1 {
                assert(!self.coord.can_move_in(pattern[0].0, pattern[0].1));
            } else if pattern.len() == 2 {
                assert(!self.coord.can_move_in(pattern[0].0, pattern[0].1)
                    || !self.coord.can_move_in(pattern[1].0, pattern[1].1));
            }
        }
        if self.on_grid() {
            assert forall|i: int| 0 <= i < self.footprint().len() implies (
            #[trigger] self.footprint()[i]).in_grid() by {
                assert(self.coord.can_move_in(pattern[i].0, pattern[i].1));
            }
        }
    }

    /// The anchor is never part of the footprint, and the footprint holds no
    /// cell twice.
    pub proof fn lemma_footprint_distinct(self)
        requires
            self.spec_in_bounds(),
        ensures
            !self.footprint().contains(self.coord),
            forall|i: int, j: int|
                0 <= i < j < self.footprint().len() ==> self.footprint()[i] != self.footprint()[j],
    {
        self.lemma_in_bounds_is_fit();
        let pattern = self.move_type.pattern();
        assert forall|i: int| 0 <= i < self.footprint().len() implies self.footprint()[i]
            != self.coord by {
            assert(self.coord.can_move_in(pattern[i].0, pattern[i].1));
        }
        assert forall|i: int, j: int| 0 <= i < j < self.footprint().len() implies self.footprint()[i]
            != self.footprint()[j] by {
            assert(self.coord.can_move_in(pattern[i].0, pattern[i].1));
            assert(self.coord.can_move_in(pattern[j].0, pattern[j].1));
        }
    }
}

} // verus!
