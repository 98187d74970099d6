//! The mathematical model of a position and the rules of placement.
//!
//! A [`Position`] is what the rules depend on: which cells are occupied and
//! what the region constraint is. Everything here is specification; the
//! executable board in [`crate::board`] is proved against it.

use vstd::prelude::*;
use crate::action::Coordinate;
use crate::action::Direction;
use crate::action::Move;
use crate::board::BoardType;
use crate::board::NUM_COLS;
use crate::board::NUM_ROWS;

verus! {

/// The occupied cells of the grid and the current region constraint.
pub struct Position {
    pub occupied: Set<Coordinate>,
    pub constraint: Option<BoardType>,
}

/// The cell with number `k` when the grid is read row by row.
pub open spec fn cell_at(k: int) -> Coordinate {
    Coordinate { row: (k / (NUM_COLS as int)) as usize, col: (k % (NUM_COLS as int)) as usize }
}

impl Position {
    /// Whether only cells of the grid are occupied.
    pub open spec fn wf(self) -> bool {
        forall|c: Coordinate| self.occupied.contains(c) ==> c.in_grid()
    }

    /// Whether the constraint has been resolved to a final layout.
    pub open spec fn constraint_final(self) -> bool {
        self.constraint matches Some(t) && t.spec_is_final()
    }

    /// Whether the current constraint lets a tile stand on `c`. Outside the
    /// constrained region every cell passes, and so does every cell while
    /// there is no constraint. Inside the region `LeftOrMiddle` rules out
    /// (1,1), `RightOrMiddle` rules out (3,0), and a final layout rules out
    /// what it does as a candidate.
    pub open spec fn compatible(self, c: Coordinate) -> bool {
        if !c.spec_induces_board_type() {
            true
        } else {
            match self.constraint {
                None => true,
                Some(BoardType::LeftOrMiddle) => c != (Coordinate { row: 1, col: 1 }),
                Some(BoardType::RightOrMiddle) => c != (Coordinate { row: 3, col: 0 }),
                Some(layout) => layout.spec_induced_by(c),
            }
        }
    }

    /// Whether a tile may be put on `c`: the cell is neither occupied nor
    /// ruled out by the current constraint.
    pub open spec fn is_free(self, c: Coordinate) -> bool {
        !self.occupied.contains(c) && self.compatible(c)
    }

    /// Whether the neighbour of `c` in direction `dir` is on the grid and
    /// occupied.
    pub open spec fn neighbor_occupied(self, c: Coordinate, dir: Direction) -> bool {
        c.can_move_in(dir, 1) && self.occupied.contains(c.shifted(dir, 1))
    }

    /// Whether `c` is a frontier cell: a free cell of the grid with an
    /// occupied neighbour. Only frontier cells can anchor a placement.
    pub open spec fn is_frontier(self, c: Coordinate) -> bool {
        &&& c.in_grid()
        &&& self.is_free(c)
        &&& (self.neighbor_occupied(c, Direction::Up) || self.neighbor_occupied(c, Direction::Down)
            || self.neighbor_occupied(c, Direction::Left) || self.neighbor_occupied(
            c,
            Direction::Right,
        ))
    }

    /// Whether the anchor and shape of `m` can be placed: the anchor is a
    /// frontier cell, the shape fits on the grid, and every footprint cell is
    /// free.
    pub open spec fn placeable(self, m: Move) -> bool {
        &&& self.is_frontier(m.coord)
        &&& m.spec_in_bounds()
        &&& forall|i: int| 0 <= i < m.footprint().len() ==> self.is_free(#[trigger] m.footprint()[i])
    }

    /// Whether the anchor and shape of `m` could narrow the constraint to
    /// `t`: the current constraint narrows to `t`, and `t` is induced by the
    /// anchor and by every footprint cell.
    pub open spec fn candidate(self, m: Move, t: BoardType) -> bool {
        &&& t.spec_applies_to(self.constraint)
        &&& t.spec_induced_by(m.coord)
        &&& forall|i: int|
            0 <= i < m.footprint().len() ==> t.spec_induced_by(#[trigger] m.footprint()[i])
    }

    /// Whether the candidate `t` is set aside because a candidate that keeps
    /// more open covers it: `LeftOrMiddle` covers `Left` and `Middle`,
    /// `RightOrMiddle` covers `Right` and `Middle`.
    pub open spec fn dominated(self, m: Move, t: BoardType) -> bool {
        match t {
            BoardType::Left => self.candidate(m, BoardType::LeftOrMiddle),
            BoardType::Middle => self.candidate(m, BoardType::LeftOrMiddle) || self.candidate(
                m,
                BoardType::RightOrMiddle,
            ),
            BoardType::Right => self.candidate(m, BoardType::RightOrMiddle),
            BoardType::LeftOrMiddle => false,
            BoardType::RightOrMiddle => false,
        }
    }

    /// Whether a placement with the anchor and shape of `m` has to narrow the
    /// constraint: it touches the constrained region while the constraint is
    /// not final.
    pub open spec fn must_narrow(self, m: Move) -> bool {
        m.touches_region() && !self.constraint_final()
    }

    /// Whether `m` is a legal move. Its anchor and shape must be placeable.
    /// If the placement has to narrow the constraint, `m` carries a
    /// candidate that is not dominated; if not, it carries none.
    pub open spec fn is_legal(self, m: Move) -> bool {
        &&& self.placeable(m)
        &&& if self.must_narrow(m) {
            m.new_board_type matches Some(t) && self.candidate(m, t) && !self.dominated(m, t)
        } else {
            m.new_board_type is None
        }
    }

    /// Whether `moves` is the list of legal moves: it holds legal moves
    /// only, it holds every legal move, and it holds them in the order of
    /// generation, so that none occurs twice.
    pub open spec fn is_move_list(self, moves: Seq<Move>) -> bool {
        &&& forall|i: int| 0 <= i < moves.len() ==> self.is_legal(#[trigger] moves[i])
        &&& forall|m: Move| self.is_legal(m) ==> moves.contains(m)
        &&& forall|i: int, j: int|
            0 <= i < j < moves.len() ==> (#[trigger] moves[i]).precedes(#[trigger] moves[j])
    }

    /// The position after `m` has been applied: its cells are occupied, and
    /// the constraint is the one `m` carries, if it carries one.
    pub open spec fn after(self, m: Move) -> Position {
        Position {
            occupied: self.occupied.union(m.cells()),
            constraint: match m.new_board_type {
                Some(t) => Some(t),
                None => self.constraint,
            },
        }
    }

    /// The position before `m` was applied to a position whose constraint
    /// was `prior`: the cells of `m` are cleared and `prior` is back.
    pub open spec fn before(self, m: Move, prior: Option<BoardType>) -> Position {
        Position { occupied: self.occupied.difference(m.cells()), constraint: prior }
    }

    /// Whether occupancy and constraint agree: every occupied cell of the
    /// constrained region induces the current constraint. In particular the
    /// region is empty while there is no constraint.
    pub open spec fn consistent(self) -> bool {
        forall|c: Coordinate|
            self.occupied.contains(c) && c.spec_induces_board_type() ==> (self.constraint matches Some(
                t,
            ) && t.spec_induced_by(c))
    }

    /// The number of unoccupied cells among the first `n` cells of the grid,
    /// read row by row.
    pub open spec fn free_among(self, n: nat) -> nat
        decreases n,
    {
        if n == 0 {
            0
        } else {
            self.free_among((n - 1) as nat) + if self.occupied.contains(cell_at(n - 1)) {
                0nat
            } else {
                1nat
            }
        }
    }

    /// The number of unoccupied cells of the grid.
    pub open spec fn free_cells(self) -> nat {
        self.free_among((NUM_ROWS * NUM_COLS) as nat)
    }

    /// What can be placed, and which constraints a placement could carry,
    /// depends on its anchor and shape alone.
    pub proof fn lemma_same_placement(self, a: Move, b: Move)
        requires
            a.coord == b.coord,
            a.move_type == b.move_type,
        ensures
            a.footprint() == b.footprint(),
            a.cells() == b.cells(),
            self.placeable(a) == self.placeable(b),
            self.must_narrow(a) == self.must_narrow(b),
            forall|t: BoardType| #[trigger] self.candidate(a, t) == self.candidate(b, t),
            forall|t: BoardType| #[trigger] self.dominated(a, t) == self.dominated(b, t),
    {
        assert(a.cells() =~= b.cells());
    }

    /// A cell passes the current constraint exactly when some final layout
    /// that the constraint can still narrow to is induced by it.
    pub proof fn lemma_compatible_is_some_layout(self, c: Coordinate)
        ensures
            self.compatible(c) <==> exists|layout: BoardType|
                layout.spec_is_final() && layout.spec_applies_to(self.constraint)
                    && #[trigger] layout.spec_induced_by(c),
    {
        if self.compatible(c) {
            let layout = if BoardType::Left.spec_applies_to(self.constraint)
                && BoardType::Left.spec_induced_by(c) {
                BoardType::Left
            } else if BoardType::Middle.spec_applies_to(self.constraint)
                && BoardType::Middle.spec_induced_by(c) {
                BoardType::Middle
            } else {
                BoardType::Right
            };
            assert(layout.spec_is_final() && layout.spec_applies_to(self.constraint)
                && layout.spec_induced_by(c));
        }
    }

    /// A cell that induces the current constraint also passes it, so on a
    /// consistent position no occupied cell is ruled out by the constraint.
    pub proof fn lemma_consistent_cells_compatible(self, c: Coordinate)
        requires
            self.consistent(),
            self.occupied.contains(c),
        ensures
            self.compatible(c),
    {
    }

    /// A legal move that carries a constraint narrows the current one to it,
    /// and every cell it covers induces that constraint.
    pub proof fn lemma_legal_move_narrows(self, m: Move, t: BoardType)
        requires
            self.is_legal(m),
            m.new_board_type == Some(t),
        ensures
            t.spec_applies_to(self.constraint),
            t.spec_induced_by(m.coord),
            forall|i: int| 0 <= i < m.footprint().len() ==> t.spec_induced_by(#[trigger] m.footprint()[i]),
            forall|c: Coordinate| m.cells().contains(c) ==> t.spec_induced_by(c),
    {
        assert forall|c: Coordinate| m.cells().contains(c) implies t.spec_induced_by(c) by {
            if c != m.coord {
                let i = choose|i: int| 0 <= i < m.footprint().len() && m.footprint()[i] == c;
                assert(t.spec_induced_by(m.footprint()[i]));
            }
        }
    }

    /// Where a placement that has to narrow the constraint has
    /// `LeftOrMiddle` for a candidate, it is legal with `LeftOrMiddle` and
    /// with neither `Left` nor `Middle`: the one other constraint it can be
    /// legal with is `Right`, and that only while the board has no
    /// constraint. Likewise with `RightOrMiddle` for a candidate it is legal
    /// with `RightOrMiddle`, with neither `Right` nor `Middle`, and with
    /// `Left` only while the board has no constraint.
    pub proof fn lemma_dominance(self, m: Move)
        requires
            self.placeable(m),
            self.must_narrow(m),
        ensures
            self.candidate(m, BoardType::LeftOrMiddle) ==> forall|t: BoardType|
                self.is_legal(#[trigger] m.with_constraint(t)) <==> (t == BoardType::LeftOrMiddle || (t
                    == BoardType::Right && self.constraint is None)),
            self.candidate(m, BoardType::RightOrMiddle) ==> forall|t: BoardType|
                self.is_legal(#[trigger] m.with_constraint(t)) <==> (t == BoardType::RightOrMiddle || (
                t == BoardType::Left && self.constraint is None)),
    {
        assert forall|t: BoardType|
            self.is_legal(#[trigger] m.with_constraint(t)) == (self.candidate(m, t)
                && !self.dominated(m, t)) by {
            self.lemma_same_placement(m.with_constraint(t), m);
        }
        let region_cell = if m.coord.spec_induces_board_type() {
            m.coord
        } else {
            let i = choose|i: int|
                0 <= i < m.footprint().len() && (#[trigger] m.footprint()[i]).spec_induces_board_type();
            m.footprint()[i]
        };
        assert(forall|t: BoardType| self.candidate(m, t) ==> t.spec_induced_by(region_cell));
    }

    /// Once the constraint is a final layout, a legal move carries no
    /// constraint and leaves the layout in place.
    pub proof fn lemma_final_constraint_stays(self, m: Move)
        requires
            self.constraint_final(),
            self.is_legal(m),
        ensures
            m.new_board_type is None,
            self.after(m).constraint == self.constraint,
            self.after(m).constraint_final(),
    {
    }

    /// A legal move only ever narrows the constraint: the constraint after
    /// it is one that the constraint before it narrows to.
    pub proof fn lemma_legal_move_is_monotone(self, m: Move)
        requires
            self.is_legal(m),
        ensures
            match self.after(m).constraint {
                Some(t) => t.spec_applies_to(self.constraint),
                None => self.constraint is None,
            },
    {
        if let Some(c) = self.constraint {
            BoardType::lemma_narrowing_is_partial_order(c, c, c);
        }
    }

    /// A legal move keeps occupancy and constraint in agreement.
    pub proof fn lemma_legal_move_keeps_consistency(self, m: Move)
        requires
            self.consistent(),
            self.is_legal(m),
        ensures
            self.after(m).consistent(),
    {
        let next = self.after(m);
        assert forall|c: Coordinate|
            next.occupied.contains(c) && c.spec_induces_board_type() implies (
        next.constraint matches Some(t) && t.spec_induced_by(c)) by {
            if m.cells().contains(c) {
                if c == m.coord {
                } else {
                    let i = choose|i: int| 0 <= i < m.footprint().len() && m.footprint()[i] == c;
                    assert(m.footprint()[i].spec_induces_board_type());
                    assert(self.is_free(m.footprint()[i]));
                }
                assert(m.touches_region());
                if self.must_narrow(m) {
                    self.lemma_legal_move_narrows(m, m.new_board_type->0);
                } else {
                    assert(self.is_free(c));
                }
            } else {
                assert(self.occupied.contains(c));
            }
        }
    }

    /// A legal move covers only cells of the grid that were not occupied.
    pub proof fn lemma_legal_move_cells_free(self, m: Move)
        requires
            self.is_legal(m),
        ensures
            m.on_grid(),
            forall|c: Coordinate| m.cells().contains(c) ==> c.in_grid() && !self.occupied.contains(c),
            self.wf() ==> self.after(m).wf(),
    {
        m.lemma_in_bounds_is_fit();
        assert forall|c: Coordinate| m.cells().contains(c) implies c.in_grid()
            && !self.occupied.contains(c) by {
            if c != m.coord {
                let i = choose|i: int| 0 <= i < m.footprint().len() && m.footprint()[i] == c;
                assert(self.is_free(m.footprint()[i]));
                assert(m.footprint()[i].in_grid());
            }
        }
    }

    /// A position has one list of legal moves only: two lists that both
    /// hold exactly the legal moves in the order of generation are equal up
    /// to any index, and of equal length.
    pub proof fn lemma_move_list_unique(self, a: Seq<Move>, b: Seq<Move>)
        requires
            self.is_move_list(a),
            self.is_move_list(b),
        ensures
            a == b,
    {
        self.lemma_move_lists_agree(a, b, a.len() as int);
        self.lemma_move_lists_agree(b, a, b.len() as int);
        assert(a =~= b);
    }

    /// Two lists of the legal moves agree on their first `n` entries.
    proof fn lemma_move_lists_agree(self, a: Seq<Move>, b: Seq<Move>, n: int)
        requires
            self.is_move_list(a),
            self.is_move_list(b),
            0 <= n <= a.len(),
        ensures
            n <= b.len(),
            forall|i: int| 0 <= i < n ==> a[i] == b[i],
        decreases n,
    {
        if n > 0 {
            self.lemma_move_lists_agree(a, b, n - 1);
            let last = n - 1;
            assert(self.is_legal(a[last]));
            assert(b.contains(a[last]));
            let j = choose|j: int| 0 <= j < b.len() && b[j] == a[last];
            if j < last {
                assert(a[j].precedes(a[last]));
            } else if j > last {
                assert(b[last].precedes(b[j]));
                assert(self.is_legal(b[last]));
                assert(a.contains(b[last]));
                let k = choose|k: int| 0 <= k < a.len() && a[k] == b[last];
                if k < last {
                    assert(b[k].precedes(b[last]));
                } else if k > last {
                    assert(a[last].precedes(a[k]));
                }
            }
        }
    }

    /// No more than `n` of the first `n` cells are free.
    proof fn lemma_free_among_bounded(self, n: nat)
        ensures
            self.free_among(n) <= n,
        decreases n,
    {
        if n > 0 {
            self.lemma_free_among_bounded((n - 1) as nat);
        }
    }

    /// No more cells are free than the grid has.
    pub proof fn lemma_free_cells_bounded(self)
        ensures
            self.free_cells() <= NUM_ROWS * NUM_COLS,
    {
        self.lemma_free_among_bounded((NUM_ROWS * NUM_COLS) as nat);
    }

    /// Occupying more cells never raises the number of free cells, and
    /// lowers it where one of the first `n` cells becomes occupied.
    pub proof fn lemma_free_among_shrinks(self, bigger: Position, c: Coordinate, n: nat)
        requires
            forall|d: Coordinate| self.occupied.contains(d) ==> bigger.occupied.contains(d),
            c.in_grid(),
            !self.occupied.contains(c),
            bigger.occupied.contains(c),
        ensures
            bigger.free_among(n) <= self.free_among(n),
            n > c.row * NUM_COLS + c.col ==> bigger.free_among(n) < self.free_among(n),
        decreases n,
    {
        if n > 0 {
            self.lemma_free_among_shrinks(bigger, c, (n - 1) as nat);
            if n - 1 == c.row * NUM_COLS + c.col {
                assert(cell_at(n - 1) == c);
            }
        }
    }

    /// Every legal move leaves fewer cells free, so that no line of play
    /// goes on forever.
    pub proof fn lemma_legal_move_fills(self, m: Move)
        requires
            self.is_legal(m),
        ensures
            self.after(m).free_cells() < self.free_cells(),
    {
        assert(m.cells().contains(m.coord));
        self.lemma_free_among_shrinks(self.after(m), m.coord, (NUM_ROWS * NUM_COLS) as nat);
    }
}

} // verus!
