use vstd::prelude::*;

verus! {

/// A square of the board, given by its row (rank) and column (file).
///
/// A value of this type always holds a valid square: row and column both lie in `0..8`.
#[derive(PartialEq, Eq, Structural, Clone, Copy, Debug, Hash)]
pub struct Position(i8, i8);

/// True when `(row, col)` names a square of the board.
pub open spec fn on_board(row: int, col: int) -> bool {
    0 <= row < 8 && 0 <= col < 8
}

impl Position {
    #[verifier::type_invariant]
    pub closed spec fn inv(self) -> bool {
        on_board(self.0 as int, self.1 as int)
    }

    pub closed spec fn spec_row(self) -> i8 {
        self.0
    }

    pub closed spec fn spec_col(self) -> i8 {
        self.1
    }

    /// Index of the square in a row-major board array.
    pub open spec fn idx(self) -> int {
        self.spec_row() * 8 + self.spec_col()
    }

    /// The square `(row, col)` as a value; meaningful only where `on_board(row, col)`.
    pub closed spec fn at(row: int, col: int) -> Position {
        Position(row as i8, col as i8)
    }

    pub proof fn lemma_at(row: int, col: int)
        requires
            on_board(row, col),
        ensures
            Position::at(row, col).spec_row() == row,
            Position::at(row, col).spec_col() == col,
            Position::at(row, col).inv(),
    {
    }

    pub proof fn lemma_inv(p: Position)
        ensures
            p.inv() <==> on_board(p.spec_row() as int, p.spec_col() as int),
    {
    }

    /// Two squares are the same exactly when their coordinates are.
    pub proof fn lemma_eq(a: Position, b: Position)
        ensures
            (a == b) <==> (a.spec_row() == b.spec_row() && a.spec_col() == b.spec_col()),
    {
    }

    /// A valid square has its index in `0..64`, and the index determines the square.
    pub proof fn lemma_idx(a: Position, b: Position)
        requires
            a.inv(),
            b.inv(),
        ensures
            0 <= a.idx() < 64,
            a.idx() == b.idx() ==> a == b,
    {
    }

    /// The corner where White's queen-side rook starts.
    pub fn white_queen_rook() -> (r: Self)
        ensures
            r == Position::at(0, 0),
    {
        Position(0, 0)
    }

    /// The corner where White's king-side rook starts.
    pub fn white_king_rook() -> (r: Self)
        ensures
            r == Position::at(0, 7),
    {
        Position(0, 7)
    }

    /// The corner where Black's queen-side rook starts.
    pub fn black_queen_rook() -> (r: Self)
        ensures
            r == Position::at(7, 0),
    {
        Position(7, 0)
    }

    /// The corner where Black's king-side rook starts.
    pub fn black_king_rook() -> (r: Self)
        ensures
            r == Position::at(7, 7),
    {
        Position(7, 7)
    }

    pub fn new(row: i8, col: i8) -> (r: Option<Self>)
        ensures
            on_board(row as int, col as int) ==> r == Some(Position::at(row as int, col as int)),
            !on_board(row as int, col as int) ==> r.is_none(),
    {
        if 0 <= row && row < 8 && 0 <= col && col < 8 {
            Some(Position(row, col))
        } else {
            None
        }
    }

    /// Same as `new`, for a square known to be on the board.
    pub fn new_assert(row: i8, col: i8) -> (r: Self)
        requires
            on_board(row as int, col as int),
        ensures
            r == Position::at(row as int, col as int),
    {
        Position(row, col)
    }

    #[verifier::when_used_as_spec(spec_row)]
    pub fn row(self) -> (r: i8)
        ensures
            r == self.spec_row(),
            0 <= r < 8,
    {
        proof {
            use_type_invariant(&self);
        }
        self.0
    }

    #[verifier::when_used_as_spec(spec_col)]
    pub fn col(self) -> (r: i8)
        ensures
            r == self.spec_col(),
            0 <= r < 8,
    {
        proof {
            use_type_invariant(&self);
        }
        self.1
    }

    /// The square reached from this one by the step `delta`, if it is on the board.
    pub fn add(self, delta: (i8, i8)) -> (r: Option<Self>)
        ensures
            on_board(self.spec_row() + delta.0, self.spec_col() + delta.1) ==> r == Some(
                Position::at(self.spec_row() + delta.0, self.spec_col() + delta.1),
            ),
            !on_board(self.spec_row() + delta.0, self.spec_col() + delta.1) ==> r.is_none(),
    {
        proof {
            use_type_invariant(&self);
        }
        let row: i16 = self.0 as i16 + delta.0 as i16;
        let col: i16 = self.1 as i16 + delta.1 as i16;
        if 0 <= row && row < 8 && 0 <= col && col < 8 {
            Some(Position(row as i8, col as i8))
        } else {
            None
        }
    }

    /// Returns the index this position would take in a linear board array
    /// i.e. it always lies in 0..64
    pub fn as_usize(self) -> (r: usize)
        ensures
            r == self.idx(),
            r < 64,
    {
        proof {
            use_type_invariant(&self);
        }
        (self.0 * 8 + self.1) as usize
    }
}

} // verus!
