use vstd::prelude::*;

verus! {

/// A pair of board coordinates, row then column, that need not name a square:
/// it may also be a step between two squares, and either part may be negative.
#[derive(PartialEq, Eq, Structural, Clone, Copy, Debug)]
pub struct Position(i8, i8);

impl Position {
    pub closed spec fn spec_row(&self) -> i8 {
        self.0
    }

    pub closed spec fn spec_col(&self) -> i8 {
        self.1
    }

    /// The pair `(row, col)` as a value.
    pub closed spec fn pair(row: i8, col: i8) -> Position {
        Position(row, col)
    }

    pub proof fn lemma_pair(row: i8, col: i8)
        ensures
            Position::pair(row, col).spec_row() == row,
            Position::pair(row, col).spec_col() == col,
    {
    }

    pub fn new(row: i8, col: i8) -> (r: Self)
        ensures
            r.spec_row() == row,
            r.spec_col() == col,
    {
        Position(row, col)
    }

    #[verifier::when_used_as_spec(spec_row)]
    pub fn row(&self) -> (r: i8)
        ensures
            r == self.spec_row(),
    {
        self.0
    }

    #[verifier::when_used_as_spec(spec_col)]
    pub fn col(&self) -> (r: i8)
        ensures
            r == self.spec_col(),
    {
        self.1
    }
}

/// Coordinates add part by part; the sums must fit in an `i8`.
impl std::ops::Add for Position {
    type Output = Self;

    fn add(self, other: Self) -> (r: Self) {
        Position(self.0 + other.0, self.1 + other.1)
    }
}

impl vstd::std_specs::ops::AddSpecImpl for Position {
    open spec fn obeys_add_spec() -> bool {
        true
    }

    open spec fn add_req(self, rhs: Self) -> bool {
        &&& i8::MIN <= self.spec_row() + rhs.spec_row() <= i8::MAX
        &&& i8::MIN <= self.spec_col() + rhs.spec_col() <= i8::MAX
    }

    open spec fn add_spec(self, rhs: Self) -> Self {
        Position::pair((self.spec_row() + rhs.spec_row()) as i8, (self.spec_col() + rhs.spec_col()) as i8)
    }
}

/// Coordinates subtract part by part; the differences must fit in an `i8`.
impl std::ops::Sub for Position {
    type Output = Self;

    fn sub(self, other: Self) -> (r: Self) {
        Position(self.0 - other.0, self.1 - other.1)
    }
}

impl vstd::std_specs::ops::SubSpecImpl for Position {
    open spec fn obeys_sub_spec() -> bool {
        true
    }

    open spec fn sub_req(self, rhs: Self) -> bool {
        &&& i8::MIN <= self.spec_row() - rhs.spec_row() <= i8::MAX
        &&& i8::MIN <= self.spec_col() - rhs.spec_col() <= i8::MAX
    }

    open spec fn sub_spec(self, rhs: Self) -> Self {
        Position::pair((self.spec_row() - rhs.spec_row()) as i8, (self.spec_col() - rhs.spec_col()) as i8)
    }
}

} // verus!
