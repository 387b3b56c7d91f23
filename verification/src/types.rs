use vstd::prelude::*;

verus! {

/// The reasons a proof round can fail or be rejected.
#[derive(Debug, PartialEq, Eq)]
pub enum ProofError {
    /// The statement does not have exactly one solution.
    UnsolvableSudoku,
    /// A challenge value outside the protocol's range was used.
    InvalidChallenge,
    /// Revealed digits of a row, column or subgrid are not pairwise distinct.
    NonUniqueValues,
    /// An opened (digit, randomness) pair does not match its commitment.
    CommitmentMismatch,
}

/// A digit of a solved cell lies in the Sudoku range 1..=9.
pub open spec fn valid_digit(d: u8) -> bool {
    1 <= d <= 9
}

/// A public puzzle grid: 81 cells in row-major order, each either 0 (empty)
/// or a clue digit in 1..=9.
pub open spec fn puzzle_wf(cells: Seq<u8>) -> bool {
    cells.len() == 81 && forall|i: int| 0 <= i < 81 ==> #[trigger] cells[i] <= 9
}

/// A complete solution grid: 81 cells in row-major order, each a digit in
/// 1..=9.
pub open spec fn solution_wf(cells: Seq<u8>) -> bool {
    cells.len() == 81 && forall|i: int| 0 <= i < 81 ==> valid_digit(#[trigger] cells[i])
}

/// The public puzzle: the statement the Prover claims to know a solution
/// of. Cells are row-major, 0 for empty cells, 1..=9 for clues.
#[derive(Debug)]
pub struct Statement {
    pub cells: Vec<u8>,
}

impl Statement {
    pub open spec fn wf(&self) -> bool {
        puzzle_wf(self.cells@)
    }
}

impl Clone for Statement {
    fn clone(&self) -> (r: Self)
        ensures
            r.cells@ == self.cells@,
    {
        Statement { cells: crate::commitments::copy_bytes(&self.cells) }
    }
}

/// The complete solution the Prover holds; never transmitted.
#[derive(Debug)]
pub struct Witness {
    pub cells: Vec<u8>,
}

impl Witness {
    pub open spec fn wf(&self) -> bool {
        solution_wf(self.cells@)
    }
}

/// A single challenge value. 0..=8 select a row, 9..=17 a column, 18..=26 a
/// subgrid, 27 the givens-consistency check; anything larger is invalid.
#[derive(Debug)]
pub struct Challenge(pub u8);

} // verus!
