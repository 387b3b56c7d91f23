use vstd::prelude::*;
use rand::seq::SliceRandom;

use crate::commitments::{
    challenge_region, commitment_opens, lemma_cloned_bytes, lemma_cloned_randomness,
    views_of_randomness, Commitment, Randomness, get_column, get_row, get_subgrid,
};
use crate::types::{valid_digit, puzzle_wf, solution_wf, Challenge, ProofError, Statement, Witness};

verus! {

/// A bijection on the digits 1..=9: nine pairwise distinct digits.
pub open spec fn digit_permutation(p: Seq<u8>) -> bool {
    &&& p.len() == 9
    &&& forall|k: int| 0 <= k < 9 ==> valid_digit(#[trigger] p[k])
    &&& p.no_duplicates()
}

/// Relies on rand's SliceRandom::shuffle with the thread-local generator:
/// it reorders the slice in place, so the multiset of its elements is kept.
#[verifier::external_body]
fn shuffle_digits(v: &mut Vec<u8>)
    ensures
        final(v)@.to_multiset() == old(v)@.to_multiset(),
{
    let mut rng = rand::thread_rng();
    v.shuffle(&mut rng);
}

/// Samples a fresh uniformly random permutation of the digits 1..=9.
fn fresh_permutation() -> (p: Vec<u8>)
    ensures
        digit_permutation(p@),
{
    let mut p: Vec<u8> = Vec::new();
    let mut d: u8 = 1;
    while d <= 9
        invariant
            1 <= d <= 10,
            p@.len() == d - 1,
            forall|k: int| 0 <= k < p@.len() ==> #[trigger] p@[k] == k + 1,
        decreases 10 - d,
    {
        p.push(d);
        d += 1;
    }
    let ghost id = p@;
    proof {
        assert(id.no_duplicates());
    }
    shuffle_digits(&mut p);
    proof {
        broadcast use vstd::seq_lib::group_to_multiset_ensures;

        id.lemma_multiset_has_no_duplicates();
        p@.lemma_multiset_has_no_duplicates_conv();
        assert forall|k: int| 0 <= k < p@.len() implies valid_digit(p@[k]) by {
            assert(p@.contains(p@[k]));
            assert(p@.to_multiset().count(p@[k]) > 0);
            assert(id.to_multiset().count(p@[k]) > 0);
            assert(id.contains(p@[k]));
            let j = choose|j: int| 0 <= j < id.len() && id[j] == p@[k];
            assert(id[j] == j + 1);
        }
        assert(p@.len() == p@.to_multiset().len());
        assert(id.len() == id.to_multiset().len());
    }
    p
}

/// The bundle the Prover produces in the commit phase: one commitment, one
/// randomness value and one permuted plaintext digit per cell, in parallel
/// row-major order.
pub struct PermutedCommittedSudoku {
    pub commitments: Vec<Commitment>,
    pub randomness: Vec<Randomness>,
    pub permuted_sudoku: Vec<u8>,
}

impl PermutedCommittedSudoku {
    /// The bundle is what an honest commit phase produces from the solution
    /// `wit` under the digit permutation `p`: each cell's digit is relabeled
    /// through `p` and committed under its own fresh 64-byte randomness.
    pub open spec fn commits_to(&self, wit: Seq<u8>, p: Seq<u8>) -> bool {
        &&& self.commitments@.len() == 81
        &&& self.randomness@.len() == 81
        &&& self.permuted_sudoku@.len() == 81
        &&& forall|i: int| 0 <= i < 81 ==> #[trigger] self.permuted_sudoku@[i] == p[wit[i] - 1]
        &&& forall|i: int| 0 <= i < 81 ==> (#[trigger] self.randomness@[i])@.len() == 64
        &&& forall|i: int| 0 <= i < 81 ==> commitment_opens(
            #[trigger] self.commitments@[i],
            seq![self.permuted_sudoku@[i]],
            self.randomness@[i]@,
        )
    }
}

/// The digits an honest reveal step returns for a challenge: the challenged
/// region of the permuted board, or, for the givens challenge, all 81 cells
/// with every non-given cell masked by the sentinel 0.
pub open spec fn opened_digits(stmt: Seq<u8>, permuted: Seq<u8>, ch: int) -> Seq<u8> {
    if ch <= 26 {
        challenge_region(ch, permuted)
    } else {
        Seq::new(81, |i: int| if stmt[i] != 0 { permuted[i] } else { 0u8 })
    }
}

/// The randomness an honest reveal step returns for a challenge: the
/// challenged region's randomness, or all 81 values for the givens
/// challenge.
pub open spec fn opened_randomness(rnds: Seq<Randomness>, ch: int) -> Seq<Seq<u8>> {
    if ch <= 26 {
        views_of_randomness(challenge_region(ch, rnds))
    } else {
        views_of_randomness(rnds)
    }
}

/// The Prover holds the public statement and the secret witness.
pub struct Prover {
    pub witness: Witness,
    pub statement: Statement,
}

impl Prover {
    /// The solution grid this prover holds.
    pub open spec fn witness_view(&self) -> Seq<u8> {
        self.witness.cells@
    }

    pub open spec fn wf(&self) -> bool {
        solution_wf(self.witness_view()) && puzzle_wf(self.statement.cells@)
    }

    /// Builds a prover from the public puzzle and its complete solution,
    /// both as 81 row-major cells.
    pub fn sudoku_instance(sudoku: Vec<u8>, solution: Vec<u8>) -> (p: Prover)
        requires
            puzzle_wf(sudoku@),
            solution_wf(solution@),
        ensures
            p.statement.cells@ == sudoku@,
            p.witness_view() == solution@,
            p.wf(),
    {
        Prover { statement: Statement { cells: sudoku }, witness: Witness { cells: solution } }
    }

    /// Samples a fresh digit permutation, relabels every solution digit
    /// through it, and commits to each relabeled digit under fresh
    /// randomness. The permutation is discarded; each call draws a new one.
    pub fn permute_and_commit(&self) -> (b: PermutedCommittedSudoku)
        requires
            self.wf(),
        ensures
            exists|p: Seq<u8>| digit_permutation(p) && b.commits_to(self.witness_view(), p),
    {
        let permutation = fresh_permutation();

        let mut commitments: Vec<Commitment> = Vec::new();
        let mut randomness: Vec<Randomness> = Vec::new();
        let mut permuted_values: Vec<u8> = Vec::new();
        let mut idx: usize = 0;
        while idx < 81
            invariant
                self.wf(),
                digit_permutation(permutation@),
                idx <= 81,
                commitments@.len() == idx,
                randomness@.len() == idx,
                permuted_values@.len() == idx,
                forall|j: int| 0 <= j < idx ==> #[trigger] permuted_values@[j]
                    == permutation@[self.witness_view()[j] - 1],
                forall|j: int| 0 <= j < idx ==> (#[trigger] randomness@[j])@.len() == 64,
                forall|j: int| 0 <= j < idx ==> commitment_opens(
                    #[trigger] commitments@[j],
                    seq![permuted_values@[j]],
                    randomness@[j]@,
                ),
            decreases 81 - idx,
        {
            let value = self.witness.cells[idx];
            let permuted_val = permutation[(value - 1) as usize];
            let mut message: Vec<u8> = Vec::new();
            message.push(permuted_val);
            proof {
                assert(message@ =~= seq![permuted_val]);
            }
            let (commitment, random) = Commitment::new(&message);
            commitments.push(commitment);
            randomness.push(random);
            permuted_values.push(permuted_val);
            idx += 1;
        }

        let b = PermutedCommittedSudoku { commitments, randomness, permuted_sudoku: permuted_values };
        proof {
            assert(digit_permutation(permutation@) && b.commits_to(self.witness_view(), permutation@));
        }
        b
    }

    /// Opens the bundle for a challenge: the 9 permuted digits and matching
    /// randomness of the challenged row, column or subgrid; or, for the
    /// givens challenge, every cell's randomness with the digits of
    /// non-given cells masked by 0. Fails only on a challenge above 27.
    pub fn reveal_cells(
        &self,
        permuted_sudoku: &PermutedCommittedSudoku,
        challenge: &Challenge,
    ) -> (r: Result<(Vec<u8>, Vec<Randomness>), ProofError>)
        requires
            self.statement.cells@.len() == 81,
            permuted_sudoku.permuted_sudoku@.len() == 81,
            permuted_sudoku.randomness@.len() == 81,
        ensures
            challenge.0 <= 27 ==> (r matches Ok(o)
                && o.0@ == opened_digits(
                    self.statement.cells@,
                    permuted_sudoku.permuted_sudoku@,
                    challenge.0 as int,
                )
                && views_of_randomness(o.1@) == opened_randomness(
                    permuted_sudoku.randomness@,
                    challenge.0 as int,
                )),
            challenge.0 > 27 ==> r == Err::<(Vec<u8>, Vec<Randomness>), ProofError>(
                ProofError::InvalidChallenge,
            ),
    {
        let ghost ch = challenge.0 as int;
        match challenge.0 {
            0..=8 => {
                let row_index = (challenge.0 as usize) + 1;
                let row = get_row(row_index, &permuted_sudoku.permuted_sudoku);
                let random_values = get_row(row_index, &permuted_sudoku.randomness);
                proof {
                    lemma_cloned_bytes(
                        crate::commitments::row_seq(row_index as int, permuted_sudoku.permuted_sudoku@),
                        row@,
                    );
                    lemma_cloned_randomness(
                        crate::commitments::row_seq(row_index as int, permuted_sudoku.randomness@),
                        random_values@,
                    );
                }
                Ok((row, random_values))
            },
            9..=17 => {
                let col_index = (challenge.0 as usize) - 8;
                let column = get_column(col_index, &permuted_sudoku.permuted_sudoku);
                let random_values = get_column(col_index, &permuted_sudoku.randomness);
                proof {
                    lemma_cloned_bytes(
                        crate::commitments::col_seq(col_index as int, permuted_sudoku.permuted_sudoku@),
                        column@,
                    );
                    lemma_cloned_randomness(
                        crate::commitments::col_seq(col_index as int, permuted_sudoku.randomness@),
                        random_values@,
                    );
                }
                Ok((column, random_values))
            },
            18..=26 => {
                let subgrid_number = (challenge.0 as usize) - 17;
                let subgrid = get_subgrid(subgrid_number, &permuted_sudoku.permuted_sudoku);
                let random_values = get_subgrid(subgrid_number, &permuted_sudoku.randomness);
                proof {
                    lemma_cloned_bytes(
                        crate::commitments::subgrid_seq(
                            subgrid_number as int,
                            permuted_sudoku.permuted_sudoku@,
                        ),
                        subgrid@,
                    );
                    lemma_cloned_randomness(
                        crate::commitments::subgrid_seq(
                            subgrid_number as int,
                            permuted_sudoku.randomness@,
                        ),
                        random_values@,
                    );
                }
                Ok((subgrid, random_values))
            },
            27 => {
                let mut known_values: Vec<u8> = Vec::new();
                let mut random_values: Vec<Randomness> = Vec::new();
                let mut i: usize = 0;
                while i < 81
                    invariant
                        i <= 81,
                        self.statement.cells@.len() == 81,
                        permuted_sudoku.permuted_sudoku@.len() == 81,
                        permuted_sudoku.randomness@.len() == 81,
                        known_values@.len() == i,
                        random_values@.len() == i,
                        forall|j: int| 0 <= j < i ==> #[trigger] known_values@[j] == (
                        if self.statement.cells@[j] != 0 {
                            permuted_sudoku.permuted_sudoku@[j]
                        } else {
                            0u8
                        }),
                        forall|j: int| 0 <= j < i ==> (#[trigger] random_values@[j])@
                            == permuted_sudoku.randomness@[j]@,
                    decreases 81 - i,
                {
                    if self.statement.cells[i] != 0 {
                        known_values.push(permuted_sudoku.permuted_sudoku[i]);
                    } else {
                        known_values.push(0);
                    }
                    random_values.push(permuted_sudoku.randomness[i].clone());
                    i += 1;
                }
                proof {
                    assert(known_values@ =~= opened_digits(
                        self.statement.cells@,
                        permuted_sudoku.permuted_sudoku@,
                        ch,
                    ));
                    assert(views_of_randomness(random_values@) =~= views_of_randomness(
                        permuted_sudoku.randomness@,
                    ));
                }
                Ok((known_values, random_values))
            },
            _ => Err(ProofError::InvalidChallenge),
        }
    }
}

} // verus!
