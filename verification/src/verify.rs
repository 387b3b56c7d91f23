use vstd::prelude::*;
use rand::{Rng, SeedableRng};

use crate::commitments::{
    challenge_region, col_seq, commitment_opens, lemma_cloned_commitments, row_seq, subgrid_seq,
    views_of_randomness, Commitment, Randomness, get_column, get_row, get_subgrid,
};
use crate::prover::{digit_permutation, opened_digits, opened_randomness, PermutedCommittedSudoku};
use crate::types::{puzzle_wf, solution_wf, valid_digit, Challenge, ProofError, Statement};

verus! {

/// The number of solutions of a puzzle, counted up to `limit`; a function
/// of the cells and the limit alone.
pub uninterp spec fn solutions_up_to(cells: Seq<u8>, limit: int) -> int;

/// Relies on sudoku's Sudoku::from_bytes_slice and
/// Sudoku::solutions_count_up_to: the solver counts the puzzle's solutions
/// up to `limit`, deterministically from the cells.
#[verifier::external_body]
fn count_solutions(cells: &Vec<u8>, limit: usize) -> (r: usize)
    requires
        puzzle_wf(cells@),
    ensures
        r == solutions_up_to(cells@, limit as int),
{
    match sudoku::Sudoku::from_bytes_slice(cells) {
        Ok(s) => s.solutions_count_up_to(limit),
        Err(_) => 0,
    }
}

/// Relies on rand's Rng::gen_range on a freshly entropy-seeded StdRng: a
/// value drawn uniformly from the range below `bound`.
#[verifier::external_body]
fn random_below(bound: u8) -> (r: u8)
    requires
        bound > 0,
    ensures
        r < bound,
{
    let mut rng = rand::rngs::StdRng::from_entropy();
    rng.gen_range(0..bound)
}

/// Every revealed digit, together with its randomness, hashes to the
/// commitment at its position.
pub open spec fn openings_match(comms: Seq<Commitment>, msgs: Seq<u8>, rnds: Seq<Seq<u8>>) -> bool {
    forall|i: int| 0 <= i < msgs.len() ==> commitment_opens(
        #[trigger] comms[i],
        seq![msgs[i]],
        rnds[i],
    )
}

/// For the givens challenge: every given cell's opening matches its own
/// commitment; empty cells are not checked.
pub open spec fn givens_match(
    stmt: Seq<u8>,
    comms: Seq<Commitment>,
    msgs: Seq<u8>,
    rnds: Seq<Seq<u8>>,
) -> bool {
    forall|i: int| 0 <= i < 81 && stmt[i] != 0 ==> commitment_opens(
        #[trigger] comms[i],
        seq![msgs[i]],
        rnds[i],
    )
}

/// The verifier's acceptance condition: for a region challenge the 9
/// revealed digits are pairwise distinct and all open the challenged
/// region's commitments; for the givens challenge every given cell opens
/// its commitment; anything above 27 is never accepted.
pub open spec fn accepts(
    stmt: Seq<u8>,
    comms: Seq<Commitment>,
    ch: int,
    msgs: Seq<u8>,
    rnds: Seq<Seq<u8>>,
) -> bool {
    if 0 <= ch <= 26 {
        msgs.no_duplicates() && openings_match(challenge_region(ch, comms), msgs, rnds)
    } else if ch == 27 {
        givens_match(stmt, comms, msgs, rnds)
    } else {
        false
    }
}

/// Returns whether the values of `v` are pairwise distinct.
fn distinct_values(v: &Vec<u8>) -> (r: bool)
    ensures
        r == v@.no_duplicates(),
{
    let mut i: usize = 0;
    while i < v.len()
        invariant
            i <= v@.len(),
            forall|a: int, b: int| 0 <= a < i && a < b < v@.len() ==> v@[a] != v@[b],
        decreases v@.len() - i,
    {
        let mut j: usize = i + 1;
        while j < v.len()
            invariant
                i < j <= v@.len(),
                i < v@.len(),
                forall|b: int| i < b < j ==> v@[i as int] != v@[b],
            decreases v@.len() - j,
        {
            if v[i] == v[j] {
                return false;
            }
            j += 1;
        }
        i += 1;
    }
    proof {
        assert forall|a: int, b: int|
            0 <= a < v@.len() && 0 <= b < v@.len() && a != b implies v@[a] != v@[b] by {
            assert(v@[if a < b { a } else { b }] != v@[if a < b { b } else { a }]);
        }
    }
    true
}

/// The Verifier holds the public statement and the commitments received
/// from the Prover.
#[derive(Debug)]
pub struct Verifier {
    statement: Statement,
    commitments: Vec<Commitment>,
}

impl Verifier {
    /// The cells of the public puzzle this verifier checks against.
    pub closed spec fn statement_view(&self) -> Seq<u8> {
        self.statement.cells@
    }

    /// The commitments received from the prover.
    pub closed spec fn commitments_view(&self) -> Seq<Commitment> {
        self.commitments@
    }

    pub open spec fn wf(&self) -> bool {
        puzzle_wf(self.statement_view()) && self.commitments_view().len() == 81
    }

    /// Builds a verifier, first confirming with the puzzle solver that the
    /// statement has exactly one solution; otherwise the proof would be
    /// meaningless and construction fails.
    pub fn new(statement: Statement, commitments: Vec<Commitment>) -> (r: Result<
        Verifier,
        ProofError,
    >)
        requires
            puzzle_wf(statement.cells@),
            commitments@.len() == 81,
        ensures
            r is Ok <==> solutions_up_to(statement.cells@, 1) == 1,
            r matches Ok(v) ==> v.statement_view() == statement.cells@
                && v.commitments_view() == commitments@ && v.wf(),
            r is Err ==> r == Err::<Verifier, ProofError>(ProofError::UnsolvableSudoku),
    {
        if count_solutions(&statement.cells, 1) != 1 {
            return Err(ProofError::UnsolvableSudoku);
        }
        Ok(Verifier { statement, commitments })
    }

    /// Draws one challenge uniformly at random from 0..=27.
    pub fn generate_challenge(&self) -> (c: Challenge)
        ensures
            c.0 <= 27,
    {
        let random_number = random_below(28);
        Challenge(random_number)
    }

    /// Checks a revealed opening against the stored commitments: for a
    /// region challenge the 9 digits must be pairwise distinct and each
    /// must open its commitment; for the givens challenge each given cell
    /// must open its own commitment. Returns the specific reject reason
    /// otherwise.
    pub fn check(&self, challenge: &Challenge, decommitments: &(Vec<u8>, Vec<Randomness>)) -> (r:
        Result<(), ProofError>)
        requires
            self.wf(),
            challenge.0 <= 26 ==> decommitments.0@.len() == 9 && decommitments.1@.len() == 9,
            challenge.0 == 27 ==> decommitments.0@.len() == 81 && decommitments.1@.len() == 81,
        ensures
            r is Ok <==> accepts(
                self.statement_view(),
                self.commitments_view(),
                challenge.0 as int,
                decommitments.0@,
                views_of_randomness(decommitments.1@),
            ),
            challenge.0 <= 26 && !decommitments.0@.no_duplicates() ==> r == Err::<(), ProofError>(
                ProofError::NonUniqueValues,
            ),
            challenge.0 <= 26 && decommitments.0@.no_duplicates() && !openings_match(
                challenge_region(challenge.0 as int, self.commitments_view()),
                decommitments.0@,
                views_of_randomness(decommitments.1@),
            ) ==> r == Err::<(), ProofError>(ProofError::CommitmentMismatch),
            challenge.0 == 27 && !givens_match(
                self.statement_view(),
                self.commitments_view(),
                decommitments.0@,
                views_of_randomness(decommitments.1@),
            ) ==> r == Err::<(), ProofError>(ProofError::CommitmentMismatch),
            challenge.0 > 27 ==> r == Err::<(), ProofError>(ProofError::InvalidChallenge),
    {
        let messages = &decommitments.0;
        let randomness = &decommitments.1;

        if challenge.0 > 27 {
            return Err(ProofError::InvalidChallenge);
        }

        if challenge.0 <= 26 && !distinct_values(messages) {
            return Err(ProofError::NonUniqueValues);
        }

        let ghost ch = challenge.0 as int;
        let ghost rnds = views_of_randomness(randomness@);
        let ghost region = challenge_region(ch, self.commitments_view());

        match challenge.0 {
            0..=8 => {
                let row_index = (challenge.0 as usize) + 1;
                let commitments = get_row(row_index, &self.commitments);
                proof {
                    lemma_cloned_commitments(
                        row_seq(row_index as int, self.commitments@),
                        commitments@,
                    );
                }
                let mut i: usize = 0;
                while i < 9
                    invariant
                        i <= 9,
                        self.wf(),
                        0 <= ch <= 8,
                        ch == challenge.0 as int,
                        region == challenge_region(ch, self.commitments_view()),
                        rnds == views_of_randomness(randomness@),
                        messages@ == decommitments.0@,
                        randomness@ == decommitments.1@,
                        messages@.no_duplicates(),
                        messages@.len() == 9,
                        randomness@.len() == 9,
                        commitments@.len() == 9,
                        forall|k: int| 0 <= k < 9 ==> (#[trigger] commitments@[k])@ == region[k]@,
                        forall|j: int| 0 <= j < i ==> commitment_opens(
                            #[trigger] region[j],
                            seq![messages@[j]],
                            rnds[j],
                        ),
                    decreases 9 - i,
                {
                    let mut m: Vec<u8> = Vec::new();
                    m.push(messages[i]);
                    proof {
                        assert(m@ =~= seq![messages@[i as int]]);
                    }
                    if !commitments[i].verify(&m, &randomness[i]) {
                        proof {
                            assert(rnds[i as int] == randomness@[i as int]@);
                            assert(!commitment_opens(
                                region[i as int],
                                seq![messages@[i as int]],
                                rnds[i as int],
                            ));
                            assert(!openings_match(region, messages@, rnds));
                        }
                        return Err(ProofError::CommitmentMismatch);
                    }
                    i += 1;
                }
                Ok(())
            },
            9..=17 => {
                let col_index = (challenge.0 as usize) - 8;
                let commitments = get_column(col_index, &self.commitments);
                proof {
                    lemma_cloned_commitments(
                        col_seq(col_index as int, self.commitments@),
                        commitments@,
                    );
                }
                let mut i: usize = 0;
                while i < 9
                    invariant
                        i <= 9,
                        self.wf(),
                        9 <= ch <= 17,
                        ch == challenge.0 as int,
                        region == challenge_region(ch, self.commitments_view()),
                        rnds == views_of_randomness(randomness@),
                        messages@ == decommitments.0@,
                        randomness@ == decommitments.1@,
                        messages@.no_duplicates(),
                        messages@.len() == 9,
                        randomness@.len() == 9,
                        commitments@.len() == 9,
                        forall|k: int| 0 <= k < 9 ==> (#[trigger] commitments@[k])@ == region[k]@,
                        forall|j: int| 0 <= j < i ==> commitment_opens(
                            #[trigger] region[j],
                            seq![messages@[j]],
                            rnds[j],
                        ),
                    decreases 9 - i,
                {
                    let mut m: Vec<u8> = Vec::new();
                    m.push(messages[i]);
                    proof {
                        assert(m@ =~= seq![messages@[i as int]]);
                    }
                    if !commitments[i].verify(&m, &randomness[i]) {
                        proof {
                            assert(rnds[i as int] == randomness@[i as int]@);
                            assert(!commitment_opens(
                                region[i as int],
                                seq![messages@[i as int]],
                                rnds[i as int],
                            ));
                            assert(!openings_match(region, messages@, rnds));
                        }
                        return Err(ProofError::CommitmentMismatch);
                    }
                    i += 1;
                }
                Ok(())
            },
            18..=26 => {
                let subgrid_number = (challenge.0 as usize) - 17;
                let commitments = get_subgrid(subgrid_number, &self.commitments);
                proof {
                    lemma_cloned_commitments(
                        subgrid_seq(subgrid_number as int, self.commitments@),
                        commitments@,
                    );
                }
                let mut i: usize = 0;
                while i < 9
                    invariant
                        i <= 9,
                        self.wf(),
                        18 <= ch <= 26,
                        ch == challenge.0 as int,
                        region == challenge_region(ch, self.commitments_view()),
                        rnds == views_of_randomness(randomness@),
                        messages@ == decommitments.0@,
                        randomness@ == decommitments.1@,
                        messages@.no_duplicates(),
                        messages@.len() == 9,
                        randomness@.len() == 9,
                        commitments@.len() == 9,
                        forall|k: int| 0 <= k < 9 ==> (#[trigger] commitments@[k])@ == region[k]@,
                        forall|j: int| 0 <= j < i ==> commitment_opens(
                            #[trigger] region[j],
                            seq![messages@[j]],
                            rnds[j],
                        ),
                    decreases 9 - i,
                {
                    let mut m: Vec<u8> = Vec::new();
                    m.push(messages[i]);
                    proof {
                        assert(m@ =~= seq![messages@[i as int]]);
                    }
                    if !commitments[i].verify(&m, &randomness[i]) {
                        proof {
                            assert(rnds[i as int] == randomness@[i as int]@);
                            assert(!commitment_opens(
                                region[i as int],
                                seq![messages@[i as int]],
                                rnds[i as int],
                            ));
                            assert(!openings_match(region, messages@, rnds));
                        }
                        return Err(ProofError::CommitmentMismatch);
                    }
                    i += 1;
                }
                Ok(())
            },
            27 => {
                let mut i: usize = 0;
                while i < 81
                    invariant
                        i <= 81,
                        self.wf(),
                        ch == 27,
                        challenge.0 == 27,
                        rnds == views_of_randomness(randomness@),
                        messages@ == decommitments.0@,
                        randomness@ == decommitments.1@,
                        messages@.len() == 81,
                        randomness@.len() == 81,
                        forall|j: int| 0 <= j < i && self.statement_view()[j] != 0
                            ==> commitment_opens(
                            #[trigger] self.commitments_view()[j],
                            seq![messages@[j]],
                            rnds[j],
                        ),
                    decreases 81 - i,
                {
                    if self.statement.cells[i] != 0 {
                        let mut m: Vec<u8> = Vec::new();
                        m.push(messages[i]);
                        proof {
                            assert(m@ =~= seq![messages@[i as int]]);
                        }
                        if !self.commitments[i].verify(&m, &randomness[i]) {
                            proof {
                                assert(rnds[i as int] == randomness@[i as int]@);
                                assert(!commitment_opens(
                                    self.commitments_view()[i as int],
                                    seq![messages@[i as int]],
                                    rnds[i as int],
                                ));
                                assert(!givens_match(
                                    self.statement_view(),
                                    self.commitments_view(),
                                    messages@,
                                    rnds,
                                ));
                            }
                            return Err(ProofError::CommitmentMismatch);
                        }
                    }
                    i += 1;
                }
                Ok(())
            },
            _ => Err(ProofError::InvalidChallenge),
        }
    }
}

/// The board index that position `k` of a challenged region names.
pub open spec fn region_cell_index(ch: int, k: int) -> int {
    if ch <= 8 {
        ch * 9 + k
    } else if ch <= 17 {
        k * 9 + (ch - 9)
    } else {
        ((ch - 18) / 3 * 3 + k / 3) * 9 + (ch - 18) % 3 * 3 + k % 3
    }
}

/// Each position of a challenged region names a cell of the 81-cell board,
/// the region reads exactly those cells, and distinct positions name
/// distinct cells.
pub proof fn lemma_region_cells<T>(ch: int, board: Seq<T>)
    requires
        0 <= ch <= 26,
        board.len() == 81,
    ensures
        forall|k: int| 0 <= k < 9 ==> 0 <= #[trigger] region_cell_index(ch, k) < 81,
        forall|k: int| 0 <= k < 9 ==> challenge_region(ch, board)[k] == board[region_cell_index(
            ch,
            k,
        )],
        forall|k: int, l: int|
            0 <= k < 9 && 0 <= l < 9 && k != l ==> #[trigger] region_cell_index(ch, k)
                != #[trigger] region_cell_index(ch, l),
{
    if ch >= 18 {
        assert forall|k: int, l: int|
            0 <= k < 9 && 0 <= l < 9 && k != l implies region_cell_index(ch, k)
            != region_cell_index(ch, l) by {
            assert(k == 3 * (k / 3) + k % 3);
            assert(l == 3 * (l / 3) + l % 3);
        }
    }
}

/// The witness solves the statement: every row, column and subgrid holds
/// pairwise distinct digits, and every given cell agrees with its clue.
pub open spec fn solves(stmt: Seq<u8>, wit: Seq<u8>) -> bool {
    &&& forall|s: int| 1 <= s <= 9 ==> (#[trigger] row_seq(s, wit)).no_duplicates()
    &&& forall|s: int| 1 <= s <= 9 ==> (#[trigger] col_seq(s, wit)).no_duplicates()
    &&& forall|s: int| 1 <= s <= 9 ==> (#[trigger] subgrid_seq(s, wit)).no_duplicates()
    &&& forall|i: int| 0 <= i < 81 && stmt[i] != 0 ==> #[trigger] wit[i] == stmt[i]
}

/// Completeness: an honest prover always convinces the verifier. For any
/// well-formed statement, any witness that solves it, and any challenge in
/// 0..=27, the digits and randomness that the reveal step opens from an
/// honestly committed bundle satisfy the verifier's acceptance condition.
pub proof fn lemma_completeness(
    stmt: Seq<u8>,
    wit: Seq<u8>,
    p: Seq<u8>,
    bundle: PermutedCommittedSudoku,
    ch: int,
)
    requires
        puzzle_wf(stmt),
        solution_wf(wit),
        solves(stmt, wit),
        digit_permutation(p),
        bundle.commits_to(wit, p),
        0 <= ch <= 27,
    ensures
        accepts(
            stmt,
            bundle.commitments@,
            ch,
            opened_digits(stmt, bundle.permuted_sudoku@, ch),
            opened_randomness(bundle.randomness@, ch),
        ),
{
    let pd = bundle.permuted_sudoku@;
    let comms = bundle.commitments@;
    let rnd = bundle.randomness@;
    let msgs = opened_digits(stmt, pd, ch);
    let rnds = opened_randomness(rnd, ch);
    if ch <= 26 {
        lemma_region_cells(ch, pd);
        lemma_region_cells(ch, comms);
        lemma_region_cells(ch, rnd);
        lemma_region_cells(ch, wit);
        let wreg = challenge_region(ch, wit);
        if ch <= 8 {
            assert(row_seq(ch + 1, wit).no_duplicates());
        } else if ch <= 17 {
            assert(col_seq(ch - 8, wit).no_duplicates());
        } else {
            assert(subgrid_seq(ch - 17, wit).no_duplicates());
        }
        assert(wreg.no_duplicates());
        assert(msgs == challenge_region(ch, pd));
        assert forall|k: int, l: int|
            0 <= k < msgs.len() && 0 <= l < msgs.len() && k != l implies msgs[k] != msgs[l] by {
            let ik = region_cell_index(ch, k);
            let il = region_cell_index(ch, l);
            assert(msgs[k] == pd[ik] && msgs[l] == pd[il]);
            assert(wreg[k] == wit[ik] && wreg[l] == wit[il]);
            assert(wit[ik] != wit[il]);
            assert(valid_digit(wit[ik]) && valid_digit(wit[il]));
            assert(pd[ik] == p[wit[ik] - 1] && pd[il] == p[wit[il] - 1]);
            assert(p[wit[ik] - 1] != p[wit[il] - 1]);
        }
        assert(msgs.no_duplicates());
        assert forall|i: int| 0 <= i < msgs.len() implies commitment_opens(
            #[trigger] challenge_region(ch, comms)[i],
            seq![msgs[i]],
            rnds[i],
        ) by {
            let ii = region_cell_index(ch, i);
            assert(challenge_region(ch, comms)[i] == comms[ii]);
            assert(msgs[i] == pd[ii]);
            assert(challenge_region(ch, rnd)[i] == rnd[ii]);
            assert(rnds[i] == rnd[ii]@);
            assert(commitment_opens(comms[ii], seq![pd[ii]], rnd[ii]@));
        }
        assert(openings_match(challenge_region(ch, comms), msgs, rnds));
    } else {
        assert forall|i: int| 0 <= i < 81 && stmt[i] != 0 implies commitment_opens(
            #[trigger] comms[i],
            seq![msgs[i]],
            rnds[i],
        ) by {
            assert(msgs[i] == pd[i]);
            assert(rnds[i] == rnd[i]@);
        }
        assert(givens_match(stmt, comms, msgs, rnds));
    }
}

} // verus!
