use sudoku_zkp::commitments::{get_column, get_row, get_subgrid, Commitment, Randomness};
use sudoku_zkp::types::{Challenge, ProofError, Statement};
use sudoku_zkp::{Prover, Verifier};

/// A complete valid solution grid, row-major.
fn solved_grid() -> Vec<u8> {
    vec![
        1, 2, 3, 4, 5, 6, 7, 8, 9,
        4, 5, 6, 7, 8, 9, 1, 2, 3,
        7, 8, 9, 1, 2, 3, 4, 5, 6,
        2, 3, 4, 5, 6, 7, 8, 9, 1,
        5, 6, 7, 8, 9, 1, 2, 3, 4,
        8, 9, 1, 2, 3, 4, 5, 6, 7,
        3, 4, 5, 6, 7, 8, 9, 1, 2,
        6, 7, 8, 9, 1, 2, 3, 4, 5,
        9, 1, 2, 3, 4, 5, 6, 7, 8,
    ]
}

/// The solved grid with its first row emptied: a solvable puzzle.
fn puzzle_grid() -> Vec<u8> {
    let mut p = solved_grid();
    for i in 0..9 {
        p[i] = 0;
    }
    p
}

#[test]
fn test_commitment() {
    let message = "My first test message".as_bytes().to_vec();
    let (commitment, randomness) = Commitment::new(&message);

    // verify commitment
    assert!(commitment.verify(&message, &randomness));

    // should not verify - with wrong message
    let corrupted_message = "MY second test message".as_bytes().to_vec();
    assert!(!commitment.verify(&corrupted_message, &randomness));

    // should not verify - with wrong randomness
    let r = Randomness("test_randomness".as_bytes().to_vec());
    assert!(!commitment.verify(&message, &r));
}

#[test]
fn test_get_row() {
    let sudoku = sudoku::Sudoku::generate().to_bytes().to_vec();
    let get_row = get_row(3, &sudoku);
    let third_row: Vec<u8> = sudoku[18..27].to_vec();

    assert!(get_row == third_row);
}

#[test]
fn test_get_column() {
    let sudoku = solved_grid();

    assert_eq!(get_column(2, &sudoku), vec![2, 5, 8, 3, 6, 9, 4, 7, 1]);
}

#[test]
fn test_get_subgrid() {
    let sudoku = solved_grid();

    assert_eq!(get_subgrid(5, &sudoku), vec![5, 6, 7, 8, 9, 1, 2, 3, 4]);
}

#[test]
fn test_prover_verifier() {
    let sudoku = sudoku::Sudoku::generate();
    let solved = sudoku.solution().unwrap();

    let prover = Prover::sudoku_instance(sudoku.to_bytes().to_vec(), solved.to_bytes().to_vec());

    let permuted_committed_sudoku = prover.permute_and_commit();

    let verifier = Verifier::new(
        prover.statement.clone(),
        permuted_committed_sudoku.commitments.clone(),
    )
    .unwrap();

    let challenge = verifier.generate_challenge();

    let proof = prover
        .reveal_cells(&permuted_committed_sudoku, &challenge)
        .unwrap();
    verifier.check(&challenge, &proof).unwrap();
}

#[test]
fn test_commitment_sizes() {
    let message = vec![5u8];
    let (commitment, randomness) = Commitment::new(&message);
    assert_eq!(commitment.0.len(), 32);
    assert_eq!(randomness.0.len(), 64);
}

#[test]
fn test_challenge_boundaries() {
    let puzzle = puzzle_grid();
    let solution = solved_grid();
    let prover = Prover::sudoku_instance(puzzle.clone(), solution.clone());
    let bundle = prover.permute_and_commit();
    let verifier = Verifier::new(
        Statement {
            cells: puzzle.clone(),
        },
        bundle.commitments.clone(),
    )
    .unwrap();

    // row boundaries: 0 names row 1, 8 names row 9
    for (ch, row) in [(0u8, 1usize), (8, 9)] {
        let (digits, _) = prover.reveal_cells(&bundle, &Challenge(ch)).unwrap();
        assert_eq!(digits, get_row(row, &bundle.permuted_sudoku));
        let proof = prover.reveal_cells(&bundle, &Challenge(ch)).unwrap();
        assert!(verifier.check(&Challenge(ch), &proof).is_ok());
    }

    // column boundaries: 9 names column 1, 17 names column 9
    for (ch, col) in [(9u8, 1usize), (17, 9)] {
        let (digits, _) = prover.reveal_cells(&bundle, &Challenge(ch)).unwrap();
        assert_eq!(digits, get_column(col, &bundle.permuted_sudoku));
        let proof = prover.reveal_cells(&bundle, &Challenge(ch)).unwrap();
        assert!(verifier.check(&Challenge(ch), &proof).is_ok());
    }

    // subgrid boundaries: 18 names subgrid 1, 26 names subgrid 9
    for (ch, sg) in [(18u8, 1usize), (26, 9)] {
        let (digits, _) = prover.reveal_cells(&bundle, &Challenge(ch)).unwrap();
        assert_eq!(digits, get_subgrid(sg, &bundle.permuted_sudoku));
        let proof = prover.reveal_cells(&bundle, &Challenge(ch)).unwrap();
        assert!(verifier.check(&Challenge(ch), &proof).is_ok());
    }

    // 27 names the givens check: masked digits, all randomness
    let (digits, randomness) = prover.reveal_cells(&bundle, &Challenge(27)).unwrap();
    assert_eq!(digits.len(), 81);
    assert_eq!(randomness.len(), 81);
    for i in 0..81 {
        if puzzle[i] != 0 {
            assert_eq!(digits[i], bundle.permuted_sudoku[i]);
        } else {
            assert_eq!(digits[i], 0);
        }
    }
    let proof = prover.reveal_cells(&bundle, &Challenge(27)).unwrap();
    assert!(verifier.check(&Challenge(27), &proof).is_ok());

    // anything above 27 is an invalid challenge for both sides
    let reveal_err = prover.reveal_cells(&bundle, &Challenge(28)).unwrap_err();
    assert!(matches!(reveal_err, ProofError::InvalidChallenge));
    let valid_proof = prover.reveal_cells(&bundle, &Challenge(0)).unwrap();
    let check_err = verifier.check(&Challenge(28), &valid_proof).unwrap_err();
    assert!(matches!(check_err, ProofError::InvalidChallenge));

    // the range is decided first: even duplicated digits report InvalidChallenge
    let (mut dup_digits, dup_randomness) = prover.reveal_cells(&bundle, &Challenge(0)).unwrap();
    dup_digits[0] = dup_digits[1];
    let check_err = verifier
        .check(&Challenge(28), &(dup_digits, dup_randomness))
        .unwrap_err();
    assert!(matches!(check_err, ProofError::InvalidChallenge));
}

#[test]
fn test_distinctness_enforcement() {
    let puzzle = puzzle_grid();
    let solution = solved_grid();
    let prover = Prover::sudoku_instance(puzzle.clone(), solution);
    let bundle = prover.permute_and_commit();
    let verifier = Verifier::new(
        Statement { cells: puzzle },
        bundle.commitments.clone(),
    )
    .unwrap();

    let (mut digits, randomness) = prover.reveal_cells(&bundle, &Challenge(4)).unwrap();
    // duplicate a digit: the commitments for the region are still the valid ones
    digits[0] = digits[1];
    let err = verifier
        .check(&Challenge(4), &(digits, randomness))
        .unwrap_err();
    assert!(matches!(err, ProofError::NonUniqueValues));
}

#[test]
fn test_tamper_detection() {
    // the concrete scenario: a random uniquely-solvable puzzle, challenge 0
    let sudoku = sudoku::Sudoku::generate();
    let solved = sudoku.solution().unwrap();
    let prover = Prover::sudoku_instance(sudoku.to_bytes().to_vec(), solved.to_bytes().to_vec());
    let bundle = prover.permute_and_commit();
    let verifier = Verifier::new(prover.statement.clone(), bundle.commitments.clone()).unwrap();

    let (digits, randomness) = prover.reveal_cells(&bundle, &Challenge(0)).unwrap();
    // the first row of the permuted board holds 9 pairwise distinct digits in 1..=9
    assert_eq!(digits.len(), 9);
    for i in 0..9 {
        assert!(1 <= digits[i] && digits[i] <= 9);
        for j in 0..i {
            assert_ne!(digits[i], digits[j]);
        }
    }
    assert!(verifier
        .check(&Challenge(0), &(digits.clone(), randomness.clone()))
        .is_ok());

    // flip one byte of one randomness value: the opening no longer matches
    let mut bad_randomness: Vec<Randomness> = randomness.clone();
    bad_randomness[3].0[10] ^= 0x01;
    let err = verifier
        .check(&Challenge(0), &(digits.clone(), bad_randomness))
        .unwrap_err();
    assert!(matches!(err, ProofError::CommitmentMismatch));

    // replace a digit by one outside 1..=9: still distinct, but no longer opens
    let mut bad_digits = digits.clone();
    bad_digits[2] = 200;
    let err = verifier
        .check(&Challenge(0), &(bad_digits, randomness))
        .unwrap_err();
    assert!(matches!(err, ProofError::CommitmentMismatch));
}

#[test]
fn test_round_independence() {
    let puzzle = puzzle_grid();
    let solution = solved_grid();
    let prover = Prover::sudoku_instance(puzzle, solution.clone());

    let first = prover.permute_and_commit();
    let second = prover.permute_and_commit();

    // fresh randomness: the commitment sets differ
    assert!(first.commitments != second.commitments);
    assert!(first.randomness[0].0 != second.randomness[0].0);

    // fresh permutations: the permuted boards do not both equal the solution
    assert!(first.permuted_sudoku != solution || second.permuted_sudoku != solution);
}

#[test]
fn test_unsolvable_statement() {
    // two equal clues in the first row: no solution exists
    let mut cells = vec![0u8; 81];
    cells[0] = 1;
    cells[1] = 1;
    let dummy_commitments = {
        let solution = solved_grid();
        let prover = Prover::sudoku_instance(puzzle_grid(), solution);
        prover.permute_and_commit().commitments
    };
    let err = Verifier::new(Statement { cells }, dummy_commitments).unwrap_err();
    assert!(matches!(err, ProofError::UnsolvableSudoku));
}

#[test]
fn test_generate_challenge_range() {
    let puzzle = puzzle_grid();
    let solution = solved_grid();
    let prover = Prover::sudoku_instance(puzzle.clone(), solution);
    let bundle = prover.permute_and_commit();
    let verifier = Verifier::new(Statement { cells: puzzle }, bundle.commitments).unwrap();

    for _ in 0..50 {
        let challenge = verifier.generate_challenge();
        assert!(challenge.0 <= 27);
    }
}
