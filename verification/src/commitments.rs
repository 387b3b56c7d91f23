use vstd::prelude::*;
use rand::{Rng, SeedableRng};
use sha2::{Digest, Sha256};

verus! {

/// The SHA-256 digest of a byte sequence. The digest is a function of the
/// bytes alone; nothing more is assumed of it, so nothing can be proved
/// about collisions between different inputs.
pub uninterp spec fn sha256_of(bytes: Seq<u8>) -> Seq<u8>;

/// Relies on sha2's Sha256::digest: the 32-byte SHA-256 digest of the
/// input bytes, a function of those bytes alone.
#[verifier::external_body]
fn sha256(bytes: &Vec<u8>) -> (r: Vec<u8>)
    ensures
        r@ == sha256_of(bytes@),
        r@.len() == 32,
{
    Sha256::digest(bytes.as_slice()).to_vec()
}

/// Relies on rand's Rng::fill on a freshly entropy-seeded StdRng: it
/// overwrites the buffer with random bytes and keeps its length.
#[verifier::external_body]
fn fill_random(buf: &mut Vec<u8>)
    ensures
        final(buf)@.len() == old(buf)@.len(),
{
    let mut rng = rand::rngs::StdRng::from_entropy();
    rng.fill(buf.as_mut_slice());
}

/// A hiding, binding commitment to a short message: the SHA-256 digest of
/// the message followed by 64 bytes of fresh randomness.
#[derive(Debug, PartialEq, Eq, Hash)]
pub struct Commitment(pub Vec<u8>);

/// The high-entropy random bytes sampled when a commitment is made;
/// revealing them opens the commitment.
#[derive(Debug)]
pub struct Randomness(pub Vec<u8>);

impl View for Commitment {
    type V = Seq<u8>;

    open spec fn view(&self) -> Seq<u8> {
        self.0@
    }
}

impl View for Randomness {
    type V = Seq<u8>;

    open spec fn view(&self) -> Seq<u8> {
        self.0@
    }
}

/// The commitment `c` opens to message `m` under randomness `r`: its stored
/// digest is exactly the digest of `m` followed by `r`.
pub open spec fn commitment_opens(c: Commitment, m: Seq<u8>, r: Seq<u8>) -> bool {
    c@ == sha256_of(m + r)
}

/// Copies a byte vector element by element.
pub(crate) fn copy_bytes(v: &Vec<u8>) -> (r: Vec<u8>)
    ensures
        r@ == v@,
{
    let mut r: Vec<u8> = Vec::new();
    let mut i: usize = 0;
    while i < v.len()
        invariant
            i <= v@.len(),
            r@ == v@.subrange(0, i as int),
        decreases v@.len() - i,
    {
        r.push(v[i]);
        proof {
            assert(r@ =~= v@.subrange(0, i + 1));
        }
        i += 1;
    }
    proof {
        assert(r@ =~= v@);
    }
    r
}

/// Concatenates two byte vectors.
fn concat_bytes(a: &Vec<u8>, b: &Vec<u8>) -> (r: Vec<u8>)
    ensures
        r@ == a@ + b@,
{
    let mut r = copy_bytes(a);
    let mut i: usize = 0;
    while i < b.len()
        invariant
            i <= b@.len(),
            r@ == a@ + b@.subrange(0, i as int),
        decreases b@.len() - i,
    {
        r.push(b[i]);
        proof {
            assert(r@ =~= a@ + b@.subrange(0, i + 1));
        }
        i += 1;
    }
    proof {
        assert(r@ =~= a@ + b@);
    }
    r
}

/// Compares two byte vectors for equality of their contents.
fn bytes_eq(a: &Vec<u8>, b: &Vec<u8>) -> (r: bool)
    ensures
        r == (a@ == b@),
{
    if a.len() != b.len() {
        return false;
    }
    let mut i: usize = 0;
    while i < a.len()
        invariant
            i <= a@.len(),
            a@.len() == b@.len(),
            forall|j: int| 0 <= j < i ==> a@[j] == b@[j],
        decreases a@.len() - i,
    {
        if a[i] != b[i] {
            return false;
        }
        i += 1;
    }
    proof {
        assert(a@ =~= b@);
    }
    true
}

impl Clone for Commitment {
    fn clone(&self) -> (r: Self)
        ensures
            r@ == self@,
    {
        Commitment(copy_bytes(&self.0))
    }
}

impl Clone for Randomness {
    fn clone(&self) -> (r: Self)
        ensures
            r@ == self@,
    {
        Randomness(copy_bytes(&self.0))
    }
}

impl Commitment {
    /// Commits to `m`: samples 64 fresh random bytes and digests the
    /// message followed by those bytes.
    pub fn new(m: &Vec<u8>) -> (res: (Commitment, Randomness))
        ensures
            res.0@.len() == 32,
            res.1@.len() == 64,
            commitment_opens(res.0, m@, res.1@),
    {
        let mut r: Vec<u8> = Vec::new();
        let mut i: usize = 0;
        while i < 64
            invariant
                i <= 64,
                r@.len() == i,
            decreases 64 - i,
        {
            r.push(0u8);
            i += 1;
        }
        fill_random(&mut r);
        let digest = sha256(&concat_bytes(m, &r));
        (Commitment(digest), Randomness(r))
    }

    /// Recomputes the digest of `m` followed by `r` and compares it with
    /// the stored commitment; true exactly when they agree.
    pub fn verify(&self, m: &Vec<u8>, r: &Randomness) -> (b: bool)
        ensures
            b == commitment_opens(*self, m@, r@),
    {
        let digest = sha256(&concat_bytes(m, &r.0));
        bytes_eq(&self.0, &digest)
    }
}

/// A commitment opens exactly with the message and randomness it was made
/// with: `verify` accepts that pair, and rejects any pair whose recomputed
/// digest differs from the committed one.
pub proof fn lemma_commitment_binding(
    c: Commitment,
    m: Seq<u8>,
    r: Seq<u8>,
    m2: Seq<u8>,
    r2: Seq<u8>,
)
    requires
        commitment_opens(c, m, r),
        sha256_of(m2 + r2) != sha256_of(m + r),
    ensures
        !commitment_opens(c, m2, r2),
{
}

/// Row `r` (1-indexed) of a row-major 81-cell board: the 9 contiguous
/// cells starting at `(r-1)*9`.
pub open spec fn row_seq<T>(r: int, board: Seq<T>) -> Seq<T> {
    Seq::new(9, |k: int| board[(r - 1) * 9 + k])
}

/// Column `c` (1-indexed) of a row-major 81-cell board.
pub open spec fn col_seq<T>(c: int, board: Seq<T>) -> Seq<T> {
    Seq::new(9, |k: int| board[k * 9 + (c - 1)])
}

/// Subgrid `s` (1-indexed) of a row-major 81-cell board, traversed in
/// row-major order within the 3x3 block.
pub open spec fn subgrid_seq<T>(s: int, board: Seq<T>) -> Seq<T> {
    Seq::new(9, |k: int| board[((s - 1) / 3 * 3 + k / 3) * 9 + (s - 1) % 3 * 3 + k % 3])
}

/// The 9 cells of the region a row/column/subgrid challenge names:
/// 0..=8 the row `ch+1`, 9..=17 the column `ch-8`, 18..=26 the subgrid
/// `ch-17`.
pub open spec fn challenge_region<T>(ch: int, board: Seq<T>) -> Seq<T> {
    if ch <= 8 {
        row_seq(ch + 1, board)
    } else if ch <= 17 {
        col_seq(ch - 8, board)
    } else {
        subgrid_seq(ch - 17, board)
    }
}

/// The byte strings held by a sequence of randomness values.
pub open spec fn views_of_randomness(rs: Seq<Randomness>) -> Seq<Seq<u8>> {
    rs.map_values(|r: Randomness| r@)
}

/// Cloned bytes are equal to the originals.
pub proof fn lemma_cloned_bytes(orig: Seq<u8>, out: Seq<u8>)
    requires
        out.len() == orig.len(),
        forall|k: int| 0 <= k < out.len() ==> cloned::<u8>(orig[k], #[trigger] out[k]),
    ensures
        out == orig,
{
    assert(out =~= orig);
}

/// Cloned randomness values hold the same bytes as the originals.
pub proof fn lemma_cloned_randomness(orig: Seq<Randomness>, out: Seq<Randomness>)
    requires
        out.len() == orig.len(),
        forall|k: int| 0 <= k < out.len() ==> cloned::<Randomness>(orig[k], #[trigger] out[k]),
    ensures
        views_of_randomness(out) == views_of_randomness(orig),
{
    assert forall|k: int| 0 <= k < out.len() implies out[k]@ == orig[k]@ by {
        assert(cloned::<Randomness>(orig[k], out[k]));
    }
    assert(views_of_randomness(out) =~= views_of_randomness(orig));
}

/// Cloned commitments hold the same digest bytes as the originals.
pub proof fn lemma_cloned_commitments(orig: Seq<Commitment>, out: Seq<Commitment>)
    requires
        out.len() == orig.len(),
        forall|k: int| 0 <= k < out.len() ==> cloned::<Commitment>(orig[k], #[trigger] out[k]),
    ensures
        forall|k: int| 0 <= k < out.len() ==> (#[trigger] out[k])@ == orig[k]@,
{
    assert forall|k: int| 0 <= k < out.len() implies out[k]@ == orig[k]@ by {
        assert(cloned::<Commitment>(orig[k], out[k]));
    }
}

/// Returns the 9 cells of row `row` (1-indexed) of an 81-cell board.
pub fn get_row<T: Clone>(row: usize, board: &Vec<T>) -> (r: Vec<T>)
    requires
        1 <= row <= 9,
        board@.len() == 81,
    ensures
        r@.len() == 9,
        forall|k: int| 0 <= k < 9 ==> cloned::<T>(row_seq(row as int, board@)[k], #[trigger] r@[k]),
{
    let start = (row - 1) * 9;
    let mut r: Vec<T> = Vec::new();
    let mut k: usize = 0;
    while k < 9
        invariant
            k <= 9,
            1 <= row <= 9,
            start == (row - 1) * 9,
            board@.len() == 81,
            r@.len() == k,
            forall|j: int| 0 <= j < k ==> cloned::<T>(row_seq(row as int, board@)[j], #[trigger] r@[j]),
        decreases 9 - k,
    {
        r.push(board[start + k].clone());
        k += 1;
    }
    r
}

/// Returns the 9 cells of column `column` (1-indexed) of an 81-cell board.
pub fn get_column<T: Clone>(column: usize, board: &Vec<T>) -> (r: Vec<T>)
    requires
        1 <= column <= 9,
        board@.len() == 81,
    ensures
        r@.len() == 9,
        forall|k: int| 0 <= k < 9 ==> cloned::<T>(col_seq(column as int, board@)[k], #[trigger] r@[k]),
{
    let mut r: Vec<T> = Vec::new();
    let mut k: usize = 0;
    while k < 9
        invariant
            k <= 9,
            1 <= column <= 9,
            board@.len() == 81,
            r@.len() == k,
            forall|j: int| 0 <= j < k ==> cloned::<T>(col_seq(column as int, board@)[j], #[trigger] r@[j]),
        decreases 9 - k,
    {
        r.push(board[k * 9 + column - 1].clone());
        k += 1;
    }
    r
}

/// Returns the 9 cells of subgrid `subgrid_number` (1-indexed) of an
/// 81-cell board, in row-major order within the block.
pub fn get_subgrid<T: Clone>(subgrid_number: usize, board: &Vec<T>) -> (r: Vec<T>)
    requires
        1 <= subgrid_number <= 9,
        board@.len() == 81,
    ensures
        r@.len() == 9,
        forall|k: int| 0 <= k < 9 ==> cloned::<T>(
            subgrid_seq(subgrid_number as int, board@)[k],
            #[trigger] r@[k],
        ),
{
    let start_row = (subgrid_number - 1) / 3 * 3;
    let start_col = (subgrid_number - 1) % 3 * 3;
    let mut r: Vec<T> = Vec::new();
    let mut k: usize = 0;
    while k < 9
        invariant
            k <= 9,
            1 <= subgrid_number <= 9,
            start_row == (subgrid_number - 1) / 3 * 3,
            start_col == (subgrid_number - 1) % 3 * 3,
            board@.len() == 81,
            r@.len() == k,
            forall|j: int| 0 <= j < k ==> cloned::<T>(
                subgrid_seq(subgrid_number as int, board@)[j],
                #[trigger] r@[j],
            ),
        decreases 9 - k,
    {
        r.push(board[(start_row + k / 3) * 9 + start_col + k % 3].clone());
        k += 1;
    }
    r
}

} // verus!
