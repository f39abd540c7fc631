//! The vector commitment of the commit phase: a binary Merkle tree over
//! Keccak-256 whose leaves are the pairs of a codeword.
//!
//! The tree itself is `p3_merkle_tree::MerkleTreeMmcs`; this module only hands
//! plain values to it and takes plain values back. What is assumed of each
//! call is written on it.

use p3_commit::{BatchOpeningRef, Mmcs};
use p3_goldilocks::Goldilocks;
use p3_keccak::Keccak256Hash;
use p3_matrix::dense::DenseMatrix;
use p3_matrix::Dimensions;
use p3_merkle_tree::{MerkleTree, MerkleTreeMmcs};
use p3_symmetric::{CompressionFunctionFromHasher, MerkleCap, SerializingHasher};
use vstd::prelude::*;

verus! {

/// `p3_goldilocks::Goldilocks`, a field element. Nothing is assumed of it;
/// it only names the leaves of a tree.
#[verifier::external_type_specification]
#[verifier::external_body]
pub struct ExGoldilocks(Goldilocks);

/// `p3_matrix::dense::DenseMatrix`, the matrix a tree is built over. Nothing
/// is assumed of it; it only names the leaves of a tree.
#[verifier::external_type_specification]
#[verifier::external_body]
#[verifier::reject_recursive_types(T)]
#[verifier::reject_recursive_types(V)]
pub struct ExDenseMatrix<T, V>(DenseMatrix<T, V>);

/// `p3_merkle_tree::MerkleTree`, the prover's side of a commitment. It is
/// carried from the call that commits to the calls that open.
#[verifier::external_type_specification]
#[verifier::external_body]
#[verifier::reject_recursive_types(F)]
#[verifier::reject_recursive_types(W)]
#[verifier::reject_recursive_types(M)]
pub struct ExMerkleTree<F, W, M, const N: usize, const DIGEST_ELEMS: usize>(
    MerkleTree<F, W, M, N, DIGEST_ELEMS>,
);

/// The prover's side of one commitment: the tree over the pairs of a codeword.
pub type PairTree = MerkleTree<Goldilocks, u8, DenseMatrix<Goldilocks, Vec<Goldilocks>>, 2, 32>;

/// The codeword that a tree was built over.
pub uninterp spec fn committed(tree: PairTree) -> Seq<u64>;

/// The root of the tree over the pairs of `codeword`.
pub uninterp spec fn merkle_root(codeword: Seq<u64>) -> [u8; 32];

/// The authentication path of the pair `row` in the tree over the pairs of `codeword`.
pub uninterp spec fn merkle_path(codeword: Seq<u64>, row: nat) -> Seq<[u8; 32]>;

/// Whether `path` authenticates `(lo, hi)` as the pair `row` of a tree of
/// `height` pairs with root `root`.
pub uninterp spec fn opens_to(
    root: [u8; 32],
    height: nat,
    row: nat,
    lo: u64,
    hi: u64,
    path: Seq<[u8; 32]>,
) -> bool;

/// Calls `Mmcs::commit_matrix` of the Keccak Merkle tree on the codeword laid
/// out as a matrix of width two. Assumed: root and tree are functions of the
/// codeword alone.
#[verifier::external_body]
pub(crate) fn commit_pairs(codeword: &Vec<u64>) -> (r: ([u8; 32], PairTree))
    requires
        codeword@.len() >= 2,
        codeword@.len() % 2 == 0,
    ensures
        r.0 == merkle_root(codeword@),
        committed(r.1) == codeword@,
{
    let mmcs = MerkleTreeMmcs::<Goldilocks, u8, _, _, 2, 32>::new(
        SerializingHasher::new(Keccak256Hash),
        CompressionFunctionFromHasher::<_, 2, 32>::new(Keccak256Hash),
        0,
    );
    let values: Vec<Goldilocks> = codeword.iter().map(|v| Goldilocks::new(*v)).collect();
    let (cap, tree) = mmcs.commit_matrix(DenseMatrix::new(values, 2));
    (cap.roots()[0], tree)
}

/// Calls `Mmcs::open_batch` of the Keccak Merkle tree, which panics on a row
/// beyond the tree. Assumed: the path is a function of the committed codeword
/// and the row, and it is a proof of correctness of the opened row: one that
/// `Mmcs::verify_batch` accepts for this row against the root of the tree.
#[verifier::external_body]
pub(crate) fn open_pair(tree: &PairTree, row: usize) -> (path: Vec<[u8; 32]>)
    requires
        2 * row + 1 < committed(*tree).len(),
    ensures
        path@ == merkle_path(committed(*tree), row as nat),
        opens_to(
            merkle_root(committed(*tree)),
            committed(*tree).len() / 2,
            row as nat,
            committed(*tree)[2 * row as int],
            committed(*tree)[2 * row as int + 1],
            path@,
        ),
{
    let mmcs = MerkleTreeMmcs::<Goldilocks, u8, _, _, 2, 32>::new(
        SerializingHasher::new(Keccak256Hash),
        CompressionFunctionFromHasher::<_, 2, 32>::new(Keccak256Hash),
        0,
    );
    mmcs.open_batch(row, tree).unpack().1
}

/// Calls `Mmcs::verify_batch` of the Keccak Merkle tree for one matrix of width
/// two and the given height. Assumed: the outcome is a function of the
/// arguments alone, and every malformed input is an error, not a panic.
#[verifier::external_body]
pub(crate) fn verify_pair(
    root: &[u8; 32],
    height: usize,
    row: usize,
    lo: u64,
    hi: u64,
    path: &Vec<[u8; 32]>,
) -> (ok: bool)
    requires
        height <= 0x8000_0000,
    ensures
        ok == opens_to(*root, height as nat, row as nat, lo, hi, path@),
{
    let mmcs = MerkleTreeMmcs::<Goldilocks, u8, _, _, 2, 32>::new(
        SerializingHasher::new(Keccak256Hash),
        CompressionFunctionFromHasher::<_, 2, 32>::new(Keccak256Hash),
        0,
    );
    let cap = MerkleCap::new(vec![*root]);
    let rows = [vec![Goldilocks::new(lo), Goldilocks::new(hi)]];
    let dims = [Dimensions { width: 2, height }];
    mmcs.verify_batch(&cap, &dims, row, BatchOpeningRef::new(&rows, path)).is_ok()
}

} // verus!
