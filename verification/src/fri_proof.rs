//! The proof object: what the prover sends and the verifier reads.

use vstd::prelude::*;

use crate::field::ORDER;

verus! {

/// A commitment: the root of a Merkle tree.
pub type Digest = [u8; 32];

/// One round of one query: the two sibling evaluations that the round folds,
/// and the path that authenticates them against the round's commitment.
#[derive(Clone, Debug, PartialEq, Eq)]
pub struct CommitPhaseStep {
    /// The evaluation at the even position of the pair.
    pub lo: u64,
    /// The evaluation at the odd position of the pair.
    pub hi: u64,
    /// The authentication path of the pair.
    pub opening_proof: Vec<Digest>,
}

/// The answer to one query: the queried index and one step for each round.
#[derive(Clone, Debug, PartialEq, Eq)]
pub struct QueryProof {
    /// The queried position in the first codeword.
    pub index: usize,
    /// The openings, first round first.
    pub steps: Vec<CommitPhaseStep>,
}

/// A FRI proof.
#[derive(Clone, Debug, PartialEq, Eq)]
pub struct FriProof {
    /// The commitments to the codewords of the commit phase, first round first.
    pub commit_phase_commits: Vec<Digest>,
    /// The coefficients of the terminal polynomial, constant term first.
    pub final_poly: Vec<u64>,
    /// The answers to the queries, in the order the indices were drawn.
    pub query_proofs: Vec<QueryProof>,
    /// The proof-of-work witness.
    pub pow_witness: u64,
}

/// The verifier's randomness: one folding challenge for each round and one
/// index for each query.
#[derive(Clone, Debug, PartialEq, Eq)]
pub struct FriChallenges {
    /// The folding challenges, first round first.
    pub betas: Vec<u64>,
    /// The queried positions in the first codeword.
    pub query_indices: Vec<usize>,
}

/// One round of one query as contracts see it, a digest being its 32 bytes.
pub struct StepView {
    pub lo: u64,
    pub hi: u64,
    pub path: Seq<Seq<u8>>,
}

/// The answer to one query as contracts see it.
pub struct QueryView {
    pub index: usize,
    pub steps: Seq<StepView>,
}

/// A proof as contracts see it.
pub struct ProofView {
    pub commits: Seq<Seq<u8>>,
    pub final_poly: Seq<u64>,
    pub queries: Seq<QueryView>,
    pub pow_witness: u64,
}

/// The digests of a sequence, each as its 32 bytes.
pub open spec fn digest_views(digests: Seq<Digest>) -> Seq<Seq<u8>> {
    Seq::new(digests.len(), |i: int| digests[i]@)
}

/// The steps of a sequence, each as contracts see it.
pub open spec fn step_views(steps: Seq<CommitPhaseStep>) -> Seq<StepView> {
    Seq::new(steps.len(), |i: int| steps[i]@)
}

/// The query answers of a sequence, each as contracts see it.
pub open spec fn query_views(queries: Seq<QueryProof>) -> Seq<QueryView> {
    Seq::new(queries.len(), |i: int| queries[i]@)
}

impl View for CommitPhaseStep {
    type V = StepView;

    open spec fn view(&self) -> StepView {
        StepView { lo: self.lo, hi: self.hi, path: digest_views(self.opening_proof@) }
    }
}

impl View for QueryProof {
    type V = QueryView;

    open spec fn view(&self) -> QueryView {
        QueryView { index: self.index, steps: step_views(self.steps@) }
    }
}

impl View for FriProof {
    type V = ProofView;

    open spec fn view(&self) -> ProofView {
        ProofView {
            commits: digest_views(self.commit_phase_commits@),
            final_poly: self.final_poly@,
            queries: query_views(self.query_proofs@),
            pow_witness: self.pow_witness,
        }
    }
}

/// Whether every value of a sequence is a canonical field element.
pub open spec fn all_canonical(values: Seq<u64>) -> bool {
    forall|k: int| 0 <= k < values.len() ==> #[trigger] values[k] < ORDER
}

/// Whether a query answer has one step for each of `rounds` rounds, each made
/// of canonical field elements.
pub open spec fn query_well_formed(query: QueryProof, rounds: nat) -> bool {
    &&& query.steps@.len() == rounds
    &&& forall|r: int|
        0 <= r < rounds ==> (#[trigger] query.steps@[r]).lo < ORDER && query.steps@[r].hi < ORDER
}

/// Whether a proof has the shape that `num_queries` queries ask for: one
/// answer for each query, one step for each commitment in each answer, and
/// canonical field elements throughout.
pub open spec fn well_formed(proof: FriProof, num_queries: nat) -> bool {
    &&& proof.query_proofs@.len() == num_queries
    &&& forall|q: int|
        0 <= q < num_queries ==> query_well_formed(
            #[trigger] proof.query_proofs@[q],
            proof.commit_phase_commits@.len(),
        )
    &&& all_canonical(proof.final_poly@)
    &&& proof.pow_witness < ORDER
}

/// Tells whether every value of a vector is a canonical field element.
pub fn check_canonical(values: &Vec<u64>) -> (ok: bool)
    ensures
        ok == all_canonical(values@),
{
    let mut k: usize = 0;
    while k < values.len()
        invariant
            k <= values@.len(),
            forall|j: int| 0 <= j < k ==> #[trigger] values@[j] < ORDER,
        decreases values@.len() - k,
    {
        if values[k] >= ORDER {
            return false;
        }
        k = k + 1;
    }
    true
}

/// Tells whether a query answer has the shape that `rounds` rounds ask for.
pub fn check_query_shape(query: &QueryProof, rounds: usize) -> (ok: bool)
    ensures
        ok == query_well_formed(*query, rounds as nat),
{
    if query.steps.len() != rounds {
        return false;
    }
    let mut r: usize = 0;
    while r < rounds
        invariant
            r <= rounds,
            query.steps@.len() == rounds,
            forall|j: int|
                0 <= j < r ==> (#[trigger] query.steps@[j]).lo < ORDER && query.steps@[j].hi
                    < ORDER,
        decreases rounds - r,
    {
        if query.steps[r].lo >= ORDER || query.steps[r].hi >= ORDER {
            return false;
        }
        r = r + 1;
    }
    true
}

/// Tells whether a proof has the shape that `num_queries` queries ask for.
pub fn check_shape(proof: &FriProof, num_queries: usize) -> (ok: bool)
    ensures
        ok == well_formed(*proof, num_queries as nat),
{
    if proof.query_proofs.len() != num_queries {
        return false;
    }
    let rounds = proof.commit_phase_commits.len();
    let mut q: usize = 0;
    while q < num_queries
        invariant
            q <= num_queries,
            proof.query_proofs@.len() == num_queries,
            rounds == proof.commit_phase_commits@.len(),
            forall|j: int|
                0 <= j < q ==> query_well_formed(#[trigger] proof.query_proofs@[j], rounds as nat),
        decreases num_queries - q,
    {
        if !check_query_shape(&proof.query_proofs[q], rounds) {
            return false;
        }
        q = q + 1;
    }
    check_canonical(&proof.final_poly) && proof.pow_witness < ORDER
}

} // verus!
