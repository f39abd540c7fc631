//! The prover: the commit phase, which folds a codeword round by round and
//! commits to each layer, then the proof of work, then the answers to the
//! queries.

use vstd::arithmetic::power2::{lemma2_to64, lemma_pow2_pos, lemma_pow2_unfold, pow2};
use vstd::prelude::*;

use crate::config::FriConfig;
use crate::field::ORDER;
use crate::fold::{fold_codeword, foldable, folded, lemma_log2_pow2, log2, log2_exact};
use crate::fri_proof::{all_canonical, check_canonical, CommitPhaseStep, Digest, FriProof, QueryProof};
use crate::merkle::{commit_pairs, committed, merkle_path, merkle_root, open_pair, opens_to, PairTree};
use crate::query_phase::{lemma_halving, MAX_LOG_LEN};
use crate::transcript::{grindable, lemma_sample_indices_len, state, Transcript, TranscriptState};

verus! {

/// Why no proof was made.
#[derive(Clone, Copy, Debug, PartialEq, Eq)]
pub enum ProveError {
    /// The parameters are not usable: no redundancy, no query, or a grinding
    /// difficulty that cannot be asked for.
    InvalidConfiguration,
    /// The codeword is not one the protocol handles: its length is not a
    /// power of two between the blowup factor and `2^MAX_LOG_LEN`, or one of
    /// its values is not a canonical field element.
    InvalidCodeword,
    /// The codeword did not fold down to a constant, so it is not the
    /// evaluation of a polynomial within the degree bound.
    NotLowDegree,
}

/// What the commit phase leaves behind after some rounds.
pub struct CommitPhase {
    /// The commitments to the layers folded so far, first round first.
    pub commits: Seq<Digest>,
    /// The folding challenges drawn so far, first round first.
    pub betas: Seq<u64>,
    /// The codeword and all its folds so far: one more than there were rounds.
    pub layers: Seq<Seq<u64>>,
    /// The state of the transcript.
    pub state: TranscriptState,
}

/// The commit phase after `rounds` rounds, from a transcript in state
/// `start`. A round commits to the last layer, absorbs the commitment, draws
/// the challenge and folds.
pub open spec fn commit_phase(start: TranscriptState, codeword: Seq<u64>, rounds: nat) -> CommitPhase
    decreases rounds,
{
    if rounds == 0 {
        CommitPhase {
            commits: Seq::empty(),
            betas: Seq::empty(),
            layers: seq![codeword],
            state: start,
        }
    } else {
        let before = commit_phase(start, codeword, (rounds - 1) as nat);
        let layer = before.layers.last();
        let root = merkle_root(layer);
        let drawn = before.state.observe_digest(root).sample();
        CommitPhase {
            commits: before.commits.push(root),
            betas: before.betas.push(drawn.0),
            layers: before.layers.push(folded(layer, drawn.0)),
            state: drawn.1,
        }
    }
}

/// Whether a step opens the pair `pair` of `layer` as the prover does: with
/// the two values of the pair and the path of the tree over the layer, which
/// the commitment scheme accepts.
pub open spec fn honest_step(layer: Seq<u64>, pair: nat, step: CommitPhaseStep) -> bool {
    &&& step.lo == layer[2 * pair as int]
    &&& step.hi == layer[2 * pair as int + 1]
    &&& step.opening_proof@ == merkle_path(layer, pair)
    &&& opens_to(
        merkle_root(layer),
        layer.len() / 2,
        pair,
        step.lo,
        step.hi,
        step.opening_proof@,
    )
}

/// Whether a query answer is the prover's answer for position `index` of the
/// first of `layers`, a codeword of length `2^log_len`: one honest step for
/// each layer but the last.
pub open spec fn honest_query(
    layers: Seq<Seq<u64>>,
    log_len: nat,
    index: nat,
    query: QueryProof,
) -> bool {
    &&& query.index == index
    &&& index < pow2(log_len)
    &&& query.steps@.len() == layers.len() - 1
    &&& forall|r: int|
        0 <= r < layers.len() - 1 ==> #[trigger] honest_step(
            layers[r],
            index / pow2((r + 1) as nat),
            query.steps@[r],
        )
}

/// Whether a codeword has a length that the prover handles for this blowup:
/// a power of two from the blowup factor up to `2^MAX_LOG_LEN`.
pub open spec fn provable_length(len: nat, log_blowup: nat) -> bool {
    exists|n: nat| log_blowup <= n <= MAX_LOG_LEN && len == pow2(n)
}

/// Why the prover makes no proof for a codeword, if there is a reason: the
/// parameters first, then the codeword, then the outcome of the commit phase.
pub open spec fn prove_failure(
    num_queries: nat,
    log_blowup: nat,
    pow_bits: nat,
    codeword: Seq<u64>,
    start: TranscriptState,
) -> Option<ProveError> {
    if log_blowup < 1 || num_queries < 1 || !grindable(pow_bits) {
        Some(ProveError::InvalidConfiguration)
    } else if !provable_length(codeword.len(), log_blowup) || !all_canonical(codeword) {
        Some(ProveError::InvalidCodeword)
    } else if !is_constant(
        commit_phase(start, codeword, (log2(codeword.len()) - log_blowup) as nat).layers.last(),
    ) {
        Some(ProveError::NotLowDegree)
    } else {
        None
    }
}

/// Whether `proof` is a proof that the prover makes for `codeword` from a
/// transcript in state `start`, leaving it in state `end`: the commitments of
/// the commit phase, folded down to the length of the blowup factor; the
/// constant that is left as the terminal polynomial; a witness that passes as
/// proof of work once commitments and terminal polynomial are absorbed; and
/// an honest answer for each index drawn after that.
pub open spec fn honest_proof(
    num_queries: nat,
    log_blowup: nat,
    pow_bits: nat,
    codeword: Seq<u64>,
    start: TranscriptState,
    proof: FriProof,
    end: TranscriptState,
) -> bool {
    let log_len = log2(codeword.len());
    let phase = commit_phase(start, codeword, (log_len - log_blowup) as nat);
    let terminal = seq![phase.layers.last()[0]];
    let checked = phase.state.observe_elements(terminal).check_witness(pow_bits, proof.pow_witness);
    let drawn = checked.1.sample_indices(num_queries, log_len);
    &&& proof.commit_phase_commits@ == phase.commits
    &&& proof.final_poly@ == terminal
    &&& proof.pow_witness < ORDER
    &&& checked.0
    &&& proof.query_proofs@.len() == num_queries
    &&& forall|q: int|
        0 <= q < num_queries ==> honest_query(
            phase.layers,
            log_len,
            drawn.0[q] as nat,
            #[trigger] proof.query_proofs@[q],
        )
    &&& end == drawn.1
}

/// The layers held in memory, as sequences.
pub open spec fn layer_views(layers: Seq<Vec<u64>>) -> Seq<Seq<u64>> {
    Seq::new(layers.len(), |i: int| layers[i]@)
}

/// The codewords that the trees held in memory were built over.
pub open spec fn tree_views(trees: Seq<PairTree>) -> Seq<Seq<u64>> {
    Seq::new(trees.len(), |i: int| committed(trees[i]))
}

/// Whether every value of a sequence equals the first.
pub open spec fn is_constant(values: Seq<u64>) -> bool {
    forall|j: int| 0 <= j < values.len() ==> #[trigger] values[j] == values[0]
}

/// After `rounds` rounds on a codeword of length `2^log_len` there are
/// `rounds` commitments and challenges and `rounds + 1` layers, and layer `i`
/// has length `2^(log_len - i)`.
pub proof fn lemma_commit_phase_shape(
    start: TranscriptState,
    codeword: Seq<u64>,
    log_len: nat,
    rounds: nat,
)
    requires
        codeword.len() == pow2(log_len),
        rounds <= log_len,
    ensures
        commit_phase(start, codeword, rounds).commits.len() == rounds,
        commit_phase(start, codeword, rounds).betas.len() == rounds,
        commit_phase(start, codeword, rounds).layers.len() == rounds + 1,
        forall|i: int|
            0 <= i <= rounds ==> (#[trigger] commit_phase(start, codeword, rounds).layers[i]).len()
                == pow2((log_len - i) as nat),
    decreases rounds,
{
    if rounds > 0 {
        let before = commit_phase(start, codeword, (rounds - 1) as nat);
        lemma_commit_phase_shape(start, codeword, log_len, (rounds - 1) as nat);
        lemma_pow2_unfold((log_len - rounds + 1) as nat);
        let after = commit_phase(start, codeword, rounds);
        assert forall|i: int| 0 <= i <= rounds implies (#[trigger] after.layers[i]).len() == pow2(
            (log_len - i) as nat,
        ) by {
            if i < rounds {
                assert(after.layers[i] == before.layers[i]);
            }
        }
    }
}

/// Copies a vector of field elements.
fn copy_values(values: &Vec<u64>) -> (copy: Vec<u64>)
    ensures
        copy@ == values@,
{
    let mut copy: Vec<u64> = Vec::new();
    let mut k: usize = 0;
    while k < values.len()
        invariant
            k <= values@.len(),
            copy@ == values@.take(k as int),
        decreases values@.len() - k,
    {
        copy.push(values[k]);
        assert(values@.take(k + 1) =~= values@.take(k as int).push(values@[k as int]));
        k = k + 1;
    }
    assert(values@.take(k as int) =~= values@);
    copy
}

/// Tells whether every value of a vector equals the first.
pub fn check_constant(values: &Vec<u64>) -> (ok: bool)
    ensures
        ok == is_constant(values@),
{
    let mut k: usize = 1;
    while k < values.len()
        invariant
            1 <= k,
            forall|j: int| 0 <= j < k && j < values@.len() ==> #[trigger] values@[j] == values@[0],
        decreases values@.len() - k,
    {
        if values[k] != values[0] {
            return false;
        }
        k = k + 1;
    }
    true
}

/// Adding a layer in memory adds its view to the views.
pub proof fn lemma_layer_views_push(layers: Seq<Vec<u64>>, next: Vec<u64>)
    ensures
        layer_views(layers.push(next)) == layer_views(layers).push(next@),
{
    assert(layer_views(layers.push(next)) =~= layer_views(layers).push(next@));
}

/// Adding a tree in memory adds the codeword it was built over to the views.
pub proof fn lemma_tree_views_push(trees: Seq<PairTree>, next: PairTree)
    ensures
        tree_views(trees.push(next)) == tree_views(trees).push(committed(next)),
{
    assert(tree_views(trees.push(next)) =~= tree_views(trees).push(committed(next)));
}

/// One round of the commit phase on the layer `layer`: commits to it, absorbs
/// the commitment, draws the challenge and folds. Returns the commitment, the
/// tree and the next layer.
fn commit_round(layer: &Vec<u64>, transcript: &mut Transcript) -> (r: (
    Digest,
    PairTree,
    Vec<u64>,
))
    requires
        foldable(layer@.len()),
    ensures
        r.0 == merkle_root(layer@),
        committed(r.1) == layer@,
        r.2@ == folded(
            layer@,
            state(*old(transcript)).observe_digest(merkle_root(layer@)).sample().0,
        ),
        state(*final(transcript)) == state(*old(transcript)).observe_digest(
            merkle_root(layer@),
        ).sample().1,
{
    proof {
        let k = choose|k: nat| 1 <= k <= 32 && layer@.len() == pow2(k);
        lemma_pow2_unfold(k);
        lemma_pow2_pos((k - 1) as nat);
    }
    let (root, tree) = commit_pairs(layer);
    transcript.observe_digest(&root);
    let beta = transcript.sample_field_element();
    match fold_codeword(layer, beta) {
        Some(next) => (root, tree, next),
        None => {
            assert(false);
            (root, tree, Vec::new())
        },
    }
}

/// Runs `rounds` rounds of the commit phase on a codeword of length
/// `2^log_len`. Returns the commitments, the layers and the trees over all
/// layers but the last.
fn run_commit_phase(
    codeword: &Vec<u64>,
    log_len: usize,
    rounds: usize,
    transcript: &mut Transcript,
) -> (r: (Vec<Digest>, Vec<Vec<u64>>, Vec<PairTree>))
    requires
        codeword@.len() == pow2(log_len as nat),
        rounds <= log_len <= MAX_LOG_LEN,
    ensures
        r.0@ == commit_phase(state(*old(transcript)), codeword@, rounds as nat).commits,
        layer_views(r.1@) == commit_phase(state(*old(transcript)), codeword@, rounds as nat).layers,
        tree_views(r.2@) == commit_phase(
            state(*old(transcript)),
            codeword@,
            rounds as nat,
        ).layers.drop_last(),
        state(*final(transcript)) == commit_phase(
            state(*old(transcript)),
            codeword@,
            rounds as nat,
        ).state,
{
    let ghost start = state(*transcript);
    let mut commits: Vec<Digest> = Vec::new();
    let mut layers: Vec<Vec<u64>> = Vec::new();
    let mut trees: Vec<PairTree> = Vec::new();
    layers.push(copy_values(codeword));
    let mut r: usize = 0;
    assert(layer_views(layers@) =~= commit_phase(start, codeword@, 0).layers);
    assert(tree_views(trees@) =~= commit_phase(start, codeword@, 0).layers.drop_last());
    while r < rounds
        invariant
            r <= rounds <= log_len <= MAX_LOG_LEN,
            codeword@.len() == pow2(log_len as nat),
            commits@ == commit_phase(start, codeword@, r as nat).commits,
            layer_views(layers@) == commit_phase(start, codeword@, r as nat).layers,
            tree_views(trees@) == commit_phase(start, codeword@, r as nat).layers.drop_last(),
            state(*transcript) == commit_phase(start, codeword@, r as nat).state,
        decreases rounds - r,
    {
        let ghost before = commit_phase(start, codeword@, r as nat);
        proof {
            lemma_commit_phase_shape(start, codeword@, log_len as nat, r as nat);
            assert(layers@.len() == r + 1);
            assert(layers@[r as int]@ == layer_views(layers@)[r as int]);
            assert(before.layers.last().len() == pow2((log_len - r) as nat));
            assert(foldable(layers@[r as int]@.len())) by {
                assert(1 <= (log_len - r) as nat <= 32);
            }
        }
        let (root, tree, next) = commit_round(&layers[r], transcript);
        proof {
            lemma_layer_views_push(layers@, next);
            lemma_tree_views_push(trees@, tree);
            assert(before.layers.push(next@).drop_last() =~= before.layers);
            assert(before.layers.drop_last().push(before.layers.last()) =~= before.layers);
        }
        commits.push(root);
        trees.push(tree);
        layers.push(next);
        r = r + 1;
    }
    (commits, layers, trees)
}

/// Answers the query for position `index` of the first layer: for each layer
/// but the last, the pair that the query has come down to, with its path.
fn answer_query(
    layers: &Vec<Vec<u64>>,
    trees: &Vec<PairTree>,
    log_len: usize,
    index: usize,
) -> (query: QueryProof)
    requires
        layers@.len() == trees@.len() + 1,
        trees@.len() <= log_len <= MAX_LOG_LEN,
        tree_views(trees@) == layer_views(layers@).drop_last(),
        forall|i: int|
            0 <= i < layers@.len() ==> (#[trigger] layer_views(layers@)[i]).len() == pow2(
                (log_len - i) as nat,
            ),
        index < pow2(log_len as nat),
    ensures
        honest_query(layer_views(layers@), log_len as nat, index as nat, query),
{
    let rounds = trees.len();
    let mut steps: Vec<CommitPhaseStep> = Vec::new();
    let mut cur: usize = index;
    let mut r: usize = 0;
    proof {
        lemma2_to64();
    }
    while r < rounds
        invariant
            r <= rounds,
            rounds == trees@.len(),
            layers@.len() == rounds + 1,
            rounds <= log_len <= MAX_LOG_LEN,
            tree_views(trees@) == layer_views(layers@).drop_last(),
            forall|i: int|
                0 <= i < layers@.len() ==> (#[trigger] layer_views(layers@)[i]).len() == pow2(
                    (log_len - i) as nat,
                ),
            cur == (index as nat) / pow2(r as nat),
            cur < pow2((log_len - r) as nat),
            steps@.len() == r,
            forall|j: int|
                0 <= j < r ==> #[trigger] honest_step(
                    layer_views(layers@)[j],
                    (index as nat) / pow2((j + 1) as nat),
                    steps@[j],
                ),
        decreases rounds - r,
    {
        proof {
            lemma_halving(index as nat, r as nat);
            lemma_pow2_unfold((log_len - r) as nat);
            assert(layer_views(layers@)[r as int] == layers@[r as int]@);
            assert(tree_views(trees@)[r as int] == committed(trees@[r as int]));
            assert(layer_views(layers@).drop_last()[r as int] == layer_views(layers@)[r as int]);
        }
        let pair = cur / 2;
        let path = open_pair(&trees[r], pair);
        let step = CommitPhaseStep {
            lo: layers[r][2 * pair],
            hi: layers[r][2 * pair + 1],
            opening_proof: path,
        };
        assert(honest_step(layer_views(layers@)[r as int], pair as nat, step));
        steps.push(step);
        cur = pair;
        r = r + 1;
    }
    QueryProof { index, steps }
}

/// Makes a proof that `codeword` is the evaluation of a polynomial of degree
/// below its length over the blowup factor. The codeword is folded down to
/// the length of the blowup factor, where such a polynomial has become a
/// constant; a codeword that does not end there is refused. What stands in
/// the way of a proof is told by [`prove_failure`]; a proof that is made is an
/// [`honest_proof`]. A refusal for the parameters or the codeword leaves the
/// transcript as it was; a refusal after the commit phase leaves it where the
/// commit phase did.
pub fn prove<C: FriConfig>(config: &C, codeword: &Vec<u64>, transcript: &mut Transcript) -> (r:
    Result<FriProof, ProveError>)
    ensures
        match r {
            Ok(proof) => prove_failure(
                config.spec_num_queries(),
                config.spec_log_blowup(),
                config.spec_proof_of_work_bits(),
                codeword@,
                state(*old(transcript)),
            ) is None && honest_proof(
                config.spec_num_queries(),
                config.spec_log_blowup(),
                config.spec_proof_of_work_bits(),
                codeword@,
                state(*old(transcript)),
                proof,
                state(*final(transcript)),
            ),
            Err(e) => prove_failure(
                config.spec_num_queries(),
                config.spec_log_blowup(),
                config.spec_proof_of_work_bits(),
                codeword@,
                state(*old(transcript)),
            ) == Some(e),
        },
        r matches Err(e) ==> e != ProveError::NotLowDegree ==> *final(transcript) == *old(
            transcript,
        ),
        r matches Err(e) ==> e == ProveError::NotLowDegree ==> state(*final(transcript))
            == commit_phase(
            state(*old(transcript)),
            codeword@,
            (log2(codeword@.len()) - config.spec_log_blowup()) as nat,
        ).state,
{
    let num_queries = config.num_queries();
    let log_blowup = config.log_blowup();
    let pow_bits = config.proof_of_work_bits();
    let ghost start = state(*transcript);
    if log_blowup < 1 || num_queries < 1 || !(pow_bits < 64 && pow_bits < usize::BITS as usize) {
        return Err(ProveError::InvalidConfiguration);
    }
    let log_len = match log2_exact(codeword.len()) {
        Some(k) => k,
        None => {
            return Err(ProveError::InvalidCodeword);
        },
    };
    proof {
        lemma_log2_pow2(log_len as nat);
        assert forall|n: nat| codeword@.len() == pow2(n) implies n == log_len by {
            lemma_log2_pow2(n);
        }
    }
    if log_len < log_blowup || log_len > MAX_LOG_LEN || !check_canonical(codeword) {
        return Err(ProveError::InvalidCodeword);
    }
    let rounds = log_len - log_blowup;
    let (commits, layers, trees) = run_commit_phase(codeword, log_len, rounds, transcript);
    let ghost phase = commit_phase(start, codeword@, rounds as nat);
    proof {
        lemma_commit_phase_shape(start, codeword@, log_len as nat, rounds as nat);
        lemma_pow2_pos(log_blowup as nat);
        assert(layer_views(layers@)[rounds as int] == layers@[rounds as int]@);
    }
    if !check_constant(&layers[rounds]) {
        return Err(ProveError::NotLowDegree);
    }
    let mut final_poly: Vec<u64> = Vec::new();
    final_poly.push(layers[rounds][0]);
    assert(final_poly@ =~= seq![phase.layers.last()[0]]);
    transcript.observe_elements(&final_poly);
    let pow_witness = match transcript.grind(pow_bits) {
        Some(w) => w,
        None => {
            assert(false);
            0
        },
    };
    let ghost checked = state(*transcript);
    let query_indices = match transcript.sample_indices(num_queries, log_len) {
        Some(v) => v,
        None => {
            assert(false);
            Vec::new()
        },
    };
    proof {
        lemma_sample_indices_len(checked, num_queries as nat, log_len as nat);
        assert(layer_views(layers@).len() == layers@.len());
        assert(tree_views(trees@).len() == trees@.len());
    }
    let mut query_proofs: Vec<QueryProof> = Vec::new();
    let mut q: usize = 0;
    while q < num_queries
        invariant
            q <= num_queries,
            query_indices@.len() == num_queries,
            layers@.len() == trees@.len() + 1,
            trees@.len() <= log_len <= MAX_LOG_LEN,
            tree_views(trees@) == layer_views(layers@).drop_last(),
            forall|i: int|
                0 <= i < layers@.len() ==> (#[trigger] layer_views(layers@)[i]).len() == pow2(
                    (log_len - i) as nat,
                ),
            forall|j: int|
                0 <= j < query_indices@.len() ==> #[trigger] query_indices@[j] < pow2(
                    log_len as nat,
                ),
            query_proofs@.len() == q,
            forall|j: int|
                0 <= j < q ==> honest_query(
                    layer_views(layers@),
                    log_len as nat,
                    query_indices@[j] as nat,
                    #[trigger] query_proofs@[j],
                ),
        decreases num_queries - q,
    {
        let answer = answer_query(&layers, &trees, log_len, query_indices[q]);
        query_proofs.push(answer);
        q = q + 1;
    }
    Ok(FriProof { commit_phase_commits: commits, final_poly, query_proofs, pow_witness })
}

} // verus!
