//! The query phase as the verifier sees it: with the challenges in hand, replay
//! the folding of every query and check each opening on the way.

use vstd::arithmetic::div_mod::lemma_div_denominator;
use vstd::arithmetic::power2::{lemma2_to64, lemma_pow2_pos, lemma_pow2_strictly_increases, lemma_pow2_unfold, pow2};
use vstd::prelude::*;

use crate::config::{parameters_valid, FriConfig};
use crate::fold::{
    domain_pair_inverse,
    domain_point,
    eval_poly,
    fold_pair,
    fold_value,
    pair_point_inverse,
    point,
    poly_eval,
    pow2_usize,
};
use crate::fri_proof::{check_shape, query_well_formed, well_formed, CommitPhaseStep, Digest, FriChallenges, FriProof, QueryProof};
use crate::merkle::{opens_to, verify_pair};
use crate::transcript::{grindable, state, Transcript, TranscriptState};

verus! {

/// The longest codeword the protocol handles has length `2^MAX_LOG_LEN`.
pub const MAX_LOG_LEN: usize = 31;

/// Why a proof was rejected. Verification stops at the first failing check, so
/// a rejected proof has exactly one reason.
#[derive(Clone, Copy, Debug, PartialEq, Eq)]
pub enum FriError {
    /// The parameters are not usable: no redundancy, no query, a domain
    /// beyond `2^MAX_LOG_LEN`, or a grinding difficulty that cannot be asked
    /// for.
    InvalidConfiguration,
    /// The proof does not have the shape the parameters ask for.
    MalformedProof,
    /// An opened pair does not belong to the codeword its round committed to.
    InclusionProofFailure,
    /// The fold of an opened pair is not the value that the next round opens,
    /// or, after the last round, not the value of the terminal polynomial.
    FoldingConsistencyFailure,
    /// The terminal polynomial has more coefficients than the degree bound
    /// leaves after the folds performed.
    DegreeBoundViolation,
    /// The witness is no proof of work of the required difficulty.
    ProofOfWorkFailure,
    /// The constraints re-evaluated at an opened point are not the opened
    /// quotient value times the vanishing polynomial there.
    ConstraintFailure,
}

/// The value that a step claims for position `index` of its round's codeword.
pub open spec fn claimed_value(step: CommitPhaseStep, index: nat) -> u64 {
    if index % 2 == 0 {
        step.lo
    } else {
        step.hi
    }
}

/// The fold of the pair that round `r` of a query opens. The query asks for
/// position `index` of a first codeword of length `2^log_len`.
pub open spec fn chain_entry(
    steps: Seq<CommitPhaseStep>,
    betas: Seq<u64>,
    log_len: nat,
    index: nat,
    r: int,
) -> int {
    fold_value(
        steps[r].lo as int,
        steps[r].hi as int,
        betas[r] as int,
        pair_point_inverse((log_len - r) as nat, index / pow2((r + 1) as nat)),
    )
}

/// The folds of all the pairs that a query opens, first round first.
pub open spec fn fold_chain(
    steps: Seq<CommitPhaseStep>,
    betas: Seq<u64>,
    log_len: nat,
    index: nat,
) -> Seq<u64> {
    Seq::new(steps.len(), |r: int| chain_entry(steps, betas, log_len, index, r) as u64)
}

/// The check that fails in one round, if any: first the inclusion proof of the
/// opened pair in a codeword of length `2^log_len`, then the consistency of
/// the pair with the value carried over from the round before. The query has
/// come down to position `index` of that codeword.
pub open spec fn round_failure(
    commit: Digest,
    step: CommitPhaseStep,
    log_len: nat,
    index: nat,
    carried: Option<u64>,
) -> Option<FriError> {
    if !opens_to(
        commit,
        pow2((log_len - 1) as nat),
        index / 2,
        step.lo,
        step.hi,
        step.opening_proof@,
    ) {
        Some(FriError::InclusionProofFailure)
    } else if carried is Some && claimed_value(step, index) != carried->0 {
        Some(FriError::FoldingConsistencyFailure)
    } else {
        None
    }
}

/// The value that round `r` has to be consistent with: the fold of the round
/// before, where there is one.
pub open spec fn carried_into(chain: Seq<u64>, r: nat) -> Option<u64> {
    if r > 0 {
        Some(chain[r - 1])
    } else {
        None
    }
}

/// The first check that fails from round `r` on, rounds in order.
pub open spec fn first_failure(
    commits: Seq<Digest>,
    steps: Seq<CommitPhaseStep>,
    chain: Seq<u64>,
    log_len: nat,
    index: nat,
    r: nat,
) -> Option<FriError>
    decreases commits.len() - r,
{
    if r >= commits.len() {
        None
    } else {
        match round_failure(
            commits[r as int],
            steps[r as int],
            (log_len - r) as nat,
            index / pow2(r),
            carried_into(chain, r),
        ) {
            Some(e) => Some(e),
            None => first_failure(commits, steps, chain, log_len, index, r + 1),
        }
    }
}

/// Whether the last fold of a query is the value of the terminal polynomial at
/// the point the query has come down to. A query without rounds folds nothing
/// and has nothing to match.
pub open spec fn terminal_matches(
    final_poly: Seq<u64>,
    chain: Seq<u64>,
    log_len: nat,
    index: nat,
) -> bool {
    chain.len() == 0 || chain.last() as int == poly_eval(
        final_poly,
        point((log_len - chain.len()) as nat, index / pow2(chain.len())),
    )
}

/// The outcome of one query against a first codeword of length `2^log_len`.
pub open spec fn query_verdict(
    commits: Seq<Digest>,
    final_poly: Seq<u64>,
    query: QueryProof,
    betas: Seq<u64>,
    log_len: nat,
) -> Result<(), FriError> {
    let chain = fold_chain(query.steps@, betas, log_len, query.index as nat);
    match first_failure(commits, query.steps@, chain, log_len, query.index as nat, 0) {
        Some(e) => Err(e),
        None => if terminal_matches(final_poly, chain, log_len, query.index as nat) {
            Ok(())
        } else {
            Err(FriError::FoldingConsistencyFailure)
        },
    }
}

/// The outcome of the queries from query `q` on: that of the first one that fails.
pub open spec fn queries_verdict(
    proof: FriProof,
    betas: Seq<u64>,
    log_len: nat,
    q: nat,
) -> Result<(), FriError>
    decreases proof.query_proofs@.len() - q,
{
    if q >= proof.query_proofs@.len() {
        Ok(())
    } else {
        match query_verdict(
            proof.commit_phase_commits@,
            proof.final_poly@,
            proof.query_proofs@[q as int],
            betas,
            log_len,
        ) {
            Err(e) => Err(e),
            Ok(_) => queries_verdict(proof, betas, log_len, q + 1),
        }
    }
}

/// Whether answer `q` of the proof is for the index drawn for query `q`, a
/// position in a codeword of length `2^log_len`.
pub open spec fn answers_query(proof: FriProof, indices: Seq<usize>, log_len: nat, q: int) -> bool {
    proof.query_proofs@[q].index == indices[q] && indices[q] < pow2(log_len)
}

/// Whether the proof answers exactly the queries that were drawn, each a
/// position in a codeword of length `2^log_len`.
pub open spec fn answers_queries(proof: FriProof, indices: Seq<usize>, log_len: nat) -> bool {
    &&& indices.len() == proof.query_proofs@.len()
    &&& forall|q: int|
        0 <= q < indices.len() ==> #[trigger] answers_query(proof, indices, log_len, q)
}

/// The outcome of verification for a claimed degree bound `2^log_degree`, with
/// the challenges in hand. Checks come in this order: the parameters, the
/// shape of the proof, the degree bound of the terminal polynomial, then the
/// queries one by one.
pub open spec fn verdict(
    num_queries: nat,
    log_blowup: nat,
    log_degree: nat,
    proof: FriProof,
    betas: Seq<u64>,
    indices: Seq<usize>,
) -> Result<(), FriError> {
    let log_len = log_degree + log_blowup;
    let rounds = proof.commit_phase_commits@.len();
    if log_blowup < 1 || num_queries < 1 || log_len > MAX_LOG_LEN {
        Err(FriError::InvalidConfiguration)
    } else if !well_formed(proof, num_queries) || rounds > log_degree || betas.len() != rounds
        || !answers_queries(proof, indices, log_len) {
        Err(FriError::MalformedProof)
    } else if proof.final_poly@.len() > pow2((log_degree - rounds) as nat) {
        Err(FriError::DegreeBoundViolation)
    } else {
        queries_verdict(proof, betas, log_len, 0)
    }
}

/// The folding challenges that a transcript yields for the commitments of a
/// proof, and its state afterwards: each challenge is drawn right after its
/// round's commitment was absorbed.
pub open spec fn derive_betas(start: TranscriptState, commits: Seq<Digest>) -> (
    Seq<u64>,
    TranscriptState,
)
    decreases commits.len(),
{
    if commits.len() == 0 {
        (Seq::empty(), start)
    } else {
        let before = derive_betas(start, commits.drop_last());
        let drawn = before.1.observe_digest(commits.last()).sample();
        (before.0.push(drawn.0), drawn.1)
    }
}

/// The outcome of verification for a claimed degree bound `2^log_degree`, and
/// the state it leaves a transcript in that started in `start`. Checks come
/// in this order: the parameters, the shape of the proof and the degree bound
/// of the terminal polynomial, all before the transcript is touched; then the
/// proof of work, in a transcript that has absorbed each commitment, drawn
/// each folding challenge and absorbed the terminal polynomial; then the
/// queries, at the indices drawn after the proof of work.
pub open spec fn verification(
    num_queries: nat,
    log_blowup: nat,
    pow_bits: nat,
    log_degree: nat,
    proof: FriProof,
    start: TranscriptState,
) -> (Result<(), FriError>, TranscriptState) {
    let log_len = log_degree + log_blowup;
    let rounds = proof.commit_phase_commits@.len();
    if log_blowup < 1 || num_queries < 1 || log_len > MAX_LOG_LEN || !grindable(pow_bits) {
        (Err(FriError::InvalidConfiguration), start)
    } else if !well_formed(proof, num_queries) || rounds > log_degree {
        (Err(FriError::MalformedProof), start)
    } else if proof.final_poly@.len() > pow2((log_degree - rounds) as nat) {
        (Err(FriError::DegreeBoundViolation), start)
    } else {
        let derived = derive_betas(start, proof.commit_phase_commits@);
        let checked = derived.1.observe_elements(proof.final_poly@).check_witness(
            pow_bits,
            proof.pow_witness,
        );
        if !checked.0 {
            (Err(FriError::ProofOfWorkFailure), checked.1)
        } else {
            let drawn = checked.1.sample_indices(num_queries, log_len);
            (verdict(num_queries, log_blowup, log_degree, proof, derived.0, drawn.0), drawn.1)
        }
    }
}

/// Replays the folding of one query: the fold of each opened pair, first round
/// first. The query asks for position `index` of a first codeword of length
/// `2^log_len`. Steps and challenges that do not pair up, or more rounds than
/// the codeword can be folded, give `None`.
pub fn replay_folds(
    steps: &Vec<CommitPhaseStep>,
    betas: &Vec<u64>,
    log_len: usize,
    index: usize,
) -> (chain: Option<Vec<u64>>)
    ensures
        chain is Some <==> steps@.len() == betas@.len() && steps@.len() <= log_len <= MAX_LOG_LEN,
        chain matches Some(c) ==> c@ == fold_chain(steps@, betas@, log_len as nat, index as nat),
{
    let rounds = steps.len();
    if betas.len() != rounds || rounds > log_len || log_len > MAX_LOG_LEN {
        return None;
    }
    let mut chain: Vec<u64> = Vec::new();
    let mut cur: usize = index;
    let mut r: usize = 0;
    proof {
        lemma2_to64();
    }
    while r < rounds
        invariant
            r <= rounds,
            rounds == steps@.len(),
            rounds == betas@.len(),
            rounds <= log_len <= MAX_LOG_LEN,
            cur == (index as nat) / pow2(r as nat),
            chain@.len() == r,
            forall|j: int|
                0 <= j < r ==> chain@[j] == chain_entry(
                    steps@,
                    betas@,
                    log_len as nat,
                    index as nat,
                    j,
                ),
        decreases rounds - r,
    {
        proof {
            lemma_halving(index as nat, r as nat);
        }
        let pair = cur / 2;
        let x_inv = domain_pair_inverse(log_len - r, pair);
        chain.push(fold_pair(steps[r].lo, steps[r].hi, betas[r], x_inv));
        cur = pair;
        r = r + 1;
    }
    assert(chain@ =~= fold_chain(steps@, betas@, log_len as nat, index as nat));
    Some(chain)
}

/// Tells whether the proof answers exactly the queries that were drawn, each a
/// position in a codeword of length `2^log_len`.
fn check_indices(proof: &FriProof, indices: &Vec<usize>, log_len: usize) -> (ok: bool)
    requires
        log_len <= MAX_LOG_LEN,
    ensures
        ok == answers_queries(*proof, indices@, log_len as nat),
{
    if indices.len() != proof.query_proofs.len() {
        return false;
    }
    let bound = pow2_usize(log_len);
    let mut q: usize = 0;
    while q < indices.len()
        invariant
            q <= indices@.len(),
            indices@.len() == proof.query_proofs@.len(),
            bound == pow2(log_len as nat),
            forall|j: int|
                0 <= j < q ==> #[trigger] answers_query(*proof, indices@, log_len as nat, j),
        decreases indices@.len() - q,
    {
        if proof.query_proofs[q].index != indices[q] || indices[q] >= bound {
            assert(!answers_query(*proof, indices@, log_len as nat, q as int));
            return false;
        }
        q = q + 1;
    }
    true
}

/// Checks one round of one query: that the opened pair belongs to the round's
/// codeword, of length `2^log_len`, and that it carries the value handed over
/// from the round before.
fn check_round(
    commit: &Digest,
    step: &CommitPhaseStep,
    log_len: usize,
    index: usize,
    carried: Option<u64>,
) -> (failure: Option<FriError>)
    requires
        1 <= log_len <= MAX_LOG_LEN,
    ensures
        failure == round_failure(*commit, *step, log_len as nat, index as nat, carried),
{
    proof {
        lemma2_to64();
        if log_len - 1 < 30 {
            lemma_pow2_strictly_increases((log_len - 1) as nat, 30);
        }
    }
    let height = pow2_usize(log_len - 1);
    if !verify_pair(commit, height, index / 2, step.lo, step.hi, &step.opening_proof) {
        return Some(FriError::InclusionProofFailure);
    }
    let claimed = if index % 2 == 0 {
        step.lo
    } else {
        step.hi
    };
    match carried {
        Some(v) => if claimed != v {
            Some(FriError::FoldingConsistencyFailure)
        } else {
            None
        },
        None => None,
    }
}

/// Verifies one query against a first codeword of length `2^log_len`: replays
/// its folds, then checks round by round that the opened pair belongs to the
/// round's codeword and carries the fold of the round before, and at last that
/// the final fold is the value of the terminal polynomial. An answer whose
/// steps do not pair up with the commitments and challenges is malformed.
pub fn verify_query(
    commits: &Vec<Digest>,
    final_poly: &Vec<u64>,
    query: &QueryProof,
    betas: &Vec<u64>,
    log_len: usize,
) -> (r: Result<(), FriError>)
    ensures
        r == if query.steps@.len() == commits@.len() && betas@.len() == commits@.len()
            && commits@.len() <= log_len <= MAX_LOG_LEN {
            query_verdict(commits@, final_poly@, *query, betas@, log_len as nat)
        } else {
            Err(FriError::MalformedProof)
        },
{
    let rounds = commits.len();
    if query.steps.len() != rounds {
        return Err(FriError::MalformedProof);
    }
    let chain = match replay_folds(&query.steps, betas, log_len, query.index) {
        Some(c) => c,
        None => {
            return Err(FriError::MalformedProof);
        },
    };
    let mut cur: usize = query.index;
    let mut r: usize = 0;
    proof {
        lemma2_to64();
    }
    while r < rounds
        invariant
            r <= rounds,
            rounds == commits@.len(),
            rounds == query.steps@.len(),
            rounds == betas@.len(),
            rounds <= log_len <= MAX_LOG_LEN,
            chain@ == fold_chain(query.steps@, betas@, log_len as nat, query.index as nat),
            cur == (query.index as nat) / pow2(r as nat),
            first_failure(commits@, query.steps@, chain@, log_len as nat, query.index as nat, 0)
                == first_failure(
                commits@,
                query.steps@,
                chain@,
                log_len as nat,
                query.index as nat,
                r as nat,
            ),
        decreases rounds - r,
    {
        proof {
            lemma_halving(query.index as nat, r as nat);
        }
        let carried = if r > 0 {
            Some(chain[r - 1])
        } else {
            None
        };
        match check_round(&commits[r], &query.steps[r], log_len - r, cur, carried) {
            Some(e) => {
                return Err(e);
            },
            None => {},
        }
        cur = cur / 2;
        r = r + 1;
    }
    if rounds == 0 {
        Ok(())
    } else {
        let x = domain_point(log_len - rounds, cur);
        if chain[rounds - 1] == eval_poly(final_poly, x) {
            Ok(())
        } else {
            Err(FriError::FoldingConsistencyFailure)
        }
    }
}

/// Verifies a proof for a claimed degree bound `2^log_degree`, with the
/// challenges in hand. The first failing check decides the error, in the
/// order that [`verdict`] lists.
pub fn verify_challenges<C: FriConfig>(
    config: &C,
    log_degree: usize,
    proof: &FriProof,
    challenges: &FriChallenges,
) -> (r: Result<(), FriError>)
    ensures
        r == verdict(
            config.spec_num_queries(),
            config.spec_log_blowup(),
            log_degree as nat,
            *proof,
            challenges.betas@,
            challenges.query_indices@,
        ),
{
    let num_queries = config.num_queries();
    let log_blowup = config.log_blowup();
    if log_blowup < 1 || num_queries < 1 || log_blowup > MAX_LOG_LEN || log_degree > MAX_LOG_LEN
        - log_blowup {
        return Err(FriError::InvalidConfiguration);
    }
    let log_len = log_degree + log_blowup;
    let rounds = proof.commit_phase_commits.len();
    if !check_shape(proof, num_queries) || rounds > log_degree || challenges.betas.len() != rounds
        || !check_indices(proof, &challenges.query_indices, log_len) {
        return Err(FriError::MalformedProof);
    }
    if proof.final_poly.len() > pow2_usize(log_degree - rounds) {
        return Err(FriError::DegreeBoundViolation);
    }
    let mut q: usize = 0;
    while q < num_queries
        invariant
            q <= num_queries,
            num_queries == proof.query_proofs@.len(),
            rounds == proof.commit_phase_commits@.len(),
            rounds == challenges.betas@.len(),
            rounds <= log_len <= MAX_LOG_LEN,
            well_formed(*proof, num_queries as nat),
            verdict(
                config.spec_num_queries(),
                config.spec_log_blowup(),
                log_degree as nat,
                *proof,
                challenges.betas@,
                challenges.query_indices@,
            ) == queries_verdict(*proof, challenges.betas@, log_len as nat, 0),
            queries_verdict(*proof, challenges.betas@, log_len as nat, 0) == queries_verdict(
                *proof,
                challenges.betas@,
                log_len as nat,
                q as nat,
            ),
        decreases num_queries - q,
    {
        assert(query_well_formed(proof.query_proofs@[q as int], rounds as nat));
        match verify_query(
            &proof.commit_phase_commits,
            &proof.final_poly,
            &proof.query_proofs[q],
            &challenges.betas,
            log_len,
        ) {
            Err(e) => {
                return Err(e);
            },
            Ok(_) => {},
        }
        q = q + 1;
    }
    Ok(())
}

/// Absorbs the commitments of a proof one by one and draws a folding challenge
/// after each.
pub fn sample_betas(transcript: &mut Transcript, commits: &Vec<Digest>) -> (betas: Vec<u64>)
    ensures
        (betas@, state(*final(transcript))) == derive_betas(state(*old(transcript)), commits@),
{
    let mut betas: Vec<u64> = Vec::new();
    let mut r: usize = 0;
    assert(commits@.take(0) =~= Seq::<Digest>::empty());
    while r < commits.len()
        invariant
            r <= commits@.len(),
            (betas@, state(*transcript)) == derive_betas(
                state(*old(transcript)),
                commits@.take(r as int),
            ),
        decreases commits@.len() - r,
    {
        assert(commits@.take(r + 1).drop_last() =~= commits@.take(r as int));
        transcript.observe_digest(&commits[r]);
        let beta = transcript.sample_field_element();
        betas.push(beta);
        r = r + 1;
    }
    assert(commits@.take(r as int) =~= commits@);
    betas
}

/// Verifies a proof for a claimed degree bound `2^log_degree`, deriving every
/// challenge from the transcript. The first failing check decides the error,
/// in the order that [`verification`] lists, and the transcript is left in
/// the state that it names.
pub fn verify<C: FriConfig>(
    config: &C,
    log_degree: usize,
    proof: &FriProof,
    transcript: &mut Transcript,
) -> (r: Result<(), FriError>)
    ensures
        (r, state(*final(transcript))) == verification(
            config.spec_num_queries(),
            config.spec_log_blowup(),
            config.spec_proof_of_work_bits(),
            log_degree as nat,
            *proof,
            state(*old(transcript)),
        ),
{
    let num_queries = config.num_queries();
    let log_blowup = config.log_blowup();
    let pow_bits = config.proof_of_work_bits();
    if log_blowup < 1 || num_queries < 1 || log_blowup > MAX_LOG_LEN || log_degree > MAX_LOG_LEN
        - log_blowup || !(pow_bits < 64 && pow_bits < usize::BITS as usize) {
        return Err(FriError::InvalidConfiguration);
    }
    let log_len = log_degree + log_blowup;
    let rounds = proof.commit_phase_commits.len();
    if !check_shape(proof, num_queries) || rounds > log_degree {
        return Err(FriError::MalformedProof);
    }
    if proof.final_poly.len() > pow2_usize(log_degree - rounds) {
        return Err(FriError::DegreeBoundViolation);
    }
    let betas = sample_betas(transcript, &proof.commit_phase_commits);
    transcript.observe_elements(&proof.final_poly);
    if !transcript.check_grind(proof.pow_witness, pow_bits) {
        return Err(FriError::ProofOfWorkFailure);
    }
    let query_indices = match transcript.sample_indices(num_queries, log_len) {
        Some(v) => v,
        None => {
            return Err(FriError::InvalidConfiguration);
        },
    };
    let challenges = FriChallenges { betas, query_indices };
    verify_challenges(config, log_degree, proof, &challenges)
}

/// Whether round `r` of a query passes both of its checks.
pub open spec fn round_passes(
    commits: Seq<Digest>,
    query: QueryProof,
    betas: Seq<u64>,
    log_len: nat,
    r: int,
) -> bool {
    round_failure(
        commits[r],
        query.steps@[r],
        (log_len - r) as nat,
        (query.index as nat) / pow2(r as nat),
        carried_into(fold_chain(query.steps@, betas, log_len, query.index as nat), r as nat),
    ) is None
}

/// Whether a query passes every check: both checks of every round, and the
/// match of its last fold with the terminal polynomial.
pub open spec fn query_passes(
    commits: Seq<Digest>,
    final_poly: Seq<u64>,
    query: QueryProof,
    betas: Seq<u64>,
    log_len: nat,
) -> bool {
    &&& forall|r: int|
        0 <= r < commits.len() ==> #[trigger] round_passes(commits, query, betas, log_len, r)
    &&& terminal_matches(
        final_poly,
        fold_chain(query.steps@, betas, log_len, query.index as nat),
        log_len,
        query.index as nat,
    )
}

/// No check fails from round `from` on exactly where every round from `from`
/// on passes.
pub proof fn lemma_no_failure_iff_rounds_pass(
    commits: Seq<Digest>,
    query: QueryProof,
    betas: Seq<u64>,
    log_len: nat,
    from: nat,
)
    ensures
        first_failure(
            commits,
            query.steps@,
            fold_chain(query.steps@, betas, log_len, query.index as nat),
            log_len,
            query.index as nat,
            from,
        ) is None <==> forall|r: int|
            from <= r < commits.len() ==> #[trigger] round_passes(commits, query, betas, log_len, r),
    decreases commits.len() - from,
{
    if from < commits.len() {
        lemma_no_failure_iff_rounds_pass(commits, query, betas, log_len, from + 1);
        assert(round_passes(commits, query, betas, log_len, from as int) <==> round_failure(
            commits[from as int],
            query.steps@[from as int],
            (log_len - from) as nat,
            (query.index as nat) / pow2(from),
            carried_into(fold_chain(query.steps@, betas, log_len, query.index as nat), from),
        ) is None);
    }
}

/// A query is accepted exactly where it passes every check.
pub proof fn lemma_query_accepted_iff_passes(
    commits: Seq<Digest>,
    final_poly: Seq<u64>,
    query: QueryProof,
    betas: Seq<u64>,
    log_len: nat,
)
    ensures
        query_verdict(commits, final_poly, query, betas, log_len) is Ok <==> query_passes(
            commits,
            final_poly,
            query,
            betas,
            log_len,
        ),
{
    lemma_no_failure_iff_rounds_pass(commits, query, betas, log_len, 0);
}

/// The queries from `from` on are accepted exactly where each of them is.
pub proof fn lemma_queries_accepted_iff_each(proof: FriProof, betas: Seq<u64>, log_len: nat, from: nat)
    ensures
        queries_verdict(proof, betas, log_len, from) is Ok <==> forall|q: int|
            from <= q < proof.query_proofs@.len() ==> #[trigger] query_passes(
                proof.commit_phase_commits@,
                proof.final_poly@,
                proof.query_proofs@[q],
                betas,
                log_len,
            ),
    decreases proof.query_proofs@.len() - from,
{
    if from < proof.query_proofs@.len() {
        lemma_queries_accepted_iff_each(proof, betas, log_len, from + 1);
        lemma_query_accepted_iff_passes(
            proof.commit_phase_commits@,
            proof.final_poly@,
            proof.query_proofs@[from as int],
            betas,
            log_len,
        );
    }
}

/// One challenge is drawn for each commitment.
pub proof fn lemma_one_challenge_per_commitment(start: TranscriptState, commits: Seq<Digest>)
    ensures
        derive_betas(start, commits).0.len() == commits.len(),
    decreases commits.len(),
{
    if commits.len() > 0 {
        lemma_one_challenge_per_commitment(start, commits.drop_last());
    }
}

/// A proof is accepted exactly where nothing is wrong with it: the
/// parameters are usable, the proof has the shape they ask for, the terminal
/// polynomial is within the degree bound, the witness is a proof of work, the
/// answers are for the indices drawn, and every query passes every check.
pub proof fn lemma_accepted_iff_every_check_passes(
    num_queries: nat,
    log_blowup: nat,
    pow_bits: nat,
    log_degree: nat,
    proof: FriProof,
    start: TranscriptState,
)
    ensures
        verification(num_queries, log_blowup, pow_bits, log_degree, proof, start).0 is Ok <==> {
            let log_len = log_degree + log_blowup;
            let rounds = proof.commit_phase_commits@.len();
            let derived = derive_betas(start, proof.commit_phase_commits@);
            let checked = derived.1.observe_elements(proof.final_poly@).check_witness(
                pow_bits,
                proof.pow_witness,
            );
            let drawn = checked.1.sample_indices(num_queries, log_len);
            &&& log_blowup >= 1
            &&& num_queries >= 1
            &&& log_len <= MAX_LOG_LEN
            &&& grindable(pow_bits)
            &&& well_formed(proof, num_queries)
            &&& rounds <= log_degree
            &&& proof.final_poly@.len() <= pow2((log_degree - rounds) as nat)
            &&& checked.0
            &&& answers_queries(proof, drawn.0, log_len)
            &&& forall|q: int|
                0 <= q < proof.query_proofs@.len() ==> #[trigger] query_passes(
                    proof.commit_phase_commits@,
                    proof.final_poly@,
                    proof.query_proofs@[q],
                    derived.0,
                    log_len,
                )
        },
{
    let derived = derive_betas(start, proof.commit_phase_commits@);
    lemma_one_challenge_per_commitment(start, proof.commit_phase_commits@);
    lemma_queries_accepted_iff_each(proof, derived.0, log_degree + log_blowup, 0);
}

/// A configuration without redundancy or without a query is rejected before
/// anything else is looked at, and the transcript is left as it was.
pub proof fn lemma_unusable_parameters_are_rejected<C: FriConfig>(
    config: &C,
    log_degree: nat,
    proof: FriProof,
    start: TranscriptState,
)
    requires
        !parameters_valid(config),
    ensures
        verification(
            config.spec_num_queries(),
            config.spec_log_blowup(),
            config.spec_proof_of_work_bits(),
            log_degree,
            proof,
            start,
        ) == (Err::<(), FriError>(FriError::InvalidConfiguration), start),
{
}

/// The replay has no randomness of its own: two runs on the same opened
/// values, challenges, length and index agree on whether there is a chain of
/// folds, and on every fold of it.
pub proof fn lemma_replay_is_determined(
    steps: Seq<CommitPhaseStep>,
    betas: Seq<u64>,
    log_len: nat,
    index: nat,
    first: Option<Seq<u64>>,
    second: Option<Seq<u64>>,
)
    requires
        first is Some <==> steps.len() == betas.len() && steps.len() <= log_len <= MAX_LOG_LEN,
        first matches Some(c) ==> c == fold_chain(steps, betas, log_len, index),
        second is Some <==> steps.len() == betas.len() && steps.len() <= log_len <= MAX_LOG_LEN,
        second matches Some(c) ==> c == fold_chain(steps, betas, log_len, index),
    ensures
        first == second,
{
}

/// Halving `index / 2^r` gives `index / 2^(r + 1)`.
pub proof fn lemma_halving(index: nat, r: nat)
    ensures
        (index / pow2(r)) / 2 == index / pow2(r + 1),
        pow2(r) > 0,
{
    lemma_pow2_pos(r);
    lemma_pow2_unfold(r + 1);
    lemma_div_denominator(index as int, pow2(r) as int, 2);
    assert(pow2(r) * 2 == pow2(r + 1));
}

} // verus!
