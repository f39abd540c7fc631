//! Completeness of the protocol: the verifier accepts every proof that the
//! prover makes.

use vstd::arithmetic::power2::{lemma_pow2_pos, lemma_pow2_unfold, pow2};
use vstd::prelude::*;

use crate::commit_phase::{
    commit_phase,
    honest_proof,
    honest_query,
    honest_step,
    is_constant,
    lemma_commit_phase_shape,
    prove_failure,
};
use crate::field::{fadd, fmul, ORDER};
use crate::fold::{
    fold_value,
    folded,
    folded_entry,
    lemma_log2_pow2,
    lemma_round_count,
    log2,
    point,
    poly_eval,
    rounds,
};
use crate::fri_proof::{all_canonical, query_well_formed, well_formed, FriProof, QueryProof};
use crate::merkle::merkle_root;
use crate::query_phase::{
    answers_queries,
    answers_query,
    carried_into,
    chain_entry,
    claimed_value,
    derive_betas,
    first_failure,
    fold_chain,
    lemma_halving,
    queries_verdict,
    query_verdict,
    round_failure,
    terminal_matches,
    verdict,
    verification,
    FriError,
    MAX_LOG_LEN,
};
use crate::transcript::{lemma_sample_indices_len, TranscriptState};

verus! {

/// Round `r` of a longer commit phase is round `r` of the commit phase that
/// stops right after it: it commits to layer `r`, and layer `r + 1` is the
/// fold of layer `r` with challenge `r`.
pub proof fn lemma_round_of_commit_phase(
    start: TranscriptState,
    codeword: Seq<u64>,
    rounds: nat,
    r: nat,
)
    requires
        r < rounds,
    ensures
        commit_phase(start, codeword, rounds).commits.len() == rounds,
        commit_phase(start, codeword, rounds).betas.len() == rounds,
        commit_phase(start, codeword, rounds).layers.len() == rounds + 1,
        commit_phase(start, codeword, rounds).commits[r as int] == merkle_root(
            commit_phase(start, codeword, rounds).layers[r as int],
        ),
        commit_phase(start, codeword, rounds).layers[r as int + 1] == folded(
            commit_phase(start, codeword, rounds).layers[r as int],
            commit_phase(start, codeword, rounds).betas[r as int],
        ),
    decreases rounds,
{
    let before = commit_phase(start, codeword, (rounds - 1) as nat);
    lemma_commit_phase_lengths(start, codeword, (rounds - 1) as nat);
    if r + 1 < rounds {
        lemma_round_of_commit_phase(start, codeword, (rounds - 1) as nat, r);
    }
}

/// After `rounds` rounds there are `rounds` commitments and challenges and
/// `rounds + 1` layers.
pub proof fn lemma_commit_phase_lengths(start: TranscriptState, codeword: Seq<u64>, rounds: nat)
    ensures
        commit_phase(start, codeword, rounds).commits.len() == rounds,
        commit_phase(start, codeword, rounds).betas.len() == rounds,
        commit_phase(start, codeword, rounds).layers.len() == rounds + 1,
    decreases rounds,
{
    if rounds > 0 {
        lemma_commit_phase_lengths(start, codeword, (rounds - 1) as nat);
    }
}

/// The verifier draws the challenges that the prover drew: absorbing the
/// commitments of a commit phase one by one, and drawing after each, yields
/// its challenges and leaves the transcript where the commit phase left it.
pub proof fn lemma_same_challenges(start: TranscriptState, codeword: Seq<u64>, rounds: nat)
    ensures
        derive_betas(start, commit_phase(start, codeword, rounds).commits) == (
            commit_phase(start, codeword, rounds).betas,
            commit_phase(start, codeword, rounds).state,
        ),
    decreases rounds,
{
    if rounds > 0 {
        let before = commit_phase(start, codeword, (rounds - 1) as nat);
        let after = commit_phase(start, codeword, rounds);
        lemma_same_challenges(start, codeword, (rounds - 1) as nat);
        assert(after.commits.drop_last() =~= before.commits);
    }
}

/// Every layer of the commit phase on a canonical codeword is canonical.
pub proof fn lemma_layers_canonical(
    start: TranscriptState,
    codeword: Seq<u64>,
    rounds: nat,
    i: int,
)
    requires
        all_canonical(codeword),
        0 <= i <= rounds,
    ensures
        all_canonical(commit_phase(start, codeword, rounds).layers[i]),
    decreases rounds,
{
    lemma_commit_phase_lengths(start, codeword, rounds);
    if rounds > 0 {
        lemma_commit_phase_lengths(start, codeword, (rounds - 1) as nat);
        if i < rounds {
            lemma_layers_canonical(start, codeword, (rounds - 1) as nat, i);
        }
    }
}

/// A position in a codeword of length `2^n`, halved `k` times, is a position
/// in a codeword of length `2^(n - k)`.
pub proof fn lemma_halved_position(index: nat, n: nat, k: nat)
    requires
        index < pow2(n),
        k <= n,
    ensures
        0 <= index / pow2(k) < pow2((n - k) as nat),
    decreases k,
{
    lemma_pow2_pos(k);
    vstd::arithmetic::div_mod::lemma_div_pos_is_pos(index as int, pow2(k) as int);
    if k == 0 {
        vstd::arithmetic::power2::lemma2_to64();
    } else {
        lemma_halved_position(index, n, (k - 1) as nat);
        lemma_halving(index, (k - 1) as nat);
        lemma_pow2_unfold((n - k + 1) as nat);
    }
}

/// Layer `i` of the commit phase on a codeword of length `2^log_len` has
/// length `2^(log_len - i)`.
pub proof fn lemma_layer_len(
    start: TranscriptState,
    codeword: Seq<u64>,
    log_len: nat,
    rounds: nat,
    i: int,
)
    requires
        codeword.len() == pow2(log_len),
        rounds <= log_len,
        0 <= i <= rounds,
    ensures
        commit_phase(start, codeword, rounds).layers.len() == rounds + 1,
        commit_phase(start, codeword, rounds).layers[i].len() == pow2((log_len - i) as nat),
{
    lemma_commit_phase_shape(start, codeword, log_len, rounds);
}

/// The fold of a layer of length `2^k` holds, at position `pair`, the fold of
/// the two values of that pair.
pub proof fn lemma_fold_of_pair(layer: Seq<u64>, beta: u64, k: nat, pair: nat)
    requires
        layer.len() == pow2(k),
        k >= 1,
        pair < pow2((k - 1) as nat),
    ensures
        folded(layer, beta).len() == pow2((k - 1) as nat),
        folded(layer, beta)[pair as int] == fold_value(
            layer[2 * pair as int] as int,
            layer[2 * pair as int + 1] as int,
            beta as int,
            crate::fold::pair_point_inverse(k, pair),
        ) as u64,
{
    lemma_log2_pow2(k);
    lemma_pow2_unfold(k);
    assert(folded(layer, beta)[pair as int] == folded_entry(layer, beta, pair as int) as u64);
}

/// The fold that the verifier computes in round `r` of an honest answer is
/// the entry of layer `r + 1` that the query comes down to.
pub proof fn lemma_chain_follows_layers(
    start: TranscriptState,
    codeword: Seq<u64>,
    log_len: nat,
    rounds: nat,
    index: nat,
    query: QueryProof,
    r: int,
)
    requires
        codeword.len() == pow2(log_len),
        rounds <= log_len,
        honest_query(commit_phase(start, codeword, rounds).layers, log_len, index, query),
        0 <= r < rounds,
    ensures
        fold_chain(query.steps@, commit_phase(start, codeword, rounds).betas, log_len, index)[r]
            == commit_phase(start, codeword, rounds).layers[r + 1][(index / pow2(
            (r + 1) as nat,
        )) as int],
{
    let phase = commit_phase(start, codeword, rounds);
    let pair = index / pow2((r + 1) as nat);
    let step = query.steps@[r];
    let layer = phase.layers[r];
    let beta = phase.betas[r];
    lemma_layer_len(start, codeword, log_len, rounds, r);
    lemma_round_of_commit_phase(start, codeword, rounds, r as nat);
    lemma_halved_position(index, log_len, (r + 1) as nat);
    assert(honest_step(layer, pair, step));
    lemma_fold_of_pair(layer, beta, (log_len - r) as nat, pair);
    assert(fold_chain(query.steps@, phase.betas, log_len, index)[r] == chain_entry(
        query.steps@,
        phase.betas,
        log_len,
        index,
        r,
    ) as u64);
}

/// No round of an honest answer fails.
pub proof fn lemma_no_round_fails(
    start: TranscriptState,
    codeword: Seq<u64>,
    log_len: nat,
    rounds: nat,
    index: nat,
    query: QueryProof,
    r: nat,
)
    requires
        codeword.len() == pow2(log_len),
        rounds <= log_len,
        honest_query(commit_phase(start, codeword, rounds).layers, log_len, index, query),
        r <= rounds,
    ensures
        first_failure(
            commit_phase(start, codeword, rounds).commits,
            query.steps@,
            fold_chain(query.steps@, commit_phase(start, codeword, rounds).betas, log_len, index),
            log_len,
            index,
            r,
        ) is None,
    decreases rounds - r,
{
    let phase = commit_phase(start, codeword, rounds);
    let chain = fold_chain(query.steps@, phase.betas, log_len, index);
    lemma_commit_phase_lengths(start, codeword, rounds);
    if r < rounds {
        let here = index / pow2(r);
        let pair = index / pow2(r + 1);
        let step = query.steps@[r as int];
        lemma_layer_len(start, codeword, log_len, rounds, r as int);
        lemma_round_of_commit_phase(start, codeword, rounds, r);
        lemma_halving(index, r);
        lemma_halved_position(index, log_len, r);
        lemma_pow2_unfold((log_len - r) as nat);
        assert(honest_step(phase.layers[r as int], pair, step));
        assert(phase.layers[r as int].len() == pow2((log_len - r) as nat));
        assert(phase.layers[r as int].len() / 2 == pow2((log_len - r - 1) as nat));
        assert(claimed_value(step, here) == phase.layers[r as int][here as int]);
        if r > 0 {
            lemma_chain_follows_layers(start, codeword, log_len, rounds, index, query, r - 1);
        }
        assert(round_failure(
            phase.commits[r as int],
            step,
            (log_len - r) as nat,
            here,
            carried_into(chain, r),
        ) is None);
        lemma_no_round_fails(start, codeword, log_len, rounds, index, query, r + 1);
    }
}

/// Where the last layer is constant, the last fold of an honest answer is
/// that constant, a canonical value.
pub proof fn lemma_last_fold(
    start: TranscriptState,
    codeword: Seq<u64>,
    log_len: nat,
    rounds: nat,
    index: nat,
    query: QueryProof,
)
    requires
        codeword.len() == pow2(log_len),
        0 < rounds <= log_len,
        all_canonical(codeword),
        is_constant(commit_phase(start, codeword, rounds).layers.last()),
        honest_query(commit_phase(start, codeword, rounds).layers, log_len, index, query),
    ensures
        fold_chain(
            query.steps@,
            commit_phase(start, codeword, rounds).betas,
            log_len,
            index,
        ).last() == commit_phase(start, codeword, rounds).layers.last()[0],
        commit_phase(start, codeword, rounds).layers.last()[0] < ORDER,
{
    let phase = commit_phase(start, codeword, rounds);
    let chain = fold_chain(query.steps@, phase.betas, log_len, index);
    let last = phase.layers.last();
    let j = (index / pow2(rounds)) as int;
    lemma_layer_len(start, codeword, log_len, rounds, rounds as int);
    lemma_chain_follows_layers(start, codeword, log_len, rounds, index, query, rounds - 1);
    lemma_halved_position(index, log_len, rounds);
    lemma_layers_canonical(start, codeword, rounds, rounds as int);
    lemma_pow2_pos((log_len - rounds) as nat);
    assert(last == phase.layers[rounds as int]);
    assert(chain.len() == rounds);
    assert(chain.last() == last[j]);
    assert(last[j] == last[0]);
    assert(last[0] < ORDER);
}

/// An honest answer is accepted, where the commit phase has ended in a
/// constant layer of canonical values and that constant is the terminal
/// polynomial.
pub proof fn lemma_honest_query_accepted(
    start: TranscriptState,
    codeword: Seq<u64>,
    log_len: nat,
    rounds: nat,
    index: nat,
    query: QueryProof,
)
    requires
        codeword.len() == pow2(log_len),
        rounds <= log_len,
        all_canonical(codeword),
        is_constant(commit_phase(start, codeword, rounds).layers.last()),
        honest_query(commit_phase(start, codeword, rounds).layers, log_len, index, query),
    ensures
        query_verdict(
            commit_phase(start, codeword, rounds).commits,
            seq![commit_phase(start, codeword, rounds).layers.last()[0]],
            query,
            commit_phase(start, codeword, rounds).betas,
            log_len,
        ) == Ok::<(), FriError>(()),
{
    let phase = commit_phase(start, codeword, rounds);
    let chain = fold_chain(query.steps@, phase.betas, log_len, index);
    let terminal = seq![phase.layers.last()[0]];
    let c = phase.layers.last()[0];
    lemma_layer_len(start, codeword, log_len, rounds, rounds as int);
    lemma_no_round_fails(start, codeword, log_len, rounds, index, query, 0);
    assert(chain.len() == rounds);
    if rounds > 0 {
        let x = point((log_len - rounds) as nat, index / pow2(rounds));
        lemma_last_fold(start, codeword, log_len, rounds, index, query);
        lemma_eval_constant(c, x);
    }
    assert(terminal_matches(terminal, chain, log_len, index));
}

/// A polynomial with the single coefficient `c` has the value `c` everywhere.
pub proof fn lemma_eval_constant(c: u64, x: int)
    requires
        c < ORDER,
    ensures
        poly_eval(seq![c], x) == c,
{
    let terminal = seq![c];
    assert(terminal.skip(1).len() == 0);
    assert(poly_eval(terminal.skip(1), x) == 0);
    assert(x * 0 == 0);
    assert(poly_eval(terminal, x) == fadd(c as int, fmul(x, 0)));
}

/// Where every answer from `q` on is accepted, so are the queries from `q` on.
pub proof fn lemma_all_queries_accepted(proof: FriProof, betas: Seq<u64>, log_len: nat, q: nat)
    requires
        forall|j: int|
            q <= j < proof.query_proofs@.len() ==> #[trigger] query_verdict(
                proof.commit_phase_commits@,
                proof.final_poly@,
                proof.query_proofs@[j],
                betas,
                log_len,
            ) == Ok::<(), FriError>(()),
    ensures
        queries_verdict(proof, betas, log_len, q) == Ok::<(), FriError>(()),
    decreases proof.query_proofs@.len() - q,
{
    if q < proof.query_proofs@.len() {
        lemma_all_queries_accepted(proof, betas, log_len, q + 1);
    }
}

/// The commit phase of a proof that the prover makes has as many rounds as it
/// takes to fold the codeword down to the length of the blowup factor: for a
/// codeword of length `L` and the threshold `T = 2^log_blowup`, that is
/// `log2(L) - log2(T)`.
pub proof fn lemma_round_count_of_honest_proof(
    num_queries: nat,
    log_blowup: nat,
    pow_bits: nat,
    codeword: Seq<u64>,
    start: TranscriptState,
    proof: FriProof,
    end: TranscriptState,
)
    requires
        prove_failure(num_queries, log_blowup, pow_bits, codeword, start) is None,
        honest_proof(num_queries, log_blowup, pow_bits, codeword, start, proof, end),
    ensures
        proof.commit_phase_commits@.len() == rounds(codeword.len(), pow2(log_blowup)),
        proof.commit_phase_commits@.len() == log2(codeword.len()) - log2(pow2(log_blowup)),
{
    let n = choose|n: nat| log_blowup <= n <= MAX_LOG_LEN && codeword.len() == pow2(n);
    lemma_log2_pow2(n);
    lemma_log2_pow2(log_blowup);
    lemma_commit_phase_lengths(start, codeword, (n - log_blowup) as nat);
    if log_blowup < n {
        vstd::arithmetic::power2::lemma_pow2_strictly_increases(log_blowup, n);
    }
    lemma_round_count(codeword.len(), pow2(log_blowup));
}

/// Completeness: the verifier accepts every proof that the prover makes, and
/// leaves its transcript in the state in which the prover left its own. For a
/// codeword that the prover does not refuse, any proof that is honest for it
/// verifies, from the same transcript state, for the degree bound that is the
/// codeword's length over the blowup factor.
pub proof fn lemma_honest_proof_accepted(
    num_queries: nat,
    log_blowup: nat,
    pow_bits: nat,
    codeword: Seq<u64>,
    start: TranscriptState,
    proof: FriProof,
    end: TranscriptState,
)
    requires
        prove_failure(num_queries, log_blowup, pow_bits, codeword, start) is None,
        honest_proof(num_queries, log_blowup, pow_bits, codeword, start, proof, end),
    ensures
        verification(
            num_queries,
            log_blowup,
            pow_bits,
            (log2(codeword.len()) - log_blowup) as nat,
            proof,
            start,
        ) == (Ok::<(), FriError>(()), end),
{
    let log_len = log2(codeword.len());
    let rounds = (log_len - log_blowup) as nat;
    let n = choose|n: nat| log_blowup <= n <= MAX_LOG_LEN && codeword.len() == pow2(n);
    lemma_log2_pow2(n);
    let phase = commit_phase(start, codeword, rounds);
    let terminal = seq![phase.layers.last()[0]];
    let checked = phase.state.observe_elements(terminal).check_witness(pow_bits, proof.pow_witness);
    let drawn = checked.1.sample_indices(num_queries, log_len);
    lemma_commit_phase_shape(start, codeword, log_len, rounds);
    lemma_same_challenges(start, codeword, rounds);
    lemma_sample_indices_len(checked.1, num_queries, log_len);
    lemma_layers_canonical(start, codeword, rounds, rounds as int);
    lemma_pow2_pos(log_blowup);
    vstd::arithmetic::power2::lemma2_to64();
    assert forall|q: int| 0 <= q < num_queries implies query_well_formed(
        #[trigger] proof.query_proofs@[q],
        rounds,
    ) by {
        let query = proof.query_proofs@[q];
        let index = drawn.0[q] as nat;
        assert(honest_query(phase.layers, log_len, index, query));
        assert forall|r: int| 0 <= r < rounds implies (#[trigger] query.steps@[r]).lo < ORDER
            && query.steps@[r].hi < ORDER by {
            let pair = index / pow2((r + 1) as nat);
            assert(honest_step(phase.layers[r], pair, query.steps@[r]));
            lemma_layers_canonical(start, codeword, rounds, r);
            lemma_halved_position(index, log_len, (r + 1) as nat);
            lemma_pow2_unfold((log_len - r) as nat);
            assert(phase.layers[r].len() == pow2((log_len - r) as nat));
        }
    }
    assert(well_formed(proof, num_queries));
    assert forall|q: int| 0 <= q < drawn.0.len() implies #[trigger] answers_query(
        proof,
        drawn.0,
        log_len,
        q,
    ) by {
        assert(honest_query(phase.layers, log_len, drawn.0[q] as nat, proof.query_proofs@[q]));
    }
    assert(answers_queries(proof, drawn.0, log_len));
    assert forall|q: int| 0 <= q < proof.query_proofs@.len() implies #[trigger] query_verdict(
        proof.commit_phase_commits@,
        proof.final_poly@,
        proof.query_proofs@[q],
        phase.betas,
        log_len,
    ) == Ok::<(), FriError>(()) by {
        assert(honest_query(phase.layers, log_len, drawn.0[q] as nat, proof.query_proofs@[q]));
        lemma_honest_query_accepted(
            start,
            codeword,
            log_len,
            rounds,
            drawn.0[q] as nat,
            proof.query_proofs@[q],
        );
    }
    lemma_all_queries_accepted(proof, phase.betas, log_len, 0);
    assert(verdict(num_queries, log_blowup, rounds, proof, phase.betas, drawn.0) == Ok::<
        (),
        FriError,
    >(()));
}

} // verus!
