use p3_fri::commit_phase::{prove, ProveError};
use p3_fri::fold::{domain_point, eval_poly};
use p3_fri::fri_proof::{FriChallenges, FriProof};
use p3_fri::query_phase::{
    replay_folds, sample_betas, verify, verify_challenges, verify_query, FriError,
};
use p3_fri::transcript::Transcript;
use p3_fri::{FriConfig, FriConfigImpl};

type Config = FriConfigImpl<u64, u64, (), (), ()>;

fn config(log_blowup: usize, num_queries: usize, pow_bits: usize) -> Config {
    FriConfigImpl::new(log_blowup, num_queries, pow_bits, ())
}

fn low_degree_codeword(coeffs: &Vec<u64>, log_len: usize) -> Vec<u64> {
    (0..1usize << log_len).map(|i| eval_poly(coeffs, domain_point(log_len, i))).collect()
}

fn honest(config: &Config, coeffs: &Vec<u64>, log_len: usize) -> FriProof {
    let codeword = low_degree_codeword(coeffs, log_len);
    prove(config, &codeword, &mut Transcript::new(vec![])).unwrap()
}

fn challenges_of(config: &Config, log_len: usize, proof: &FriProof) -> FriChallenges {
    let mut transcript = Transcript::new(vec![]);
    let betas = sample_betas(&mut transcript, &proof.commit_phase_commits);
    transcript.observe_elements(&proof.final_poly);
    assert!(transcript.check_grind(proof.pow_witness, config.proof_of_work_bits()));
    let query_indices = transcript.sample_indices(config.num_queries(), log_len).unwrap();
    FriChallenges { betas, query_indices }
}

#[test]
fn honest_proof_is_accepted() {
    let config = config(1, 3, 8);
    let proof = honest(&config, &vec![5, 7, 11, 13], 3);
    assert_eq!(verify(&config, 2, &proof, &mut Transcript::new(vec![])), Ok(()));
}

#[test]
fn honest_proofs_are_accepted_for_many_parameters() {
    for log_blowup in 1..=3usize {
        for log_degree in 0..=5usize {
            for num_queries in [1usize, 2, 7] {
                let config = config(log_blowup, num_queries, 4);
                let coeffs: Vec<u64> = (0..1u64 << log_degree).map(|k| 3 * k * k + 1).collect();
                let proof = honest(&config, &coeffs, log_degree + log_blowup);
                assert_eq!(verify(&config, log_degree, &proof, &mut Transcript::new(vec![])), Ok(()));
            }
        }
    }
}

#[test]
fn round_count_is_log_of_length_minus_log_of_threshold() {
    for log_blowup in 1..=3usize {
        for log_len in log_blowup..=8usize {
            let config = config(log_blowup, 2, 0);
            let coeffs: Vec<u64> = (0..1u64 << (log_len - log_blowup)).map(|k| k + 2).collect();
            let proof = honest(&config, &coeffs, log_len);
            assert_eq!(proof.commit_phase_commits.len(), log_len - log_blowup);
            assert_eq!(proof.final_poly.len(), 1);
            for query in &proof.query_proofs {
                assert_eq!(query.steps.len(), log_len - log_blowup);
            }
        }
    }
}

#[test]
fn prover_and_verifier_leave_their_transcripts_in_the_same_state() {
    let config = config(1, 3, 8);
    let codeword = low_degree_codeword(&vec![5, 7, 11, 13], 3);
    let mut prover = Transcript::new(vec![1, 2, 3]);
    let proof = prove(&config, &codeword, &mut prover).unwrap();
    let mut verifier = Transcript::new(vec![1, 2, 3]);
    assert_eq!(verify(&config, 2, &proof, &mut verifier), Ok(()));
    assert_eq!(prover.sample_field_element(), verifier.sample_field_element());
}

#[test]
fn proof_for_another_transcript_is_rejected() {
    let config = config(1, 3, 8);
    let proof = honest(&config, &vec![5, 7, 11, 13], 3);
    assert!(verify(&config, 2, &proof, &mut Transcript::new(vec![1])).is_err());
}

#[test]
fn codeword_of_too_high_degree_is_refused() {
    let config = config(1, 3, 8);
    let codeword = low_degree_codeword(&vec![5, 7, 11, 13, 17], 3);
    let mut transcript = Transcript::new(vec![]);
    assert_eq!(prove(&config, &codeword, &mut transcript), Err(ProveError::NotLowDegree));
}

#[test]
fn unusable_parameters_are_refused_by_the_prover() {
    let codeword = low_degree_codeword(&vec![5, 7], 2);
    for bad in [config(0, 3, 8), config(1, 0, 8), config(1, 3, 64)] {
        let mut transcript = Transcript::new(vec![]);
        assert_eq!(prove(&bad, &codeword, &mut transcript), Err(ProveError::InvalidConfiguration));
    }
}

#[test]
fn unfit_codewords_are_refused_by_the_prover() {
    let config = config(2, 3, 8);
    let mut transcript = Transcript::new(vec![]);
    assert_eq!(prove(&config, &vec![], &mut transcript), Err(ProveError::InvalidCodeword));
    assert_eq!(prove(&config, &vec![1, 1], &mut transcript), Err(ProveError::InvalidCodeword));
    assert_eq!(prove(&config, &vec![1; 6], &mut transcript), Err(ProveError::InvalidCodeword));
    let not_canonical = vec![1, 1, 1, u64::MAX];
    assert_eq!(prove(&config, &not_canonical, &mut transcript), Err(ProveError::InvalidCodeword));
    assert!(prove(&config, &vec![1; 4], &mut transcript).is_ok());
}

#[test]
fn unusable_parameters_are_rejected_by_the_verifier() {
    let good = config(1, 3, 8);
    let proof = honest(&good, &vec![5, 7, 11, 13], 3);
    for bad in [config(0, 3, 8), config(1, 0, 8), config(1, 3, 64), config(32, 3, 8)] {
        assert_eq!(
            verify(&bad, 2, &proof, &mut Transcript::new(vec![])),
            Err(FriError::InvalidConfiguration)
        );
    }
    assert_eq!(
        verify(&good, 31, &proof, &mut Transcript::new(vec![])),
        Err(FriError::InvalidConfiguration)
    );
}

#[test]
fn proof_of_wrong_shape_is_malformed() {
    let config = config(1, 3, 8);
    let proof = honest(&config, &vec![5, 7, 11, 13], 3);

    let mut fewer_queries = proof.clone();
    fewer_queries.query_proofs.pop();
    assert_eq!(
        verify(&config, 2, &fewer_queries, &mut Transcript::new(vec![])),
        Err(FriError::MalformedProof)
    );

    let mut fewer_steps = proof.clone();
    fewer_steps.query_proofs[1].steps.pop();
    assert_eq!(
        verify(&config, 2, &fewer_steps, &mut Transcript::new(vec![])),
        Err(FriError::MalformedProof)
    );

    let mut not_canonical = proof.clone();
    not_canonical.query_proofs[0].steps[0].lo = u64::MAX;
    assert_eq!(
        verify(&config, 2, &not_canonical, &mut Transcript::new(vec![])),
        Err(FriError::MalformedProof)
    );

    // more rounds than the degree bound allows
    assert_eq!(
        verify(&config, 1, &proof, &mut Transcript::new(vec![])),
        Err(FriError::MalformedProof)
    );

    let mut other_index = proof.clone();
    other_index.query_proofs[2].index ^= 1;
    assert_eq!(
        verify(&config, 2, &other_index, &mut Transcript::new(vec![])),
        Err(FriError::MalformedProof)
    );
}

#[test]
fn longer_terminal_polynomial_violates_the_degree_bound() {
    let config = config(1, 3, 8);
    let mut proof = honest(&config, &vec![5, 7, 11, 13], 3);
    proof.final_poly.push(1);
    assert_eq!(
        verify(&config, 2, &proof, &mut Transcript::new(vec![])),
        Err(FriError::DegreeBoundViolation)
    );
}

#[test]
fn spoiled_witness_is_no_proof_of_work() {
    let config = config(1, 3, 12);
    let mut proof = honest(&config, &vec![5, 7, 11, 13], 3);
    proof.pow_witness ^= 1;
    assert_eq!(
        verify(&config, 2, &proof, &mut Transcript::new(vec![])),
        Err(FriError::ProofOfWorkFailure)
    );
}

#[test]
fn spoiled_path_fails_the_inclusion_proof() {
    let config = config(1, 3, 0);
    let proof = honest(&config, &vec![5, 7, 11, 13], 3);
    let challenges = challenges_of(&config, 3, &proof);

    let mut spoiled_path = proof.clone();
    spoiled_path.query_proofs[0].steps[0].opening_proof[0][0] ^= 1;
    assert_eq!(
        verify_challenges(&config, 2, &spoiled_path, &challenges),
        Err(FriError::InclusionProofFailure)
    );

    let mut spoiled_value = proof.clone();
    spoiled_value.query_proofs[1].steps[1].hi ^= 1;
    assert_eq!(
        verify_challenges(&config, 2, &spoiled_value, &challenges),
        Err(FriError::InclusionProofFailure)
    );

    let mut spoiled_commit = proof.clone();
    spoiled_commit.commit_phase_commits[1][31] ^= 0x80;
    assert_eq!(
        verify_challenges(&config, 2, &spoiled_commit, &challenges),
        Err(FriError::InclusionProofFailure)
    );
}

#[test]
fn other_challenge_fails_the_folding_consistency() {
    let config = config(1, 3, 0);
    let proof = honest(&config, &vec![5, 7, 11, 13], 3);
    let challenges = challenges_of(&config, 3, &proof);
    assert_eq!(verify_challenges(&config, 2, &proof, &challenges), Ok(()));

    let mut other_first = challenges.clone();
    other_first.betas[0] ^= 1;
    assert_eq!(
        verify_challenges(&config, 2, &proof, &other_first),
        Err(FriError::FoldingConsistencyFailure)
    );

    let mut other_last = challenges.clone();
    other_last.betas[1] ^= 1;
    assert_eq!(
        verify_challenges(&config, 2, &proof, &other_last),
        Err(FriError::FoldingConsistencyFailure)
    );
}

#[test]
fn other_terminal_polynomial_fails_the_folding_consistency() {
    let config = config(1, 3, 0);
    let proof = honest(&config, &vec![5, 7, 11, 13], 3);
    let challenges = challenges_of(&config, 3, &proof);
    let mut spoiled = proof.clone();
    spoiled.final_poly[0] ^= 1;
    assert_eq!(
        verify_challenges(&config, 2, &spoiled, &challenges),
        Err(FriError::FoldingConsistencyFailure)
    );
    let mut empty = proof.clone();
    empty.final_poly.clear();
    assert_eq!(
        verify_challenges(&config, 2, &empty, &challenges),
        Err(FriError::FoldingConsistencyFailure)
    );
}

#[test]
fn challenges_that_do_not_fit_the_proof_make_it_malformed() {
    let config = config(1, 3, 0);
    let proof = honest(&config, &vec![5, 7, 11, 13], 3);
    let challenges = challenges_of(&config, 3, &proof);
    let mut fewer_betas = challenges.clone();
    fewer_betas.betas.pop();
    assert_eq!(
        verify_challenges(&config, 2, &proof, &fewer_betas),
        Err(FriError::MalformedProof)
    );
    let mut fewer_indices = challenges.clone();
    fewer_indices.query_indices.pop();
    assert_eq!(
        verify_challenges(&config, 2, &proof, &fewer_indices),
        Err(FriError::MalformedProof)
    );
}

#[test]
fn first_failure_decides_the_error() {
    let config = config(1, 3, 0);
    let proof = honest(&config, &vec![5, 7, 11, 13], 3);
    let challenges = challenges_of(&config, 3, &proof);
    // the path of query 1 is spoiled, and so is the terminal polynomial, which
    // query 0 meets first
    let mut spoiled = proof.clone();
    spoiled.query_proofs[1].steps[0].opening_proof[0][0] ^= 1;
    spoiled.final_poly[0] ^= 1;
    assert_eq!(
        verify_challenges(&config, 2, &spoiled, &challenges),
        Err(FriError::FoldingConsistencyFailure)
    );
    // within one query the rounds come before the terminal polynomial
    let mut spoiled = proof.clone();
    spoiled.query_proofs[0].steps[1].opening_proof[0][0] ^= 1;
    spoiled.final_poly[0] ^= 1;
    assert_eq!(
        verify_challenges(&config, 2, &spoiled, &challenges),
        Err(FriError::InclusionProofFailure)
    );
}

#[test]
fn replay_yields_the_same_folds_every_time() {
    let config = config(1, 3, 0);
    let proof = honest(&config, &vec![5, 7, 11, 13, 17, 19, 23, 29], 4);
    let challenges = challenges_of(&config, 4, &proof);
    for query in &proof.query_proofs {
        let first = replay_folds(&query.steps, &challenges.betas, 4, query.index).unwrap();
        let second = replay_folds(&query.steps, &challenges.betas, 4, query.index).unwrap();
        assert_eq!(first, second);
        assert_eq!(first.len(), 3);
        assert_eq!(*first.last().unwrap(), proof.final_poly[0]);
        assert_eq!(
            verify_query(&proof.commit_phase_commits, &proof.final_poly, query, &challenges.betas, 4),
            Ok(())
        );
    }
}

#[test]
fn replay_needs_steps_and_challenges_that_pair_up() {
    let config = config(1, 3, 0);
    let proof = honest(&config, &vec![5, 7, 11, 13], 3);
    let challenges = challenges_of(&config, 3, &proof);
    let query = &proof.query_proofs[0];
    assert_eq!(replay_folds(&query.steps, &vec![1], 3, query.index), None);
    assert_eq!(replay_folds(&query.steps, &challenges.betas, 1, query.index), None);
    assert_eq!(replay_folds(&query.steps, &challenges.betas, 32, query.index), None);
    assert_eq!(
        verify_query(&proof.commit_phase_commits, &proof.final_poly, query, &vec![1], 3),
        Err(FriError::MalformedProof)
    );
}

#[test]
fn grinding_finds_a_witness_that_the_check_accepts() {
    for bits in 0..=12usize {
        let mut prover = Transcript::new(vec![7, 7, 7]);
        prover.observe_element(bits as u64);
        let mut verifier = prover.fork();
        let witness = prover.grind(bits).unwrap();
        assert!(verifier.check_grind(witness, bits));
        assert_eq!(prover.sample_field_element(), verifier.sample_field_element());
    }
}

#[test]
fn check_grind_rejects_a_witness_off_by_one_bit() {
    let mut prover = Transcript::new(vec![7, 7, 7]);
    let mut verifier = prover.fork();
    let witness = prover.grind(16).unwrap();
    assert!(!verifier.check_grind(witness ^ 1, 16));
}

#[test]
fn difficulty_beyond_the_transcript_is_never_met() {
    let mut transcript = Transcript::new(vec![]);
    assert_eq!(transcript.grind(64), None);
    assert!(!transcript.check_grind(0, 64));
    assert_eq!(transcript.sample_indices(3, 64), None);
}

#[test]
fn observing_bytes_is_observing_them_in_any_grouping() {
    let mut whole = Transcript::new(vec![1]);
    whole.observe(&vec![2, 3, 4, 5]);
    let mut parts = Transcript::new(vec![1, 2]);
    parts.observe(&vec![3]);
    parts.observe(&vec![]);
    parts.observe(&vec![4, 5]);
    let mut seeded = Transcript::new(vec![1, 2, 3, 4, 5]);
    let drawn = whole.sample_field_element();
    assert_eq!(drawn, parts.sample_field_element());
    assert_eq!(drawn, seeded.sample_field_element());
    let mut digest = Transcript::new(vec![]);
    digest.observe_digest(&[6u8; 32]);
    let mut bytes = Transcript::new(vec![]);
    bytes.observe(&vec![6u8; 32]);
    assert_eq!(digest.sample_field_element(), bytes.sample_field_element());
    let mut element = Transcript::new(vec![]);
    element.observe_element(0x0102_0304_0506_0708);
    let mut bytes = Transcript::new(vec![]);
    bytes.observe(&vec![8, 7, 6, 5, 4, 3, 2, 1]);
    assert_eq!(element.sample_field_element(), bytes.sample_field_element());
}

#[test]
fn observing_nothing_keeps_what_is_still_to_be_handed_out() {
    let mut a = Transcript::new(vec![1]);
    let mut b = Transcript::new(vec![1]);
    assert_eq!(a.sample_indices(1, 8), b.sample_indices(1, 8));
    a.observe(&vec![]);
    assert_eq!(a.sample_indices(3, 8), b.sample_indices(3, 8));
}

#[test]
fn transcript_is_a_function_of_what_it_absorbed() {
    let mut a = Transcript::new(vec![1, 2]);
    let mut b = Transcript::new(vec![1, 2]);
    let mut c = Transcript::new(vec![1, 3]);
    a.observe_digest(&[9u8; 32]);
    b.observe_digest(&[9u8; 32]);
    c.observe_digest(&[9u8; 32]);
    let from_a = a.sample_field_element();
    assert_eq!(from_a, b.sample_field_element());
    assert_ne!(from_a, c.sample_field_element());
    assert_eq!(a.sample_indices(5, 10), b.sample_indices(5, 10));
    for index in a.sample_indices(100, 3).unwrap() {
        assert!(index < 8);
    }
}
