use p3_fri::codec::{decode, encode};
use p3_fri::commit_phase::prove;
use p3_fri::fold::{domain_point, eval_poly};
use p3_fri::fri_proof::{check_canonical, check_shape, CommitPhaseStep, FriProof, QueryProof};
use p3_fri::transcript::Transcript;
use p3_fri::FriConfigImpl;

type Config = FriConfigImpl<u64, u64, (), (), ()>;

fn honest(log_blowup: usize, num_queries: usize, log_len: usize) -> FriProof {
    let config: Config = FriConfigImpl::new(log_blowup, num_queries, 4, ());
    let coeffs: Vec<u64> = (0..1u64 << (log_len - log_blowup)).map(|k| 7 * k + 1).collect();
    let codeword: Vec<u64> =
        (0..1usize << log_len).map(|i| eval_poly(&coeffs, domain_point(log_len, i))).collect();
    prove(&config, &codeword, &mut Transcript::new(vec![])).unwrap()
}

#[test]
fn small_proof_has_the_expected_bytes() {
    let proof = FriProof {
        commit_phase_commits: vec![[0xab; 32]],
        final_poly: vec![0x0102_0304_0506_0708],
        query_proofs: vec![QueryProof {
            index: 3,
            steps: vec![CommitPhaseStep { lo: 1, hi: 2, opening_proof: vec![[0xcd; 32]] }],
        }],
        pow_witness: 9,
    };
    let mut expected: Vec<u8> = vec![];
    expected.extend([1, 0, 0, 0, 0, 0, 0, 0]);
    expected.extend([0xab; 32]);
    expected.extend([1, 0, 0, 0, 0, 0, 0, 0]);
    expected.extend([3, 0, 0, 0, 0, 0, 0, 0]);
    expected.extend([1, 0, 0, 0, 0, 0, 0, 0]);
    expected.extend([1, 0, 0, 0, 0, 0, 0, 0]);
    expected.extend([2, 0, 0, 0, 0, 0, 0, 0]);
    expected.extend([1, 0, 0, 0, 0, 0, 0, 0]);
    expected.extend([0xcd; 32]);
    expected.extend([1, 0, 0, 0, 0, 0, 0, 0]);
    expected.extend([8, 7, 6, 5, 4, 3, 2, 1]);
    expected.extend([9, 0, 0, 0, 0, 0, 0, 0]);
    assert_eq!(encode(&proof), expected);
    assert_eq!(decode(&expected), Some(proof));
}

#[test]
fn empty_proof_round_trips() {
    let proof =
        FriProof { commit_phase_commits: vec![], final_poly: vec![], query_proofs: vec![], pow_witness: 0 };
    let bytes = encode(&proof);
    assert_eq!(bytes.len(), 32);
    assert_eq!(decode(&bytes), Some(proof));
}

#[test]
fn honest_proofs_round_trip() {
    for log_blowup in 1..=2usize {
        for num_queries in [1usize, 3, 10] {
            for log_len in [log_blowup, 3, 6] {
                let proof = honest(log_blowup, num_queries, log_len);
                assert_eq!(decode(&encode(&proof)), Some(proof));
            }
        }
    }
}

#[test]
fn ragged_proof_round_trips() {
    let proof = FriProof {
        commit_phase_commits: vec![[1; 32], [2; 32], [3; 32]],
        final_poly: vec![u64::MAX, 0, 5],
        query_proofs: vec![
            QueryProof { index: usize::MAX, steps: vec![] },
            QueryProof {
                index: 0,
                steps: vec![
                    CommitPhaseStep { lo: u64::MAX, hi: 0, opening_proof: vec![] },
                    CommitPhaseStep { lo: 4, hi: 5, opening_proof: vec![[6; 32], [7; 32]] },
                ],
            },
        ],
        pow_witness: u64::MAX,
    };
    assert_eq!(decode(&encode(&proof)), Some(proof));
}

#[test]
fn cut_or_extended_encoding_is_no_proof() {
    let bytes = encode(&honest(1, 2, 3));
    for cut in [0usize, 1, 7, 8, 40, bytes.len() / 2, bytes.len() - 1] {
        assert_eq!(decode(&bytes[..cut].to_vec()), None);
    }
    let mut extended = bytes.clone();
    extended.push(0);
    assert_eq!(decode(&extended), None);
}

#[test]
fn length_beyond_the_bytes_is_no_proof() {
    let mut bytes = vec![0xff; 8];
    bytes.extend([0u8; 64]);
    assert_eq!(decode(&bytes), None);
}

#[test]
fn shape_checks_tell_canonical_from_not() {
    assert!(check_canonical(&vec![]));
    assert!(check_canonical(&vec![0, 1, 0xFFFF_FFFF_0000_0000]));
    assert!(!check_canonical(&vec![0, 0xFFFF_FFFF_0000_0001]));
    let proof = honest(1, 2, 3);
    assert!(check_shape(&proof, 2));
    assert!(!check_shape(&proof, 3));
    let mut spoiled = proof.clone();
    spoiled.pow_witness = u64::MAX;
    assert!(!check_shape(&spoiled, 2));
}
