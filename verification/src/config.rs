//! The parameter bundle shared, read-only, by prover and verifier.

use core::marker::PhantomData;

use vstd::arithmetic::power2::pow2;
use vstd::bits::{lemma_usize_pow2_no_overflow, lemma_usize_shl_is_mul};
use vstd::prelude::*;

verus! {

/// The parameters of one FRI instance together with the types of its collaborators.
///
/// The three numbers are exposed twice: as executable getters and as the
/// specification functions that contracts speak of.
pub trait FriConfig {
    /// The field the committed codewords are defined over.
    type Val;

    /// The field the folding challenges are drawn from.
    type Challenge;

    /// The commitment scheme used for the input codewords.
    type InputMmcs;

    /// The commitment scheme used for the folded codewords of the commit phase.
    type CommitPhaseMmcs;

    /// The Fiat-Shamir transcript.
    type Challenger;

    /// The commitment scheme of the commit phase, as contracts see it.
    spec fn spec_commit_phase_mmcs(&self) -> Self::CommitPhaseMmcs;

    /// The number of independent queries, as contracts see it.
    spec fn spec_num_queries(&self) -> nat;

    /// The base-two logarithm of the blowup factor, as contracts see it.
    spec fn spec_log_blowup(&self) -> nat;

    /// The grinding difficulty in bits, as contracts see it.
    spec fn spec_proof_of_work_bits(&self) -> nat;

    fn commit_phase_mmcs(&self) -> (mmcs: &Self::CommitPhaseMmcs)
        ensures
            *mmcs == self.spec_commit_phase_mmcs(),
    ;

    fn num_queries(&self) -> (n: usize)
        ensures
            n == self.spec_num_queries(),
    ;

    fn log_blowup(&self) -> (n: usize)
        ensures
            n == self.spec_log_blowup(),
    ;

    /// The rate expansion factor `2^log_blowup`: derived, never stored. It fits a
    /// `usize` only while `log_blowup` is below the width of that type.
    fn blowup(&self) -> (b: usize)
        requires
            self.spec_log_blowup() < usize::BITS,
        ensures
            b == pow2(self.spec_log_blowup()),
    {
        let log_blowup = self.log_blowup();
        proof {
            lemma_usize_pow2_no_overflow(log_blowup as nat);
            lemma_usize_shl_is_mul(1usize, log_blowup);
        }
        1usize << log_blowup
    }

    fn proof_of_work_bits(&self) -> (n: usize)
        ensures
            n == self.spec_proof_of_work_bits(),
    ;
}

/// Whether the parameters describe a usable instance: at least one bit of
/// redundancy and at least one query. Construction checks nothing; the
/// protocol entry points reject a configuration for which this is false.
pub open spec fn parameters_valid<C: FriConfig>(config: &C) -> bool {
    config.spec_log_blowup() >= 1 && config.spec_num_queries() >= 1
}

/// A plain implementation of [`FriConfig`] that stores the three numbers and the
/// commit-phase commitment scheme.
pub struct FriConfigImpl<Val, Challenge, InputMmcs, CommitPhaseMmcs, Challenger> {
    log_blowup: usize,
    num_queries: usize,
    proof_of_work_bits: usize,
    commit_phase_mmcs: CommitPhaseMmcs,
    _phantom: PhantomData<(Val, Challenge, InputMmcs, Challenger)>,
}

impl<Val, Challenge, InputMmcs, CommitPhaseMmcs, Challenger> FriConfigImpl<
    Val,
    Challenge,
    InputMmcs,
    CommitPhaseMmcs,
    Challenger,
> {
    /// Bundles the parameters as given. Nothing is rejected here: whether the
    /// numbers are usable is for the protocol to decide, see
    /// [`parameters_valid`].
    pub fn new(
        log_blowup: usize,
        num_queries: usize,
        proof_of_work_bits: usize,
        commit_phase_mmcs: CommitPhaseMmcs,
    ) -> (config: Self)
        ensures
            config.spec_log_blowup() == log_blowup,
            config.spec_num_queries() == num_queries,
            config.spec_proof_of_work_bits() == proof_of_work_bits,
            config.spec_commit_phase_mmcs() == commit_phase_mmcs,
    {
        Self { log_blowup, num_queries, commit_phase_mmcs, proof_of_work_bits, _phantom: PhantomData }
    }
}

impl<Val, Challenge, InputMmcs, CommitPhaseMmcs, Challenger> FriConfig for FriConfigImpl<
    Val,
    Challenge,
    InputMmcs,
    CommitPhaseMmcs,
    Challenger,
> {
    type Val = Val;

    type Challenge = Challenge;

    type InputMmcs = InputMmcs;

    type CommitPhaseMmcs = CommitPhaseMmcs;

    type Challenger = Challenger;

    closed spec fn spec_commit_phase_mmcs(&self) -> CommitPhaseMmcs {
        self.commit_phase_mmcs
    }

    closed spec fn spec_num_queries(&self) -> nat {
        self.num_queries as nat
    }

    closed spec fn spec_log_blowup(&self) -> nat {
        self.log_blowup as nat
    }

    closed spec fn spec_proof_of_work_bits(&self) -> nat {
        self.proof_of_work_bits as nat
    }

    fn commit_phase_mmcs(&self) -> (mmcs: &CommitPhaseMmcs) {
        &self.commit_phase_mmcs
    }

    fn num_queries(&self) -> (n: usize) {
        self.num_queries
    }

    fn log_blowup(&self) -> (n: usize) {
        self.log_blowup
    }

    fn proof_of_work_bits(&self) -> (n: usize) {
        self.proof_of_work_bits
    }
}

} // verus!
