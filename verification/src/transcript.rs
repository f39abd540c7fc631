//! The Fiat-Shamir transcript: a byte transcript hashed with Keccak-256, from
//! which field elements and index bits are drawn.
//!
//! The transcript is `p3_challenger::SerializingChallenger64` over a
//! `HashChallenger`. It holds two byte buffers, and everything it hands out is
//! a function of those two: the bytes absorbed since the last hash, and the
//! bytes of the last hash that are still to be handed out.

use p3_challenger::{CanObserve, CanSample, CanSampleBits, GrindingChallenger};
use p3_challenger::{HashChallenger, SerializingChallenger64};
use p3_goldilocks::Goldilocks;
use p3_keccak::Keccak256Hash;
use vstd::arithmetic::power2::pow2;
use vstd::bytes::spec_u64_to_le_bytes;
use vstd::prelude::*;

use crate::field::{canonical, ORDER};

verus! {

/// A transcript. Prover and verifier each own one and feed it the same values
/// in the same order.
#[verifier::external_body]
pub struct Transcript {
    inner: SerializingChallenger64<Goldilocks, HashChallenger<u8, Keccak256Hash, 32>>,
}

/// The bytes absorbed since the last hash: the input buffer.
pub uninterp spec fn absorbed(transcript: Transcript) -> Seq<u8>;

/// The bytes of the last hash that are still to be handed out: the output buffer.
pub uninterp spec fn squeezed(transcript: Transcript) -> Seq<u8>;

/// What drawing a field element yields from the two buffers: the element, and
/// the two buffers afterwards.
pub uninterp spec fn sample_outcome(absorbed: Seq<u8>, squeezed: Seq<u8>) -> (
    u64,
    Seq<u8>,
    Seq<u8>,
);

/// What drawing `bits` bits yields from the two buffers: the bits as a number,
/// and the two buffers afterwards.
pub uninterp spec fn sample_bits_outcome(absorbed: Seq<u8>, squeezed: Seq<u8>, bits: nat) -> (
    usize,
    Seq<u8>,
    Seq<u8>,
);

/// What checking a proof-of-work witness yields from the two buffers: the
/// verdict, and the two buffers afterwards.
pub uninterp spec fn check_witness_outcome(
    absorbed: Seq<u8>,
    squeezed: Seq<u8>,
    bits: nat,
    witness: u64,
) -> (bool, Seq<u8>, Seq<u8>);

/// The state of a transcript: its two buffers.
pub struct TranscriptState {
    /// The bytes absorbed since the last hash.
    pub absorbed: Seq<u8>,
    /// The bytes of the last hash that are still to be handed out.
    pub squeezed: Seq<u8>,
}

/// The state of a transcript.
pub open spec fn state(transcript: Transcript) -> TranscriptState {
    TranscriptState { absorbed: absorbed(transcript), squeezed: squeezed(transcript) }
}

impl TranscriptState {
    /// The state after absorbing some bytes.
    pub open spec fn observe_bytes(self, bytes: Seq<u8>) -> TranscriptState {
        TranscriptState { absorbed: self.absorbed + bytes, squeezed: Seq::empty() }
    }

    /// The state after absorbing a commitment.
    pub open spec fn observe_digest(self, digest: [u8; 32]) -> TranscriptState {
        self.observe_bytes(digest@)
    }

    /// The state after absorbing a field element.
    pub open spec fn observe_element(self, value: u64) -> TranscriptState {
        self.observe_bytes(spec_u64_to_le_bytes(canonical(value as int) as u64))
    }

    /// The state after absorbing field elements one by one.
    pub open spec fn observe_elements(self, values: Seq<u64>) -> TranscriptState
        decreases values.len(),
    {
        if values.len() == 0 {
            self
        } else {
            self.observe_elements(values.drop_last()).observe_element(values.last())
        }
    }

    /// The field element drawn next, and the state after drawing it.
    pub open spec fn sample(self) -> (u64, TranscriptState) {
        let outcome = sample_outcome(self.absorbed, self.squeezed);
        (outcome.0, TranscriptState { absorbed: outcome.1, squeezed: outcome.2 })
    }

    /// The `bits` bits drawn next, and the state after drawing them.
    pub open spec fn sample_bits(self, bits: nat) -> (usize, TranscriptState) {
        let outcome = sample_bits_outcome(self.absorbed, self.squeezed, bits);
        (outcome.0, TranscriptState { absorbed: outcome.1, squeezed: outcome.2 })
    }

    /// The `count` indices of `bits` bits drawn next, and the state after
    /// drawing them.
    pub open spec fn sample_indices(self, count: nat, bits: nat) -> (Seq<usize>, TranscriptState)
        decreases count,
    {
        if count == 0 {
            (Seq::empty(), self)
        } else {
            let before = self.sample_indices((count - 1) as nat, bits);
            let drawn = before.1.sample_bits(bits);
            (before.0.push(drawn.0), drawn.1)
        }
    }

    /// Whether `witness` is a proof of work of difficulty `bits` in this
    /// state, and the state after checking it.
    pub open spec fn check_witness(self, bits: nat, witness: u64) -> (bool, TranscriptState) {
        let outcome = check_witness_outcome(self.absorbed, self.squeezed, bits, witness);
        (outcome.0, TranscriptState { absorbed: outcome.1, squeezed: outcome.2 })
    }
}

/// Drawing `count` indices yields `count` indices.
pub proof fn lemma_sample_indices_len(start: TranscriptState, count: nat, bits: nat)
    ensures
        start.sample_indices(count, bits).0.len() == count,
    decreases count,
{
    if count > 0 {
        lemma_sample_indices_len(start, (count - 1) as nat, bits);
    }
}

/// Whether a grinding difficulty is one the transcript can be asked for.
pub open spec fn grindable(bits: nat) -> bool {
    bits < 64 && bits < usize::BITS
}

/// Calls `SerializingChallenger64::from_hasher` with the Keccak-256 hasher.
/// Assumed: the input buffer is the seed and the output buffer is empty.
#[verifier::external_body]
fn challenger_from_seed(seed: Vec<u8>) -> (transcript: Transcript)
    ensures
        absorbed(transcript) == seed@,
        squeezed(transcript) == Seq::<u8>::empty(),
{
    Transcript { inner: SerializingChallenger64::from_hasher(seed, Keccak256Hash) }
}

/// Calls `Clone::clone` of the challenger. Assumed: both buffers are copied.
#[verifier::external_body]
fn challenger_clone(transcript: &Transcript) -> (copy: Transcript)
    ensures
        absorbed(copy) == absorbed(*transcript),
        squeezed(copy) == squeezed(*transcript),
{
    Transcript { inner: transcript.inner.clone() }
}

/// Calls `CanObserve::observe` of the challenger on a one-byte digest.
/// Assumed: the byte is appended to the input buffer and the output buffer is
/// emptied.
#[verifier::external_body]
fn challenger_observe_byte(transcript: &mut Transcript, byte: u8)
    ensures
        absorbed(*final(transcript)) == absorbed(*old(transcript)).push(byte),
        squeezed(*final(transcript)) == Seq::<u8>::empty(),
{
    transcript.inner.observe(p3_symmetric::Hash::<Goldilocks, u8, 1>::from([byte]));
}

/// Calls `CanObserve::observe` of the challenger on a 32-byte digest. Assumed:
/// the bytes are appended to the input buffer in order and the output buffer
/// is emptied.
#[verifier::external_body]
fn challenger_observe_digest(transcript: &mut Transcript, digest: &[u8; 32])
    ensures
        absorbed(*final(transcript)) == absorbed(*old(transcript)) + digest@,
        squeezed(*final(transcript)) == Seq::<u8>::empty(),
{
    transcript.inner.observe(p3_symmetric::Hash::<Goldilocks, u8, 32>::from(*digest));
}

/// Calls `CanObserve::observe` of the challenger on a field element. Assumed:
/// the eight little-endian bytes of the canonical representative are appended
/// to the input buffer and the output buffer is emptied.
#[verifier::external_body]
fn challenger_observe_element(transcript: &mut Transcript, value: u64)
    ensures
        absorbed(*final(transcript)) == absorbed(*old(transcript)) + spec_u64_to_le_bytes(
            canonical(value as int) as u64,
        ),
        squeezed(*final(transcript)) == Seq::<u8>::empty(),
{
    transcript.inner.observe(Goldilocks::new(value));
}

/// Calls `CanSample::sample` of the challenger for a Goldilocks element.
/// Assumed: element and buffers afterwards are functions of the buffers
/// before, and the element is canonical.
#[verifier::external_body]
fn challenger_sample(transcript: &mut Transcript) -> (value: u64)
    ensures
        (value, absorbed(*final(transcript)), squeezed(*final(transcript))) == sample_outcome(
            absorbed(*old(transcript)),
            squeezed(*old(transcript)),
        ),
        value < ORDER,
{
    let value: Goldilocks = transcript.inner.sample();
    p3_field::PrimeField64::as_canonical_u64(&value)
}

/// Calls `CanSampleBits::sample_bits` of the challenger, which panics where
/// `bits` does not fit. Assumed: bits and buffers afterwards are functions of
/// the buffers before, and the number is below `2^bits`.
#[verifier::external_body]
fn challenger_sample_bits(transcript: &mut Transcript, bits: usize) -> (value: usize)
    requires
        grindable(bits as nat),
    ensures
        (value, absorbed(*final(transcript)), squeezed(*final(transcript))) == sample_bits_outcome(
            absorbed(*old(transcript)),
            squeezed(*old(transcript)),
            bits as nat,
        ),
        value < pow2(bits as nat),
{
    transcript.inner.sample_bits(bits)
}

/// Calls `GrindingChallenger::check_witness` of the challenger. Assumed:
/// verdict and buffers afterwards are functions of the buffers before, the
/// difficulty and the witness.
#[verifier::external_body]
fn challenger_check_witness(transcript: &mut Transcript, bits: usize, witness: u64) -> (ok: bool)
    requires
        grindable(bits as nat),
    ensures
        (ok, absorbed(*final(transcript)), squeezed(*final(transcript))) == check_witness_outcome(
            absorbed(*old(transcript)),
            squeezed(*old(transcript)),
            bits as nat,
            witness,
        ),
{
    transcript.inner.check_witness(bits, Goldilocks::new(witness))
}

/// Calls `GrindingChallenger::grind` of the challenger, which panics where
/// `bits` does not fit and searches until it finds a witness. Assumed: the
/// witness is canonical, it is one that `check_witness` accepts on the
/// buffers before, and the buffers afterwards are those that this check
/// leaves.
#[verifier::external_body]
fn challenger_grind(transcript: &mut Transcript, bits: usize) -> (witness: u64)
    requires
        grindable(bits as nat),
    ensures
        (true, absorbed(*final(transcript)), squeezed(*final(transcript))) == check_witness_outcome(
            absorbed(*old(transcript)),
            squeezed(*old(transcript)),
            bits as nat,
            witness,
        ),
        witness < ORDER,
{
    p3_field::PrimeField64::as_canonical_u64(&transcript.inner.grind(bits))
}

impl Transcript {
    /// A transcript that has absorbed `seed` and nothing else.
    pub fn new(seed: Vec<u8>) -> (transcript: Self)
        ensures
            state(transcript) == (TranscriptState { absorbed: seed@, squeezed: Seq::empty() }),
    {
        challenger_from_seed(seed)
    }

    /// A second transcript in the same state.
    pub fn fork(&self) -> (copy: Self)
        ensures
            state(copy) == state(*self),
    {
        challenger_clone(self)
    }

    /// Absorbs bytes, in order. No byte at all leaves the transcript as it was.
    pub fn observe(&mut self, bytes: &Vec<u8>)
        ensures
            state(*final(self)) == if bytes@.len() == 0 {
                state(*old(self))
            } else {
                state(*old(self)).observe_bytes(bytes@)
            },
    {
        let mut k: usize = 0;
        while k < bytes.len()
            invariant
                k <= bytes@.len(),
                state(*self) == if k == 0 {
                    state(*old(self))
                } else {
                    state(*old(self)).observe_bytes(bytes@.take(k as int))
                },
            decreases bytes@.len() - k,
        {
            assert(bytes@.take(k + 1) =~= bytes@.take(k as int).push(bytes@[k as int]));
            assert(k == 0 ==> bytes@.take(0) =~= Seq::<u8>::empty());
            challenger_observe_byte(self, bytes[k]);
            assert(absorbed(*self) =~= absorbed(*old(self)) + bytes@.take(k + 1));
            k = k + 1;
        }
        assert(bytes@.take(k as int) =~= bytes@);
    }

    /// Absorbs a commitment.
    pub fn observe_digest(&mut self, digest: &[u8; 32])
        ensures
            state(*final(self)) == state(*old(self)).observe_digest(*digest),
    {
        challenger_observe_digest(self, digest)
    }

    /// Absorbs a field element, as the little-endian bytes of its canonical
    /// representative.
    pub fn observe_element(&mut self, value: u64)
        ensures
            state(*final(self)) == state(*old(self)).observe_element(value),
    {
        challenger_observe_element(self, value)
    }

    /// Absorbs field elements one by one.
    pub fn observe_elements(&mut self, values: &Vec<u64>)
        ensures
            state(*final(self)) == state(*old(self)).observe_elements(values@),
    {
        let mut k: usize = 0;
        assert(values@.take(0) =~= Seq::<u64>::empty());
        while k < values.len()
            invariant
                k <= values@.len(),
                state(*self) == state(*old(self)).observe_elements(values@.take(k as int)),
            decreases values@.len() - k,
        {
            assert(values@.take(k + 1).drop_last() =~= values@.take(k as int));
            self.observe_element(values[k]);
            k = k + 1;
        }
        assert(values@.take(k as int) =~= values@);
    }

    /// Draws a field element.
    pub fn sample_field_element(&mut self) -> (value: u64)
        ensures
            (value, state(*final(self))) == state(*old(self)).sample(),
            value < ORDER,
    {
        challenger_sample(self)
    }

    /// Draws `count` indices of `bits` bits each. A width that the transcript
    /// cannot be asked for gives `None` and leaves the transcript as it was.
    pub fn sample_indices(&mut self, count: usize, bits: usize) -> (indices: Option<Vec<usize>>)
        ensures
            indices is Some <==> grindable(bits as nat),
            indices matches Some(v) ==> (v@, state(*final(self))) == state(
                *old(self),
            ).sample_indices(count as nat, bits as nat) && forall|q: int|
                0 <= q < v@.len() ==> #[trigger] v@[q] < pow2(bits as nat),
            indices is None ==> *final(self) == *old(self),
    {
        if !(bits < 64 && bits < usize::BITS as usize) {
            return None;
        }
        let mut out: Vec<usize> = Vec::new();
        let mut q: usize = 0;
        while q < count
            invariant
                q <= count,
                grindable(bits as nat),
                (out@, state(*self)) == state(*old(self)).sample_indices(q as nat, bits as nat),
                forall|j: int| 0 <= j < out@.len() ==> #[trigger] out@[j] < pow2(bits as nat),
            decreases count - q,
        {
            let drawn = challenger_sample_bits(self, bits);
            out.push(drawn);
            q = q + 1;
        }
        Some(out)
    }

    /// Searches for a proof-of-work witness of difficulty `bits` and absorbs
    /// it: the witness is one that [`Transcript::check_grind`] accepts in the
    /// state before, and the state after is the one that this check leaves.
    /// A difficulty that the transcript cannot be asked for gives `None` and
    /// leaves the transcript as it was.
    pub fn grind(&mut self, bits: usize) -> (witness: Option<u64>)
        ensures
            witness is Some <==> grindable(bits as nat),
            witness matches Some(w) ==> w < ORDER && (true, state(*final(self))) == state(
                *old(self),
            ).check_witness(bits as nat, w),
            witness is None ==> *final(self) == *old(self),
    {
        if bits < 64 && bits < usize::BITS as usize {
            Some(challenger_grind(self, bits))
        } else {
            None
        }
    }

    /// Absorbs `witness` and tells whether it is a proof of work of difficulty
    /// `bits`. A difficulty that the transcript cannot be asked for is never
    /// met, and leaves the transcript as it was.
    pub fn check_grind(&mut self, witness: u64, bits: usize) -> (ok: bool)
        ensures
            grindable(bits as nat) ==> (ok, state(*final(self))) == state(
                *old(self),
            ).check_witness(bits as nat, witness),
            !grindable(bits as nat) ==> !ok && *final(self) == *old(self),
    {
        if bits < 64 && bits < usize::BITS as usize {
            challenger_check_witness(self, bits, witness)
        } else {
            false
        }
    }
}

} // verus!
