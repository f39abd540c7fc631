//! The flat byte encoding of a proof, and its inverse.
//!
//! Fields are written in the order of the proof: the commitment list, the
//! answers to the queries in query order, the coefficients of the terminal
//! polynomial, the proof-of-work witness. A number is written as eight
//! little-endian bytes, a digest as its 32 bytes, a list as its length
//! followed by its items.

use vstd::array::array_as_slice;
use vstd::bytes::{
    lemma_auto_spec_u64_to_from_le_bytes,
    spec_u64_from_le_bytes,
    spec_u64_to_le_bytes,
    u64_from_le_bytes,
    u64_to_le_bytes,
};
use vstd::prelude::*;
use vstd::slice::slice_subrange;

use crate::fri_proof::{
    digest_views,
    query_views,
    step_views,
    CommitPhaseStep,
    Digest,
    FriProof,
    ProofView,
    QueryProof,
    QueryView,
    StepView,
};

verus! {

/// The encoding of a number.
pub open spec fn put_word(value: u64) -> Seq<u8> {
    spec_u64_to_le_bytes(value)
}

/// The number at the front of `bytes`, and the bytes after it.
pub open spec fn take_word(bytes: Seq<u8>) -> Option<(u64, Seq<u8>)> {
    if bytes.len() >= 8 {
        Some((spec_u64_from_le_bytes(bytes.subrange(0, 8)), bytes.skip(8)))
    } else {
        None
    }
}

/// The encoding of a digest: its bytes.
pub open spec fn put_digest(digest: Seq<u8>) -> Seq<u8> {
    digest
}

/// The digest at the front of `bytes`, and the bytes after it.
pub open spec fn take_digest(bytes: Seq<u8>) -> Option<(Seq<u8>, Seq<u8>)> {
    if bytes.len() >= 32 {
        Some((bytes.subrange(0, 32), bytes.skip(32)))
    } else {
        None
    }
}

/// The encodings of the items of a sequence, one after the other.
pub open spec fn put_items<T>(items: Seq<T>, put: spec_fn(T) -> Seq<u8>) -> Seq<u8>
    decreases items.len(),
{
    if items.len() == 0 {
        Seq::empty()
    } else {
        put(items[0]) + put_items(items.drop_first(), put)
    }
}

/// The `count` items at the front of `bytes`, and the bytes after them.
pub open spec fn take_items<T>(
    bytes: Seq<u8>,
    count: nat,
    take: spec_fn(Seq<u8>) -> Option<(T, Seq<u8>)>,
) -> Option<(Seq<T>, Seq<u8>)>
    decreases count,
{
    if count == 0 {
        Some((Seq::empty(), bytes))
    } else {
        match take(bytes) {
            None => None,
            Some((item, rest)) => match take_items(rest, (count - 1) as nat, take) {
                None => None,
                Some((items, after)) => Some((seq![item] + items, after)),
            },
        }
    }
}

/// The encoding of a list: its length, then its items.
pub open spec fn put_list<T>(items: Seq<T>, put: spec_fn(T) -> Seq<u8>) -> Seq<u8> {
    put_word(items.len() as u64) + put_items(items, put)
}

/// The list at the front of `bytes`, and the bytes after it.
pub open spec fn take_list<T>(
    bytes: Seq<u8>,
    take: spec_fn(Seq<u8>) -> Option<(T, Seq<u8>)>,
) -> Option<(Seq<T>, Seq<u8>)> {
    match take_word(bytes) {
        None => None,
        Some((count, rest)) => take_items(rest, count as nat, take),
    }
}

/// The encoding of one step of a query: the two evaluations, then the path.
pub open spec fn put_step(step: StepView) -> Seq<u8> {
    put_word(step.lo) + put_word(step.hi) + put_list(step.path, |d: Seq<u8>| put_digest(d))
}

/// The step at the front of `bytes`, and the bytes after it.
pub open spec fn take_step(bytes: Seq<u8>) -> Option<(StepView, Seq<u8>)> {
    match take_word(bytes) {
        None => None,
        Some((lo, rest)) => match take_word(rest) {
            None => None,
            Some((hi, rest)) => match take_list(rest, |b: Seq<u8>| take_digest(b)) {
                None => None,
                Some((path, rest)) => Some((StepView { lo, hi, path }, rest)),
            },
        },
    }
}

/// The encoding of one query answer: the index, then the steps.
pub open spec fn put_query(query: QueryView) -> Seq<u8> {
    put_word(query.index as u64) + put_list(query.steps, |s: StepView| put_step(s))
}

/// The query answer at the front of `bytes`, and the bytes after it. An index
/// that does not fit the machine is no index.
pub open spec fn take_query(bytes: Seq<u8>) -> Option<(QueryView, Seq<u8>)> {
    match take_word(bytes) {
        None => None,
        Some((index, rest)) => if index > usize::MAX {
            None
        } else {
            match take_list(rest, |b: Seq<u8>| take_step(b)) {
                None => None,
                Some((steps, rest)) => Some((QueryView { index: index as usize, steps }, rest)),
            }
        },
    }
}

/// The encoding of a proof.
pub open spec fn put_proof(proof: ProofView) -> Seq<u8> {
    put_list(proof.commits, |d: Seq<u8>| put_digest(d)) + put_list(
        proof.queries,
        |q: QueryView| put_query(q),
    ) + put_list(proof.final_poly, |v: u64| put_word(v)) + put_word(proof.pow_witness)
}

/// The proof at the front of `bytes`, and the bytes after it.
pub open spec fn take_proof(bytes: Seq<u8>) -> Option<(ProofView, Seq<u8>)> {
    match take_list(bytes, |b: Seq<u8>| take_digest(b)) {
        None => None,
        Some((commits, rest)) => match take_list(rest, |b: Seq<u8>| take_query(b)) {
            None => None,
            Some((queries, rest)) => match take_list(rest, |b: Seq<u8>| take_word(b)) {
                None => None,
                Some((final_poly, rest)) => match take_word(rest) {
                    None => None,
                    Some((pow_witness, rest)) => Some(
                        (ProofView { commits, final_poly, queries, pow_witness }, rest),
                    ),
                },
            },
        },
    }
}

/// The proof that `bytes` encode: the proof at their front, where nothing
/// comes after it.
pub open spec fn decoded(bytes: Seq<u8>) -> Option<ProofView> {
    match take_proof(bytes) {
        Some((proof, rest)) => if rest.len() == 0 {
            Some(proof)
        } else {
            None
        },
        None => None,
    }
}

/// Whether every digest of a sequence has 32 bytes.
pub open spec fn digests_sized(digests: Seq<Seq<u8>>) -> bool {
    forall|i: int| 0 <= i < digests.len() ==> (#[trigger] digests[i]).len() == 32
}

/// Whether a step is one that an encoding can hold: its path has a length
/// that fits a number and its digests have 32 bytes.
pub open spec fn step_encodable(step: StepView) -> bool {
    step.path.len() <= u64::MAX && digests_sized(step.path)
}

/// Whether a query answer is one that an encoding can hold.
pub open spec fn query_encodable(query: QueryView) -> bool {
    query.steps.len() <= u64::MAX && forall|i: int|
        0 <= i < query.steps.len() ==> step_encodable(#[trigger] query.steps[i])
}

/// Whether a proof is one that an encoding can hold: every list has a length
/// that fits a number, and every digest has 32 bytes. The view of a proof
/// held in memory always is.
pub open spec fn proof_encodable(proof: ProofView) -> bool {
    &&& proof.commits.len() <= u64::MAX
    &&& digests_sized(proof.commits)
    &&& proof.final_poly.len() <= u64::MAX
    &&& proof.queries.len() <= u64::MAX
    &&& forall|i: int| 0 <= i < proof.queries.len() ==> query_encodable(#[trigger] proof.queries[i])
}

/// A number that was written is the number that is read back.
pub proof fn lemma_word_round_trip(value: u64, rest: Seq<u8>)
    ensures
        take_word(put_word(value) + rest) == Some((value, rest)),
{
    lemma_auto_spec_u64_to_from_le_bytes();
    let bytes = put_word(value) + rest;
    assert(bytes.subrange(0, 8) =~= put_word(value));
    assert(bytes.skip(8) =~= rest);
}

/// A digest that was written is the digest that is read back.
pub proof fn lemma_digest_round_trip(digest: Seq<u8>, rest: Seq<u8>)
    requires
        digest.len() == 32,
    ensures
        take_digest(put_digest(digest) + rest) == Some((digest, rest)),
{
    let bytes = put_digest(digest) + rest;
    assert(bytes.subrange(0, 32) =~= digest);
    assert(bytes.skip(32) =~= rest);
}

/// Items that were written one after the other are read back one after the
/// other, where each of them is read back as it was written.
pub proof fn lemma_items_round_trip<T>(
    items: Seq<T>,
    rest: Seq<u8>,
    put: spec_fn(T) -> Seq<u8>,
    take: spec_fn(Seq<u8>) -> Option<(T, Seq<u8>)>,
)
    requires
        forall|i: int, after: Seq<u8>|
            0 <= i < items.len() ==> #[trigger] take(put(items[i]) + after) == Some(
                (items[i], after),
            ),
    ensures
        take_items(put_items(items, put) + rest, items.len(), take) == Some((items, rest)),
    decreases items.len(),
{
    if items.len() == 0 {
        assert(put_items(items, put) + rest =~= rest);
        assert(items =~= Seq::<T>::empty());
    } else {
        let tail = items.drop_first();
        let after = put_items(tail, put) + rest;
        assert(put_items(items, put) + rest =~= put(items[0]) + after);
        assert(take(put(items[0]) + after) == Some((items[0], after)));
        assert forall|i: int, a: Seq<u8>| 0 <= i < tail.len() implies #[trigger] take(
            put(tail[i]) + a,
        ) == Some((tail[i], a)) by {
            assert(tail[i] == items[i + 1]);
        }
        lemma_items_round_trip(tail, rest, put, take);
        assert(seq![items[0]] + tail =~= items);
    }
}

/// A list that was written is the list that is read back, where its length
/// fits a number and each of its items is read back as it was written.
pub proof fn lemma_list_round_trip<T>(
    items: Seq<T>,
    rest: Seq<u8>,
    put: spec_fn(T) -> Seq<u8>,
    take: spec_fn(Seq<u8>) -> Option<(T, Seq<u8>)>,
)
    requires
        items.len() <= u64::MAX,
        forall|i: int, after: Seq<u8>|
            0 <= i < items.len() ==> #[trigger] take(put(items[i]) + after) == Some(
                (items[i], after),
            ),
    ensures
        take_list(put_list(items, put) + rest, take) == Some((items, rest)),
{
    let body = put_items(items, put) + rest;
    assert(put_list(items, put) + rest =~= put_word(items.len() as u64) + body);
    lemma_word_round_trip(items.len() as u64, body);
    lemma_items_round_trip(items, rest, put, take);
}

/// A list of digests that was written is the list that is read back.
pub proof fn lemma_digests_round_trip(digests: Seq<Seq<u8>>, rest: Seq<u8>)
    requires
        digests.len() <= u64::MAX,
        digests_sized(digests),
    ensures
        take_list(put_list(digests, |d: Seq<u8>| put_digest(d)) + rest, |b: Seq<u8>| take_digest(b))
            == Some((digests, rest)),
{
    let put = |d: Seq<u8>| put_digest(d);
    let take = |b: Seq<u8>| take_digest(b);
    assert forall|i: int, after: Seq<u8>| 0 <= i < digests.len() implies #[trigger] take(
        put(digests[i]) + after,
    ) == Some((digests[i], after)) by {
        lemma_digest_round_trip(digests[i], after);
    }
    lemma_list_round_trip(digests, rest, put, take);
}

/// A step that was written is the step that is read back.
pub proof fn lemma_step_round_trip(step: StepView, rest: Seq<u8>)
    requires
        step_encodable(step),
    ensures
        take_step(put_step(step) + rest) == Some((step, rest)),
{
    let path = put_list(step.path, |d: Seq<u8>| put_digest(d));
    assert(put_step(step) + rest =~= put_word(step.lo) + (put_word(step.hi) + (path + rest)));
    lemma_word_round_trip(step.lo, put_word(step.hi) + (path + rest));
    lemma_word_round_trip(step.hi, path + rest);
    lemma_digests_round_trip(step.path, rest);
}

/// A query answer that was written is the query answer that is read back.
pub proof fn lemma_query_round_trip(query: QueryView, rest: Seq<u8>)
    requires
        query_encodable(query),
    ensures
        take_query(put_query(query) + rest) == Some((query, rest)),
{
    let put = |s: StepView| put_step(s);
    let take = |b: Seq<u8>| take_step(b);
    let steps = put_list(query.steps, put);
    assert(put_query(query) + rest =~= put_word(query.index as u64) + (steps + rest));
    lemma_word_round_trip(query.index as u64, steps + rest);
    assert forall|i: int, after: Seq<u8>| 0 <= i < query.steps.len() implies #[trigger] take(
        put(query.steps[i]) + after,
    ) == Some((query.steps[i], after)) by {
        lemma_step_round_trip(query.steps[i], after);
    }
    lemma_list_round_trip(query.steps, rest, put, take);
}

/// A proof that was written is the proof that is read back.
pub proof fn lemma_proof_round_trip(proof: ProofView, rest: Seq<u8>)
    requires
        proof_encodable(proof),
    ensures
        take_proof(put_proof(proof) + rest) == Some((proof, rest)),
{
    let put_q = |q: QueryView| put_query(q);
    let take_q = |b: Seq<u8>| take_query(b);
    let put_w = |v: u64| put_word(v);
    let take_w = |b: Seq<u8>| take_word(b);
    let commits = put_list(proof.commits, |d: Seq<u8>| put_digest(d));
    let queries = put_list(proof.queries, put_q);
    let coeffs = put_list(proof.final_poly, put_w);
    let witness = put_word(proof.pow_witness);
    assert(put_proof(proof) + rest =~= commits + (queries + (coeffs + (witness + rest))));
    lemma_digests_round_trip(proof.commits, queries + (coeffs + (witness + rest)));
    assert forall|i: int, after: Seq<u8>| 0 <= i < proof.queries.len() implies #[trigger] take_q(
        put_q(proof.queries[i]) + after,
    ) == Some((proof.queries[i], after)) by {
        lemma_query_round_trip(proof.queries[i], after);
    }
    lemma_list_round_trip(proof.queries, coeffs + (witness + rest), put_q, take_q);
    assert forall|i: int, after: Seq<u8>| 0 <= i < proof.final_poly.len() implies #[trigger] take_w(
        put_w(proof.final_poly[i]) + after,
    ) == Some((proof.final_poly[i], after)) by {
        lemma_word_round_trip(proof.final_poly[i], after);
    }
    lemma_list_round_trip(proof.final_poly, witness + rest, put_w, take_w);
    lemma_word_round_trip(proof.pow_witness, rest);
}

/// Round trip: decoding the encoding of a proof gives the proof back.
pub proof fn lemma_round_trip(proof: ProofView)
    requires
        proof_encodable(proof),
    ensures
        decoded(put_proof(proof)) == Some(proof),
{
    lemma_proof_round_trip(proof, Seq::empty());
    assert(put_proof(proof) + Seq::<u8>::empty() =~= put_proof(proof));
}

/// What was read so far, put in front of what is read from here on.
pub open spec fn prepend<T>(front: Seq<T>, parsed: Option<(Seq<T>, Seq<u8>)>) -> Option<
    (Seq<T>, Seq<u8>),
> {
    match parsed {
        None => None,
        Some((items, rest)) => Some((front + items, rest)),
    }
}

/// Writing one more item after the others appends its encoding.
pub proof fn lemma_put_items_push<T>(items: Seq<T>, item: T, put: spec_fn(T) -> Seq<u8>)
    ensures
        put_items(items.push(item), put) == put_items(items, put) + put(item),
    decreases items.len(),
{
    if items.len() == 0 {
        let one = items.push(item);
        assert(one.drop_first() =~= Seq::<T>::empty());
        assert(put_items(one.drop_first(), put) =~= Seq::<u8>::empty());
        assert(one[0] == item);
        assert(put_items(one, put) =~= put(item) + put_items(one.drop_first(), put));
        assert(put_items(one, put) =~= put(item));
        assert(put_items(items, put) + put(item) =~= put(item));
    } else {
        assert(items.push(item).drop_first() =~= items.drop_first().push(item));
        lemma_put_items_push(items.drop_first(), item, put);
        assert(put_items(items.push(item), put) =~= put_items(items, put) + put(item));
    }
}

/// Reading one item moves it from what is still to be read to what was read.
pub proof fn lemma_take_items_step<T>(
    bytes: Seq<u8>,
    count: nat,
    take: spec_fn(Seq<u8>) -> Option<(T, Seq<u8>)>,
    front: Seq<T>,
)
    requires
        count > 0,
    ensures
        take(bytes) is None ==> take_items(bytes, count, take) is None,
        take(bytes) matches Some((item, rest)) ==> prepend(front, take_items(bytes, count, take))
            == prepend(front.push(item), take_items(rest, (count - 1) as nat, take)),
{
    match take(bytes) {
        None => {},
        Some((item, rest)) => {
            match take_items(rest, (count - 1) as nat, take) {
                None => {},
                Some((items, after)) => {
                    assert(front + (seq![item] + items) =~= front.push(item) + items);
                },
            }
        },
    }
}

/// The view of a proof held in memory is one that an encoding can hold.
pub proof fn lemma_view_encodable(proof: FriProof)
    ensures
        proof_encodable(proof@),
{
    broadcast use vstd::array::array_len_matches_n;

    assert(proof.commit_phase_commits@.len() == proof.commit_phase_commits.len());
    assert(proof.final_poly@.len() == proof.final_poly.len());
    assert(proof.query_proofs@.len() == proof.query_proofs.len());
    assert forall|i: int| 0 <= i < proof@.commits.len() implies (#[trigger] proof@.commits[i]).len()
        == 32 by {
        assert(proof@.commits[i] == proof.commit_phase_commits@[i]@);
    }
    assert forall|i: int| 0 <= i < proof@.queries.len() implies query_encodable(
        #[trigger] proof@.queries[i],
    ) by {
        let query = proof.query_proofs@[i];
        assert(proof@.queries[i] == query@);
        assert(query.steps@.len() == query.steps.len());
        assert forall|r: int| 0 <= r < query@.steps.len() implies step_encodable(
            #[trigger] query@.steps[r],
        ) by {
            let step = query.steps@[r];
            assert(query@.steps[r] == step@);
            assert(step.opening_proof@.len() == step.opening_proof.len());
            assert forall|j: int| 0 <= j < step@.path.len() implies (#[trigger] step@.path[j]).len()
                == 32 by {
                assert(step@.path[j] == step.opening_proof@[j]@);
            }
        }
    }
}

/// Appends the encoding of a number.
fn write_word(out: &mut Vec<u8>, value: u64)
    ensures
        final(out)@ == old(out)@ + put_word(value),
{
    let bytes = u64_to_le_bytes(value);
    out.extend_from_slice(bytes.as_slice());
}

/// Appends the encoding of a digest.
fn write_digest(out: &mut Vec<u8>, digest: &Digest)
    ensures
        final(out)@ == old(out)@ + put_digest(digest@),
{
    out.extend_from_slice(array_as_slice(digest));
}

/// Appends the encoding of a list of digests.
fn write_digests(out: &mut Vec<u8>, digests: &Vec<Digest>)
    ensures
        final(out)@ == old(out)@ + put_list(digest_views(digests@), |d: Seq<u8>| put_digest(d)),
{
    let ghost put = |d: Seq<u8>| put_digest(d);
    let ghost items = digest_views(digests@);
    write_word(out, digests.len() as u64);
    let mut k: usize = 0;
    assert(items.take(0) =~= Seq::<Seq<u8>>::empty());
    assert(put_items(items.take(0), put) =~= Seq::<u8>::empty());
    while k < digests.len()
        invariant
            k <= digests@.len(),
            items == digest_views(digests@),
            put == |d: Seq<u8>| put_digest(d),
            out@ == old(out)@ + put_word(digests@.len() as u64) + put_items(items.take(k as int), put),
        decreases digests@.len() - k,
    {
        proof {
            lemma_put_items_push(items.take(k as int), items[k as int], put);
            assert(items.take(k + 1) =~= items.take(k as int).push(items[k as int]));
        }
        write_digest(out, &digests[k]);
        assert(out@ =~= old(out)@ + put_word(digests@.len() as u64) + put_items(
            items.take(k + 1),
            put,
        ));
        k = k + 1;
    }
    assert(items.take(k as int) =~= items);
    assert(out@ =~= old(out)@ + put_list(items, put));
}

/// Appends the encoding of a list of numbers.
fn write_words(out: &mut Vec<u8>, values: &Vec<u64>)
    ensures
        final(out)@ == old(out)@ + put_list(values@, |v: u64| put_word(v)),
{
    let ghost put = |v: u64| put_word(v);
    let ghost items = values@;
    write_word(out, values.len() as u64);
    let mut k: usize = 0;
    assert(items.take(0) =~= Seq::<u64>::empty());
    assert(put_items(items.take(0), put) =~= Seq::<u8>::empty());
    while k < values.len()
        invariant
            k <= values@.len(),
            items == values@,
            put == |v: u64| put_word(v),
            out@ == old(out)@ + put_word(values@.len() as u64) + put_items(items.take(k as int), put),
        decreases values@.len() - k,
    {
        proof {
            lemma_put_items_push(items.take(k as int), items[k as int], put);
            assert(items.take(k + 1) =~= items.take(k as int).push(items[k as int]));
        }
        write_word(out, values[k]);
        assert(out@ =~= old(out)@ + put_word(values@.len() as u64) + put_items(
            items.take(k + 1),
            put,
        ));
        k = k + 1;
    }
    assert(items.take(k as int) =~= items);
    assert(out@ =~= old(out)@ + put_list(items, put));
}

/// Appends the encoding of one step of a query.
fn write_step(out: &mut Vec<u8>, step: &CommitPhaseStep)
    ensures
        final(out)@ == old(out)@ + put_step(step@),
{
    write_word(out, step.lo);
    write_word(out, step.hi);
    write_digests(out, &step.opening_proof);
    assert(out@ =~= old(out)@ + put_step(step@));
}

/// Appends the encoding of one query answer.
fn write_query(out: &mut Vec<u8>, query: &QueryProof)
    ensures
        final(out)@ == old(out)@ + put_query(query@),
{
    let ghost put = |s: StepView| put_step(s);
    let ghost items = step_views(query.steps@);
    write_word(out, query.index as u64);
    write_word(out, query.steps.len() as u64);
    let mut k: usize = 0;
    assert(items.take(0) =~= Seq::<StepView>::empty());
    assert(put_items(items.take(0), put) =~= Seq::<u8>::empty());
    while k < query.steps.len()
        invariant
            k <= query.steps@.len(),
            items == step_views(query.steps@),
            put == |s: StepView| put_step(s),
            out@ == old(out)@ + put_word(query.index as u64) + put_word(
                query.steps@.len() as u64,
            ) + put_items(items.take(k as int), put),
        decreases query.steps@.len() - k,
    {
        proof {
            lemma_put_items_push(items.take(k as int), items[k as int], put);
            assert(items.take(k + 1) =~= items.take(k as int).push(items[k as int]));
        }
        write_step(out, &query.steps[k]);
        assert(out@ =~= old(out)@ + put_word(query.index as u64) + put_word(
            query.steps@.len() as u64,
        ) + put_items(items.take(k + 1), put));
        k = k + 1;
    }
    assert(items.take(k as int) =~= items);
    assert(out@ =~= old(out)@ + put_query(query@));
}

/// Appends the encoding of a list of query answers.
fn write_queries(out: &mut Vec<u8>, queries: &Vec<QueryProof>)
    ensures
        final(out)@ == old(out)@ + put_list(query_views(queries@), |q: QueryView| put_query(q)),
{
    let ghost put = |q: QueryView| put_query(q);
    let ghost items = query_views(queries@);
    write_word(out, queries.len() as u64);
    let mut k: usize = 0;
    assert(items.take(0) =~= Seq::<QueryView>::empty());
    assert(put_items(items.take(0), put) =~= Seq::<u8>::empty());
    while k < queries.len()
        invariant
            k <= queries@.len(),
            items == query_views(queries@),
            put == |q: QueryView| put_query(q),
            out@ == old(out)@ + put_word(queries@.len() as u64) + put_items(items.take(k as int), put),
        decreases queries@.len() - k,
    {
        proof {
            lemma_put_items_push(items.take(k as int), items[k as int], put);
            assert(items.take(k + 1) =~= items.take(k as int).push(items[k as int]));
        }
        write_query(out, &queries[k]);
        assert(out@ =~= old(out)@ + put_word(queries@.len() as u64) + put_items(
            items.take(k + 1),
            put,
        ));
        k = k + 1;
    }
    assert(items.take(k as int) =~= items);
    assert(out@ =~= old(out)@ + put_list(items, put));
}

/// Reads the number at position `pos`.
fn read_word(bytes: &Vec<u8>, pos: usize) -> (r: Option<(u64, usize)>)
    requires
        pos <= bytes@.len(),
    ensures
        match r {
            Some((value, next)) => pos <= next <= bytes@.len() && take_word(bytes@.skip(pos as int))
                == Some((value, bytes@.skip(next as int))),
            None => take_word(bytes@.skip(pos as int)) is None,
        },
{
    if bytes.len() - pos < 8 {
        return None;
    }
    let value = u64_from_le_bytes(slice_subrange(bytes.as_slice(), pos, pos + 8));
    proof {
        assert(bytes@.skip(pos as int).subrange(0, 8) =~= bytes@.subrange(pos as int, pos + 8));
        assert(bytes@.skip(pos as int).skip(8) =~= bytes@.skip(pos + 8));
    }
    Some((value, pos + 8))
}

/// Reads the digest at position `pos`.
fn read_digest(bytes: &Vec<u8>, pos: usize) -> (r: Option<(Digest, usize)>)
    requires
        pos <= bytes@.len(),
    ensures
        match r {
            Some((digest, next)) => pos <= next <= bytes@.len() && take_digest(
                bytes@.skip(pos as int),
            ) == Some((digest@, bytes@.skip(next as int))),
            None => take_digest(bytes@.skip(pos as int)) is None,
        },
{
    if bytes.len() - pos < 32 {
        return None;
    }
    let mut digest: Digest = [0u8;32];
    let mut i: usize = 0;
    while i < 32
        invariant
            i <= 32,
            pos + 32 <= bytes.len(),
            forall|j: int| 0 <= j < i ==> digest@[j] == bytes@[pos + j],
        decreases 32 - i,
    {
        digest[i] = bytes[pos + i];
        i = i + 1;
    }
    proof {
        assert(digest@ =~= bytes@.skip(pos as int).subrange(0, 32));
        assert(bytes@.skip(pos as int).skip(32) =~= bytes@.skip(pos + 32));
    }
    Some((digest, pos + 32))
}

/// Reads the list of digests at position `pos`.
fn read_digests(bytes: &Vec<u8>, pos: usize) -> (r: Option<(Vec<Digest>, usize)>)
    requires
        pos <= bytes@.len(),
    ensures
        match r {
            Some((digests, next)) => pos <= next <= bytes@.len() && take_list(
                bytes@.skip(pos as int),
                |b: Seq<u8>| take_digest(b),
            ) == Some((digest_views(digests@), bytes@.skip(next as int))),
            None => take_list(bytes@.skip(pos as int), |b: Seq<u8>| take_digest(b)) is None,
        },
{
    let ghost take = |b: Seq<u8>| take_digest(b);
    let (count, start) = match read_word(bytes, pos) {
        Some(x) => x,
        None => {
            return None;
        },
    };
    let mut out: Vec<Digest> = Vec::new();
    let mut cur: usize = start;
    let mut k: u64 = 0;
    assert(digest_views(out@) =~= Seq::<Seq<u8>>::empty());
    assert(prepend(
        Seq::<Seq<u8>>::empty(),
        take_items(bytes@.skip(start as int), count as nat, take),
    ) =~= take_items(bytes@.skip(start as int), count as nat, take)) by {
        lemma_prepend_nothing(take_items(bytes@.skip(start as int), count as nat, take));
    }
    while k < count
        invariant
            k <= count,
            pos <= cur <= bytes@.len(),
            take == |b: Seq<u8>| take_digest(b),
            take_list(bytes@.skip(pos as int), take) == take_items(
                bytes@.skip(start as int),
                count as nat,
                take,
            ),
            take_items(bytes@.skip(start as int), count as nat, take) == prepend(
                digest_views(out@),
                take_items(bytes@.skip(cur as int), (count - k) as nat, take),
            ),
        decreases count - k,
    {
        proof {
            lemma_take_items_step(
                bytes@.skip(cur as int),
                (count - k) as nat,
                take,
                digest_views(out@),
            );
        }
        match read_digest(bytes, cur) {
            None => {
                return None;
            },
            Some((digest, next)) => {
                assert(digest_views(out@.push(digest)) =~= digest_views(out@).push(digest@));
                out.push(digest);
                cur = next;
            },
        }
        k = k + 1;
    }
    proof {
        lemma_prepend_all(digest_views(out@), bytes@.skip(cur as int), take);
    }
    Some((out, cur))
}

/// Reads the list of numbers at position `pos`.
fn read_words(bytes: &Vec<u8>, pos: usize) -> (r: Option<(Vec<u64>, usize)>)
    requires
        pos <= bytes@.len(),
    ensures
        match r {
            Some((values, next)) => pos <= next <= bytes@.len() && take_list(
                bytes@.skip(pos as int),
                |b: Seq<u8>| take_word(b),
            ) == Some((values@, bytes@.skip(next as int))),
            None => take_list(bytes@.skip(pos as int), |b: Seq<u8>| take_word(b)) is None,
        },
{
    let ghost take = |b: Seq<u8>| take_word(b);
    let (count, start) = match read_word(bytes, pos) {
        Some(x) => x,
        None => {
            return None;
        },
    };
    let mut out: Vec<u64> = Vec::new();
    let mut cur: usize = start;
    let mut k: u64 = 0;
    proof {
        lemma_prepend_nothing(take_items(bytes@.skip(start as int), count as nat, take));
        assert(out@ =~= Seq::<u64>::empty());
    }
    while k < count
        invariant
            k <= count,
            pos <= cur <= bytes@.len(),
            take == |b: Seq<u8>| take_word(b),
            take_list(bytes@.skip(pos as int), take) == take_items(
                bytes@.skip(start as int),
                count as nat,
                take,
            ),
            take_items(bytes@.skip(start as int), count as nat, take) == prepend(
                out@,
                take_items(bytes@.skip(cur as int), (count - k) as nat, take),
            ),
        decreases count - k,
    {
        proof {
            lemma_take_items_step(bytes@.skip(cur as int), (count - k) as nat, take, out@);
        }
        match read_word(bytes, cur) {
            None => {
                return None;
            },
            Some((value, next)) => {
                out.push(value);
                cur = next;
            },
        }
        k = k + 1;
    }
    proof {
        lemma_prepend_all(out@, bytes@.skip(cur as int), take);
    }
    Some((out, cur))
}

/// Reads the step at position `pos`.
fn read_step(bytes: &Vec<u8>, pos: usize) -> (r: Option<(CommitPhaseStep, usize)>)
    requires
        pos <= bytes@.len(),
    ensures
        match r {
            Some((step, next)) => pos <= next <= bytes@.len() && take_step(bytes@.skip(pos as int))
                == Some((step@, bytes@.skip(next as int))),
            None => take_step(bytes@.skip(pos as int)) is None,
        },
{
    let (lo, after_lo) = match read_word(bytes, pos) {
        Some(x) => x,
        None => {
            return None;
        },
    };
    let (hi, after_hi) = match read_word(bytes, after_lo) {
        Some(x) => x,
        None => {
            return None;
        },
    };
    let (opening_proof, next) = match read_digests(bytes, after_hi) {
        Some(x) => x,
        None => {
            return None;
        },
    };
    Some((CommitPhaseStep { lo, hi, opening_proof }, next))
}

/// Reads the query answer at position `pos`.
fn read_query(bytes: &Vec<u8>, pos: usize) -> (r: Option<(QueryProof, usize)>)
    requires
        pos <= bytes@.len(),
    ensures
        match r {
            Some((query, next)) => pos <= next <= bytes@.len() && take_query(
                bytes@.skip(pos as int),
            ) == Some((query@, bytes@.skip(next as int))),
            None => take_query(bytes@.skip(pos as int)) is None,
        },
{
    let ghost take = |b: Seq<u8>| take_step(b);
    let (index, after_index) = match read_word(bytes, pos) {
        Some(x) => x,
        None => {
            return None;
        },
    };
    if index > usize::MAX as u64 {
        return None;
    }
    let (count, start) = match read_word(bytes, after_index) {
        Some(x) => x,
        None => {
            return None;
        },
    };
    let mut steps: Vec<CommitPhaseStep> = Vec::new();
    let mut cur: usize = start;
    let mut k: u64 = 0;
    proof {
        lemma_prepend_nothing(take_items(bytes@.skip(start as int), count as nat, take));
        assert(step_views(steps@) =~= Seq::<StepView>::empty());
    }
    while k < count
        invariant
            k <= count,
            pos <= cur <= bytes@.len(),
            take == |b: Seq<u8>| take_step(b),
            index <= usize::MAX,
            take_word(bytes@.skip(pos as int)) == Some((index, bytes@.skip(after_index as int))),
            take_list(bytes@.skip(after_index as int), take) == take_items(
                bytes@.skip(start as int),
                count as nat,
                take,
            ),
            take_items(bytes@.skip(start as int), count as nat, take) == prepend(
                step_views(steps@),
                take_items(bytes@.skip(cur as int), (count - k) as nat, take),
            ),
        decreases count - k,
    {
        proof {
            lemma_take_items_step(
                bytes@.skip(cur as int),
                (count - k) as nat,
                take,
                step_views(steps@),
            );
        }
        match read_step(bytes, cur) {
            None => {
                return None;
            },
            Some((step, next)) => {
                assert(step_views(steps@.push(step)) =~= step_views(steps@).push(step@));
                steps.push(step);
                cur = next;
            },
        }
        k = k + 1;
    }
    proof {
        lemma_prepend_all(step_views(steps@), bytes@.skip(cur as int), take);
    }
    Some((QueryProof { index: index as usize, steps }, cur))
}

/// Reads the list of query answers at position `pos`.
fn read_queries(bytes: &Vec<u8>, pos: usize) -> (r: Option<(Vec<QueryProof>, usize)>)
    requires
        pos <= bytes@.len(),
    ensures
        match r {
            Some((queries, next)) => pos <= next <= bytes@.len() && take_list(
                bytes@.skip(pos as int),
                |b: Seq<u8>| take_query(b),
            ) == Some((query_views(queries@), bytes@.skip(next as int))),
            None => take_list(bytes@.skip(pos as int), |b: Seq<u8>| take_query(b)) is None,
        },
{
    let ghost take = |b: Seq<u8>| take_query(b);
    let (count, start) = match read_word(bytes, pos) {
        Some(x) => x,
        None => {
            return None;
        },
    };
    let mut out: Vec<QueryProof> = Vec::new();
    let mut cur: usize = start;
    let mut k: u64 = 0;
    proof {
        lemma_prepend_nothing(take_items(bytes@.skip(start as int), count as nat, take));
        assert(query_views(out@) =~= Seq::<QueryView>::empty());
    }
    while k < count
        invariant
            k <= count,
            pos <= cur <= bytes@.len(),
            take == |b: Seq<u8>| take_query(b),
            take_list(bytes@.skip(pos as int), take) == take_items(
                bytes@.skip(start as int),
                count as nat,
                take,
            ),
            take_items(bytes@.skip(start as int), count as nat, take) == prepend(
                query_views(out@),
                take_items(bytes@.skip(cur as int), (count - k) as nat, take),
            ),
        decreases count - k,
    {
        proof {
            lemma_take_items_step(
                bytes@.skip(cur as int),
                (count - k) as nat,
                take,
                query_views(out@),
            );
        }
        match read_query(bytes, cur) {
            None => {
                return None;
            },
            Some((query, next)) => {
                assert(query_views(out@.push(query)) =~= query_views(out@).push(query@));
                out.push(query);
                cur = next;
            },
        }
        k = k + 1;
    }
    proof {
        lemma_prepend_all(query_views(out@), bytes@.skip(cur as int), take);
    }
    Some((out, cur))
}

/// Decodes a proof: the proof that the bytes encode, where they encode one
/// and nothing comes after it.
pub fn decode(bytes: &Vec<u8>) -> (r: Option<FriProof>)
    ensures
        match r {
            Some(proof) => decoded(bytes@) == Some(proof@),
            None => decoded(bytes@) is None,
        },
{
    assert(bytes@.skip(0) =~= bytes@);
    let (commit_phase_commits, after_commits) = match read_digests(bytes, 0) {
        Some(x) => x,
        None => {
            return None;
        },
    };
    let (query_proofs, after_queries) = match read_queries(bytes, after_commits) {
        Some(x) => x,
        None => {
            return None;
        },
    };
    let (final_poly, after_poly) = match read_words(bytes, after_queries) {
        Some(x) => x,
        None => {
            return None;
        },
    };
    let (pow_witness, end) = match read_word(bytes, after_poly) {
        Some(x) => x,
        None => {
            return None;
        },
    };
    if end != bytes.len() {
        return None;
    }
    Some(FriProof { commit_phase_commits, final_poly, query_proofs, pow_witness })
}

/// With nothing read so far, what is read from here on is all.
pub proof fn lemma_prepend_nothing<T>(parsed: Option<(Seq<T>, Seq<u8>)>)
    ensures
        prepend(Seq::<T>::empty(), parsed) == parsed,
{
    match parsed {
        None => {},
        Some((items, rest)) => {
            assert(Seq::<T>::empty() + items =~= items);
        },
    }
}

/// With nothing left to read, what was read so far is all.
pub proof fn lemma_prepend_all<T>(
    front: Seq<T>,
    bytes: Seq<u8>,
    take: spec_fn(Seq<u8>) -> Option<(T, Seq<u8>)>,
)
    ensures
        prepend(front, take_items(bytes, 0, take)) == Some((front, bytes)),
{
    assert(front + Seq::<T>::empty() =~= front);
}

/// Encodes a proof. Decoding the bytes gives the proof back.
pub fn encode(proof: &FriProof) -> (bytes: Vec<u8>)
    ensures
        bytes@ == put_proof(proof@),
        decoded(bytes@) == Some(proof@),
{
    let mut out: Vec<u8> = Vec::new();
    write_digests(&mut out, &proof.commit_phase_commits);
    write_queries(&mut out, &proof.query_proofs);
    write_words(&mut out, &proof.final_poly);
    write_word(&mut out, proof.pow_witness);
    proof {
        assert(out@ =~= put_proof(proof@));
        lemma_view_encodable(*proof);
        lemma_round_trip(proof@);
    }
    out
}

} // verus!
