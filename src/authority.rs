//! The authority: it checks a request for an instance, sets up a fresh
//! instance and derives a secret key for each requested vector.
use vstd::prelude::*;

use crate::compressed::{is_bit_key, packs};
use crate::fe::{key_sum, small_scalars, DdhFeInstance, DdhFeSecretKey};
use crate::fuzzy_hashes::{bits_of, lemma_bits_are_bits, FHVector, NILSIMSA_VECTOR_SIZE_BITS};
use crate::compressed::{key_bits, CompressedDdhFeSecretKey};
use crate::group::{group_order, scalar_encoding, small_scalar, views};
use crate::messages::{GenerateInstanceResponse, ProtocolError};
use rand::rngs::StdRng;

verus! {

/// An instance holds keys for fewer vectors than this in one request.
pub const SERVER_MAX_LEN: usize = NILSIMSA_VECTOR_SIZE_BITS;

/// Whether two vectors are of the same kind of fuzzy hash.
pub open spec fn same_kind(a: FHVector, b: FHVector) -> bool {
    match (a, b) {
        (FHVector::NilsimsaVector(_), FHVector::NilsimsaVector(_)) => true,
    }
}

fn is_same_kind(a: &FHVector, b: &FHVector) -> (r: bool)
    ensures
        r == same_kind(*a, *b),
{
    match (a, b) {
        (FHVector::NilsimsaVector(_), FHVector::NilsimsaVector(_)) => true,
    }
}

/// Whether `r` answers a request for `vectors` with the instance `inst`: its
/// public key, and for each vector `y` (as bits) the key `sx = sum s_i * y_i`,
/// `tx = sum t_i * y_i`, with `y` packed.
pub open spec fn answers(
    r: GenerateInstanceResponse<512>,
    inst: DdhFeInstance<512>,
    vectors: Seq<FHVector>,
) -> bool {
    &&& inst.wf()
    &&& r.0.g == inst.g
    &&& r.0.h == inst.h
    &&& r.0.mpk@ == inst.mpk@
    &&& r.0.wf()
    &&& r.1.len() == vectors.len()
    &&& forall|i: int|
        0 <= i < vectors.len() ==> compressed_key_for(
            #[trigger] r.1[i],
            inst,
            bits_of(vectors[i].bytes()),
        )
}

/// Whether `c` is the compact secret key of `inst` for the bit vector `y`.
pub open spec fn compressed_key_for(
    c: CompressedDdhFeSecretKey,
    inst: DdhFeInstance<512>,
    y: Seq<u8>,
) -> bool {
    &&& c.g == inst.g
    &&& c.sx@ == scalar_encoding(key_sum(inst.s_values(), y, 512) % group_order())
    &&& c.tx@ == scalar_encoding(key_sum(inst.t_values(), y, 512) % group_order())
    &&& packs(c.x@, y)
}

/// A request is accepted when it names at least one vector, fewer than
/// `SERVER_MAX_LEN`, all of one kind.
pub fn check_incomming_vectors(incomming_vectors: &Vec<FHVector>) -> (r: Result<(), ProtocolError>)
    ensures
        incomming_vectors.len() == 0 <==> r == Err::<(), ProtocolError>(ProtocolError::EmptyRequest),
        incomming_vectors.len() >= SERVER_MAX_LEN <==> r == Err::<(), ProtocolError>(
            ProtocolError::TooManyVectors,
        ),
        r is Ok <==> (0 < incomming_vectors.len() < SERVER_MAX_LEN && forall|i: int|
            0 <= i < incomming_vectors.len() ==> same_kind(
                #[trigger] incomming_vectors[i],
                incomming_vectors[0],
            )),
        r != Err::<(), ProtocolError>(ProtocolError::Decompression),
{
    if incomming_vectors.len() == 0 {
        return Err(ProtocolError::EmptyRequest);
    }
    if incomming_vectors.len() >= SERVER_MAX_LEN {
        return Err(ProtocolError::TooManyVectors);
    }
    let mut i: usize = 0;
    while i < incomming_vectors.len()
        invariant
            0 <= i <= incomming_vectors.len(),
            0 < incomming_vectors.len(),
            forall|j: int| 0 <= j < i ==> same_kind(#[trigger] incomming_vectors[j], incomming_vectors[0]),
        decreases incomming_vectors.len() - i,
    {
        if !is_same_kind(&incomming_vectors[i], &incomming_vectors[0]) {
            return Err(ProtocolError::HeterogeneousVectors);
        }
        i = i + 1;
    }
    Ok(())
}

/// Whether `k` is the secret key of `inst` for the bit vector `y`.
pub open spec fn key_for(k: DdhFeSecretKey<512>, inst: DdhFeInstance<512>, y: Seq<u8>) -> bool {
    &&& k.g == inst.g
    &&& k.sx@ == scalar_encoding(key_sum(inst.s_values(), y, 512) % group_order())
    &&& k.tx@ == scalar_encoding(key_sum(inst.t_values(), y, 512) % group_order())
    &&& k.x.len() == 512
    &&& key_bits(views(k.x@)) == y
    &&& is_bit_key(views(k.x@))
}

proof fn lemma_key_bits_of_bits(y: Seq<u8>)
    requires
        forall|i: int| 0 <= i < y.len() ==> #[trigger] y[i] <= 1,
    ensures
        key_bits(small_scalars(y)) == y,
        is_bit_key(small_scalars(y)),
{
    assert(small_scalar(0)[0] != small_scalar(1)[0]);
    assert(key_bits(small_scalars(y)) =~= y);
}

/// A fresh instance drawn from `rng`, its public key, and the compact secret
/// key of each requested vector, its bytes fanned out into 512 bits.
pub fn generate_parameters_nilsimsa(requested_vectors: &Vec<FHVector>, rng: &mut StdRng) -> (r:
    GenerateInstanceResponse<512>)
    ensures
        exists|inst: DdhFeInstance<512>| answers(r, inst, requested_vectors@),
{
    let instance = DdhFeInstance::<512>::new_with_rng(rng);
    let pk = instance.get_public_key();
    let mut sks: Vec<DdhFeSecretKey<512>> = Vec::new();
    let mut i: usize = 0;
    while i < requested_vectors.len()
        invariant
            0 <= i <= requested_vectors.len(),
            instance.wf(),
            sks.len() == i,
            forall|j: int|
                0 <= j < i ==> key_for(#[trigger] sks[j], instance, bits_of(requested_vectors[j].bytes())),
        decreases requested_vectors.len() - i,
    {
        let bits = match requested_vectors[i].to_bits::<512>() {
            Ok(b) => b,
            Err(_) => [0u8; 512],
        };
        proof {
            let bytes = requested_vectors[i as int].bytes();
            assert(bytes.len() == 64) by {
                match requested_vectors[i as int] {
                    FHVector::NilsimsaVector(v) => {},
                }
            }
            lemma_bits_are_bits(bytes);
            lemma_key_bits_of_bits(bits@);
        }
        let sk = instance.secret_key_gen(bits);
        assert(key_for(sk, instance, bits_of(requested_vectors[i as int].bytes())));
        sks.push(sk);
        i = i + 1;
    }
    let r = GenerateInstanceResponse::from_keys(pk, &sks);
    assert forall|j: int| 0 <= j < requested_vectors.len() implies compressed_key_for(
        #[trigger] r.1[j],
        instance,
        bits_of(requested_vectors@[j].bytes()),
    ) by {
        assert(key_for(sks[j], instance, bits_of(requested_vectors[j].bytes())));
    }
    assert(r.0.g == instance.g);
    assert(r.0.mpk@ == instance.mpk@);
    assert(r.0.wf());
    assert(r.1.len() == requested_vectors@.len());
    assert(answers(r, instance, requested_vectors@));
    r
}

/// The authority's answer to a request: refused as `check_incomming_vectors`
/// says, otherwise a fresh instance with a key for each vector.
pub fn handle_instance_request(requested_vectors: &Vec<FHVector>, rng: &mut StdRng) -> (r: Result<
    GenerateInstanceResponse<512>,
    ProtocolError,
>)
    ensures
        requested_vectors.len() == 0 <==> r matches Err(ProtocolError::EmptyRequest),
        requested_vectors.len() >= SERVER_MAX_LEN <==> r matches Err(ProtocolError::TooManyVectors),
        r is Ok <==> 0 < requested_vectors.len() < SERVER_MAX_LEN,
        r is Ok ==> exists|inst: DdhFeInstance<512>| answers(r->Ok_0, inst, requested_vectors@),
{
    match check_incomming_vectors(requested_vectors) {
        Ok(()) => {
            let resp = generate_parameters_nilsimsa(requested_vectors, rng);
            let ghost inst = choose|inst: DdhFeInstance<512>| answers(resp, inst, requested_vectors@);
            let r = Ok(resp);
            assert(answers(r->Ok_0, inst, requested_vectors@));
            r
        },
        Err(e) => Err(e),
    }
}

} // verus!
