//! The messages that the authority, the compute server and the client
//! exchange, and the errors of the protocol.
use vstd::prelude::*;

use crate::compressed::{
    compresses_to, decompressible, decompresses_to, is_bit_key, CompressedDdhFeSecretKey,
};
use crate::fe::{DdhFeCiphertext, DdhFePublicKey, DdhFeSecretKey};
use crate::group::views;

verus! {

/// Why a request or a reply of the protocol was refused.
#[derive(Debug, Clone, Copy, PartialEq, Eq, Structural)]
pub enum ProtocolError {
    /// A request for an instance named no vector.
    EmptyRequest,
    /// A request for an instance named as many vectors as an instance has entries, or more.
    TooManyVectors,
    /// A request for an instance mixed kinds of fuzzy hashes.
    HeterogeneousVectors,
    /// A compact secret key could not be unpacked.
    Decompression,
}

/// The authority's reply to a request for an instance: the public key, and a
/// compact secret key for each vector of the request.
pub struct GenerateInstanceResponse<const N: usize>(
    pub DdhFePublicKey<N>,
    pub Vec<CompressedDdhFeSecretKey>,
);

impl<const N: usize> GenerateInstanceResponse<N> {
    /// The reply that carries `pk` and the compact forms of `sks`, whose
    /// vectors must be bit vectors.
    pub fn from_keys(pk: DdhFePublicKey<N>, sks: &Vec<DdhFeSecretKey<N>>) -> (r: Self)
        requires
            forall|i: int|
                0 <= i < sks.len() ==> (#[trigger] sks[i]).x.len() == N && is_bit_key(
                    views(sks[i].x@),
                ),
        ensures
            r.0 == pk,
            r.1.len() == sks.len(),
            forall|i: int| 0 <= i < sks.len() ==> compresses_to(#[trigger] sks[i], r.1[i]),
    {
        let mut compressed: Vec<CompressedDdhFeSecretKey> = Vec::new();
        let mut i: usize = 0;
        while i < sks.len()
            invariant
                0 <= i <= sks.len(),
                compressed.len() == i,
                forall|j: int|
                    0 <= j < sks.len() ==> (#[trigger] sks[j]).x.len() == N && is_bit_key(
                        views(sks[j].x@),
                    ),
                forall|j: int| 0 <= j < i ==> compresses_to(#[trigger] sks[j], compressed[j]),
            decreases sks.len() - i,
        {
            compressed.push(CompressedDdhFeSecretKey::from_secret_key(&sks[i]));
            i = i + 1;
        }
        GenerateInstanceResponse(pk, compressed)
    }

    /// The public key and the secret keys of the reply, unpacked; refused
    /// where one of the keys cannot be unpacked.
    pub fn decompress(self) -> (r: Result<(DdhFePublicKey<N>, Vec<DdhFeSecretKey<N>>), ProtocolError>)
        ensures
            r is Ok <==> forall|i: int| 0 <= i < self.1.len() ==> decompressible::<N>(#[trigger] self.1[i]),
            r matches Err(e) ==> e == ProtocolError::Decompression,
            r matches Ok((pk, sks)) ==> {
                &&& pk == self.0
                &&& sks.len() == self.1.len()
                &&& forall|i: int| 0 <= i < sks.len() ==> decompresses_to(self.1[i], #[trigger] sks[i])
            },
    {
        let GenerateInstanceResponse(pub_key, compressed) = self;
        let mut keys: Vec<DdhFeSecretKey<N>> = Vec::new();
        let mut i: usize = 0;
        while i < compressed.len()
            invariant
                0 <= i <= compressed.len(),
                compressed == self.1,
                keys.len() == i,
                forall|j: int| 0 <= j < i ==> decompressible::<N>(#[trigger] compressed[j]),
                forall|j: int| 0 <= j < i ==> decompresses_to(compressed[j], #[trigger] keys[j]),
            decreases compressed.len() - i,
        {
            match DdhFeSecretKey::<N>::try_from_compressed(&compressed[i]) {
                Ok(k) => keys.push(k),
                Err(_) => {
                    assert(!decompressible::<N>(self.1[i as int]));
                    return Err(ProtocolError::Decompression);
                },
            }
            i = i + 1;
        }
        Ok((pub_key, keys))
    }
}

/// The client's opening message: which kind of fuzzy hash it compares.
#[derive(Debug, Clone, Copy, PartialEq, Eq, Structural)]
pub enum HashComparisonRequest {
    /// Nilsimsa digests.
    NILSIMSA,
}

/// The compute server's message to the client: a public key to encrypt the
/// client's vector under, or none when the comparison is over, and the best
/// score so far.
pub struct EncryptionRequest<const N: usize> {
    pub pk: Option<DdhFePublicKey<N>>,
    pub similarity_score: Option<i16>,
}

/// The client's reply to an encryption request.
pub enum EncryptionResponse<const N: usize> {
    /// The client's vector, encrypted under the public key it was sent.
    EncryptedVector(DdhFeCiphertext<N>),
    /// The client ends the comparison.
    EndOfComparison,
}

} // verus!
