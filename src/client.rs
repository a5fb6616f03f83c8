//! The client's side of a comparison: it keeps the best score it has been
//! told of, and encrypts its own vector under each public key it receives.
use vstd::prelude::*;

use crate::fe::{is_encryption, DdhFeCiphertext, DdhFePublicKey};
use crate::fuzzy_hashes::{bits_of, FHVector};
use crate::group::views;
use crate::messages::{EncryptionRequest, EncryptionResponse, HashComparisonRequest};
use rand::rngs::StdRng;

verus! {

/// What the client does after a request from the compute server.
pub enum ClientStep {
    /// Send this reply.
    Reply(EncryptionResponse<512>),
    /// The comparison is over, with this best score.
    Finished(i16),
}

/// The better of a score and a score that may have been reported.
pub open spec fn updated_score(score: i16, reported: Option<i16>) -> i16 {
    match reported {
        Some(s) => if score > s {
            score
        } else {
            s
        },
        None => score,
    }
}

/// Whether `r` replies with an encryption of the vector `x` under `pk`.
pub open spec fn encrypts_under(r: ClientStep, pk: DdhFePublicKey<512>, x: Seq<u8>) -> bool {
    match r {
        ClientStep::Reply(EncryptionResponse::EncryptedVector(ct)) => {
            &&& ct.wf()
            &&& exists|rand: Seq<u8>|
                #[trigger] is_encryption(pk.g@, pk.h@, views(pk.mpk@), rand, x, ct.c@, ct.d@, views(ct.e@))
        },
        _ => false,
    }
}

/// The opening message of a client that compares `fuzzy_hash`.
pub fn comparison_request(fuzzy_hash: &FHVector) -> (r: HashComparisonRequest)
    ensures
        r == HashComparisonRequest::NILSIMSA,
{
    match fuzzy_hash {
        FHVector::NilsimsaVector(_) => HashComparisonRequest::NILSIMSA,
    }
}

/// The client's session: its vector as bits, and the best score so far.
pub struct ClientSession {
    pub vector: [u8; 512],
    pub score: i16,
}

impl ClientSession {
    /// A session for `fuzzy_hash`, whose vector is fanned out into bits, with
    /// the lowest score.
    pub fn new(fuzzy_hash: &FHVector) -> (r: Self)
        ensures
            r.vector@ == bits_of(fuzzy_hash.bytes()),
            r.score == i16::MIN,
    {
        let vector = match fuzzy_hash.to_bits::<512>() {
            Ok(v) => v,
            Err(_) => [0u8; 512],
        };
        proof {
            match *fuzzy_hash {
                FHVector::NilsimsaVector(v) => {},
            }
        }
        ClientSession { vector, score: i16::MIN }
    }

    /// Takes a request of the compute server: the reported score raises the
    /// session's; with a public key, the reply is the session's vector
    /// encrypted under it with randomness from `rng`; without one, the
    /// comparison is over.
    pub fn on_request(&mut self, request: &EncryptionRequest<512>, rng: &mut StdRng) -> (r: ClientStep)
        requires
            request.pk matches Some(pk) ==> pk.wf(),
        ensures
            final(self).vector == old(self).vector,
            final(self).score == updated_score(old(self).score, request.similarity_score),
            request.pk is None ==> (r matches ClientStep::Finished(s) && s == final(self).score),
            request.pk matches Some(pk) ==> encrypts_under(r, pk, old(self).vector@),
    {
        match request.similarity_score {
            Some(s) => {
                if !(self.score > s) {
                    self.score = s;
                }
            },
            None => {},
        }
        match &request.pk {
            None => ClientStep::Finished(self.score),
            Some(pk) => {
                let ct: DdhFeCiphertext<512> = pk.encrypt(rng, self.vector);
                assert(ct.wf());
                let r = ClientStep::Reply(EncryptionResponse::EncryptedVector(ct));
                assert(r matches ClientStep::Reply(EncryptionResponse::EncryptedVector(c)) && c == ct);
                assert(encrypts_under(r, *pk, old(self).vector@));
                r
            },
        }
    }
}

} // verus!
