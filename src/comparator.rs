//! Similarity scores of Nilsimsa digests, computed from the decrypted inner
//! product of their vectors.
use vstd::prelude::*;

use crate::fe::{DdhFeCiphertext, DdhFeSecretKey};
use crate::fuzzy_hashes::{
    digest_vector, inner_product, invert_bytes, lemma_inner_product_inverse,
    lemma_inner_product_self, NILSIMSA_VECTOR_SIZE_BITS,
};
use crate::traits::FESecretKey;

verus! {

/// A key that scores an encrypted vector against its own.
pub trait Comparator<E, T>: Sized {
    /// Whether the key and the encrypted vector are fit to be compared.
    spec fn comparable(&self, encrypted_vector: E) -> bool;

    /// The score of the encrypted vector.
    spec fn comparison(&self, encrypted_vector: E) -> T;

    fn compare(&self, encrypted_vector: &E) -> (r: T)
        requires
            self.comparable(*encrypted_vector),
        ensures
            r == self.comparison(*encrypted_vector),
    ;
}

/// The similarity of two Nilsimsa digests whose vectors have inner product `d`:
/// `128 - (256 - d)`, from -128 for complementary digests to 128 for equal ones.
pub open spec fn nilsimsa_score(d: int) -> int {
    128 - ((NILSIMSA_VECTOR_SIZE_BITS / 2) as int - d)
}

impl Comparator<DdhFeCiphertext<512>, Option<i16>> for DdhFeSecretKey<512> {
    open spec fn comparable(&self, encrypted_vector: DdhFeCiphertext<512>) -> bool {
        self.wf() && encrypted_vector.wf()
    }

    /// The score of the inner product that decryption finds below 512, or
    /// `None` where it finds none.
    open spec fn comparison(&self, encrypted_vector: DdhFeCiphertext<512>) -> Option<i16> {
        match self.decryption(encrypted_vector, NILSIMSA_VECTOR_SIZE_BITS as nat) {
            Some(d) => Some(nilsimsa_score(d as int) as i16),
            None => None,
        }
    }

    fn compare(&self, encrypted_vector: &DdhFeCiphertext<512>) -> (r: Option<i16>) {
        match self.decrypt(encrypted_vector, NILSIMSA_VECTOR_SIZE_BITS as u16) {
            Some(d) => Some(128i16 - (((NILSIMSA_VECTOR_SIZE_BITS / 2) as i16) - (d as i16))),
            None => None,
        }
    }
}

/// A digest compared with itself scores 128.
pub proof fn lemma_identical_digests_score(h: Seq<u8>)
    requires
        h.len() == 32,
    ensures
        nilsimsa_score(inner_product(digest_vector(h), digest_vector(h))) == 128,
{
    lemma_inner_product_self(h);
}

/// A digest compared with its bitwise complement scores -128.
pub proof fn lemma_complementary_digests_score(h: Seq<u8>)
    requires
        h.len() == 32,
    ensures
        nilsimsa_score(inner_product(digest_vector(h), digest_vector(invert_bytes(h)))) == -128,
{
    lemma_inner_product_inverse(h);
}

} // verus!
