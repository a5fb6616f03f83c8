//! The interface of the functional-encryption scheme, and its implementation
//! by the DDH scheme of `fe`.
use vstd::prelude::*;

use crate::fe::{
    bounded_log, is_encryption, key_sum, small_scalars, DdhFeCiphertext, DdhFeInstance,
    DdhFePublicKey, DdhFeSecretKey,
};
use crate::group::{group_order, scalar_encoding, views, Bytes32};
use rand::rngs::StdRng;

verus! {

/// An instance of the scheme for vectors of length `N`, with public keys `P`
/// and secret keys `K`.
pub trait FEInstance<const N: usize, P, K>: Sized {
    /// Whether the instance is well formed.
    spec fn ready(&self) -> bool;

    /// Whether `pk` is the instance's public key.
    spec fn is_public_key(&self, pk: P) -> bool;

    /// Whether `sk` is the instance's secret key for `vector`.
    spec fn is_secret_key(&self, vector: Seq<u8>, sk: K) -> bool;

    /// A fresh instance, or `None` where no randomness can be had.
    fn setup() -> (r: Option<Self>)
        ensures
            r matches Some(i) ==> i.ready(),
    ;

    /// The instance's public key.
    fn public_key(&self) -> (r: P)
        requires
            self.ready(),
        ensures
            self.is_public_key(r),
    ;

    /// The instance's secret key for `vector`.
    fn secret_key(&self, vector: [u8; N]) -> (r: K)
        requires
            self.ready(),
        ensures
            self.is_secret_key(vector@, r),
    ;
}

/// A public key, which encrypts vectors of length `N` into ciphertexts `C`.
pub trait FEPubKey<const N: usize, C>: Sized {
    /// Whether the key is well formed.
    spec fn usable(&self) -> bool;

    /// Whether `ct` encrypts `vector` under the key, with some randomness.
    spec fn encrypts(&self, vector: Seq<u8>, ct: C) -> bool;

    /// The encryption of `vector`, with randomness drawn from `rng`.
    fn encrypt(&self, rng: &mut StdRng, vector: [u8; N]) -> (r: C)
        requires
            self.usable(),
        ensures
            self.encrypts(vector@, r),
    ;
}

/// A ciphertext, seen through its three parts.
pub trait FECipherText: Sized {
    spec fn c_view(&self) -> Seq<u8>;

    spec fn d_view(&self) -> Seq<u8>;

    spec fn e_view(&self) -> Seq<Seq<u8>>;

    /// The part `c = r * g`.
    fn get_c(&self) -> (r: Bytes32)
        ensures
            r@ == self.c_view(),
    ;

    /// The part `d = r * h`.
    fn get_d(&self) -> (r: Bytes32)
        ensures
            r@ == self.d_view(),
    ;

    /// The parts `e_i = x_i * g + r * mpk_i`.
    fn get_e(&self) -> (r: &Vec<Bytes32>)
        ensures
            views(r@) == self.e_view(),
    ;
}

/// A secret key, which turns a ciphertext into an inner product below a bound.
pub trait FESecretKey<C>: Sized {
    /// Whether the key and the ciphertext are fit to be combined.
    spec fn accepts(&self, ct: C) -> bool;

    /// The inner product that decryption finds below `bound`, if any.
    spec fn decryption(&self, ct: C, bound: nat) -> Option<nat>;

    /// The inner product of the ciphertext's vector and the key's, where it is below `bound`.
    fn decrypt(&self, ct: &C, bound: u16) -> (r: Option<u16>)
        requires
            self.accepts(*ct),
        ensures
            match r {
                Some(k) => k < bound && self.decryption(*ct, bound as nat) == Some(k as nat),
                None => self.decryption(*ct, bound as nat) is None,
            },
    ;
}

impl<const N: usize> FEInstance<N, DdhFePublicKey<N>, DdhFeSecretKey<N>> for DdhFeInstance<N> {
    open spec fn ready(&self) -> bool {
        self.wf()
    }

    open spec fn is_public_key(&self, pk: DdhFePublicKey<N>) -> bool {
        &&& pk.g == self.g
        &&& pk.h == self.h
        &&& pk.mpk@ == self.mpk@
        &&& pk.wf()
    }

    /// `sx = sum s_i * y_i` and `tx = sum t_i * y_i` modulo the group order,
    /// with `g` and the vector itself.
    open spec fn is_secret_key(&self, vector: Seq<u8>, sk: DdhFeSecretKey<N>) -> bool {
        &&& sk.g == self.g
        &&& sk.sx@ == scalar_encoding(key_sum(self.s_values(), vector, N as nat) % group_order())
        &&& sk.tx@ == scalar_encoding(key_sum(self.t_values(), vector, N as nat) % group_order())
        &&& views(sk.x@) == small_scalars(vector)
        &&& sk.wf()
    }

    fn setup() -> (r: Option<Self>) {
        DdhFeInstance::new()
    }

    fn public_key(&self) -> (r: DdhFePublicKey<N>) {
        self.get_public_key()
    }

    fn secret_key(&self, vector: [u8; N]) -> (r: DdhFeSecretKey<N>) {
        self.secret_key_gen(vector)
    }
}

impl<const N: usize> FEPubKey<N, DdhFeCiphertext<N>> for DdhFePublicKey<N> {
    open spec fn usable(&self) -> bool {
        self.wf()
    }

    open spec fn encrypts(&self, vector: Seq<u8>, ct: DdhFeCiphertext<N>) -> bool {
        &&& ct.wf()
        &&& exists|r: Seq<u8>|
            #[trigger] is_encryption(
                self.g@,
                self.h@,
                views(self.mpk@),
                r,
                vector,
                ct.c@,
                ct.d@,
                views(ct.e@),
            )
    }

    fn encrypt(&self, rng: &mut StdRng, vector: [u8; N]) -> (r: DdhFeCiphertext<N>) {
        DdhFePublicKey::encrypt(self, rng, vector)
    }
}

impl<const N: usize> FECipherText for DdhFeCiphertext<N> {
    open spec fn c_view(&self) -> Seq<u8> {
        self.c@
    }

    open spec fn d_view(&self) -> Seq<u8> {
        self.d@
    }

    open spec fn e_view(&self) -> Seq<Seq<u8>> {
        views(self.e@)
    }

    fn get_c(&self) -> (r: Bytes32) {
        self.c
    }

    fn get_d(&self) -> (r: Bytes32) {
        self.d
    }

    fn get_e(&self) -> (r: &Vec<Bytes32>) {
        &self.e
    }
}

impl<const N: usize> FESecretKey<DdhFeCiphertext<N>> for DdhFeSecretKey<N> {
    open spec fn accepts(&self, ct: DdhFeCiphertext<N>) -> bool {
        self.wf() && ct.wf()
    }

    open spec fn decryption(&self, ct: DdhFeCiphertext<N>, bound: nat) -> Option<nat> {
        bounded_log(self.g@, self.decryption_point(ct), bound)
    }

    fn decrypt(&self, ct: &DdhFeCiphertext<N>, bound: u16) -> (r: Option<u16>) {
        match self.decrypt_bf(ct, bound as u64) {
            Some(k) => Some(k as u16),
            None => None,
        }
    }
}

} // verus!
