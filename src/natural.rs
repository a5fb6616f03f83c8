//! Natural numbers held as their little-endian bytes, with arithmetic from
//! malachite. Every value that arithmetic returns is in canonical form: no
//! trailing zero byte, and zero as the empty string.
use vstd::prelude::*;
use vstd::arithmetic::power::pow;

use crate::group::le_value;
use malachite::base::num::arithmetic::traits::{ModMul, ModPow};
use malachite::base::num::conversion::traits::PowerOf2Digits;
use malachite::base::random::Seed;
use malachite::natural::random::uniform_random_natural_range;
use malachite::Natural;
use rand::RngCore;

verus! {

/// The canonical bytes of `v`: least significant first, no trailing zero.
pub open spec fn nat_bytes(v: nat) -> Seq<u8>
    decreases v,
{
    if v == 0 {
        Seq::empty()
    } else {
        seq![(v % 256) as u8] + nat_bytes(v / 256)
    }
}

/// The value of a byte string, as a natural number.
pub open spec fn nat_value(b: Seq<u8>) -> nat {
    le_value(b) as nat
}

pub proof fn lemma_le_value_nonneg(b: Seq<u8>)
    ensures
        le_value(b) >= 0,
    decreases b.len(),
{
    if b.len() > 0 {
        lemma_le_value_nonneg(b.subrange(1, b.len() as int));
    }
}

/// The first byte of a string bounds its value from below and fixes its parity.
pub proof fn lemma_le_value_first_byte(b: Seq<u8>)
    requires
        b.len() > 0,
    ensures
        le_value(b) >= b[0],
        le_value(b) % 2 == b[0] % 2,
{
    lemma_le_value_nonneg(b.subrange(1, b.len() as int));
}

/// The canonical bytes of `v` encode `v`.
pub proof fn lemma_nat_bytes_value(v: nat)
    ensures
        le_value(nat_bytes(v)) == v,
    decreases v,
{
    if v > 0 {
        lemma_nat_bytes_value(v / 256);
        let b = nat_bytes(v);
        assert(b.subrange(1, b.len() as int) =~= nat_bytes(v / 256));
    }
}

/// Two naturals are equal exactly when their canonical bytes are.
pub proof fn lemma_nat_bytes_injective(a: nat, b: nat)
    ensures
        (nat_bytes(a) == nat_bytes(b)) == (a == b),
{
    lemma_nat_bytes_value(a);
    lemma_nat_bytes_value(b);
}

/// The canonical bytes of a small number.
pub fn nat_from_u8(v: u8) -> (r: Vec<u8>)
    ensures
        r@ == nat_bytes(v as nat),
{
    if v == 0 {
        Vec::new()
    } else {
        let r = vec![v];
        assert(nat_bytes((v as nat) / 256) =~= Seq::<u8>::empty());
        assert(r@ =~= nat_bytes(v as nat));
        r
    }
}

/// Whether two byte strings are equal.
pub fn bytes_equal(a: &Vec<u8>, b: &Vec<u8>) -> (r: bool)
    ensures
        r == (a@ == b@),
{
    if a.len() != b.len() {
        return false;
    }
    let mut i: usize = 0;
    while i < a.len()
        invariant
            0 <= i <= a.len(),
            a.len() == b.len(),
            forall|j: int| 0 <= j < i ==> a@[j] == b@[j],
        decreases a.len() - i,
    {
        if a[i] != b[i] {
            return false;
        }
        i = i + 1;
    }
    assert(a@ =~= b@);
    true
}

/// A copy of a byte string.
pub fn copy_bytes(a: &Vec<u8>) -> (r: Vec<u8>)
    ensures
        r@ == a@,
{
    let mut r: Vec<u8> = Vec::new();
    let mut i: usize = 0;
    while i < a.len()
        invariant
            0 <= i <= a.len(),
            r@ == a@.subrange(0, i as int),
        decreases a.len() - i,
    {
        r.push(a[i]);
        i = i + 1;
        assert(r@ =~= a@.subrange(0, i as int));
    }
    assert(a@.subrange(0, a.len() as int) =~= a@);
    r
}

/// Relies on malachite's `Natural::mod_pow`, which asks for a base already
/// reduced modulo `m`: `b^e mod m`.
#[verifier::external_body]
pub(crate) fn nat_mod_pow(b: &Vec<u8>, e: &Vec<u8>, m: &Vec<u8>) -> (r: Vec<u8>)
    requires
        1 < nat_value(m@),
        nat_value(m@) % 2 == 1,
        nat_value(b@) < nat_value(m@),
    ensures
        r@ == nat_bytes((pow(nat_value(b@) as int, nat_value(e@)) % (nat_value(m@) as int)) as nat),
{
    let b = Natural::from_power_of_2_digits_asc(8, b.iter().copied()).unwrap();
    let e = Natural::from_power_of_2_digits_asc(8, e.iter().copied()).unwrap();
    let m = Natural::from_power_of_2_digits_asc(8, m.iter().copied()).unwrap();
    PowerOf2Digits::<u8>::to_power_of_2_digits_asc(&(&b).mod_pow(&e, &m), 8)
}

/// Relies on malachite's `Natural::mod_mul`, which asks for factors already
/// reduced modulo `m`: `a * b mod m`.
#[verifier::external_body]
pub(crate) fn nat_mod_mul(a: &Vec<u8>, b: &Vec<u8>, m: &Vec<u8>) -> (r: Vec<u8>)
    requires
        nat_value(a@) < nat_value(m@),
        nat_value(b@) < nat_value(m@),
    ensures
        r@ == nat_bytes(((nat_value(a@) * nat_value(b@)) % nat_value(m@)) as nat),
{
    let a = Natural::from_power_of_2_digits_asc(8, a.iter().copied()).unwrap();
    let b = Natural::from_power_of_2_digits_asc(8, b.iter().copied()).unwrap();
    let m = Natural::from_power_of_2_digits_asc(8, m.iter().copied()).unwrap();
    PowerOf2Digits::<u8>::to_power_of_2_digits_asc(&(&a).mod_mul(&b, &m), 8)
}

/// Relies on malachite's `Natural * Natural`.
#[verifier::external_body]
pub(crate) fn nat_mul(a: &Vec<u8>, b: &Vec<u8>) -> (r: Vec<u8>)
    ensures
        r@ == nat_bytes(nat_value(a@) * nat_value(b@)),
{
    let a = Natural::from_power_of_2_digits_asc(8, a.iter().copied()).unwrap();
    let b = Natural::from_power_of_2_digits_asc(8, b.iter().copied()).unwrap();
    PowerOf2Digits::<u8>::to_power_of_2_digits_asc(&(a * b), 8)
}

/// Relies on malachite's `Natural + Natural`.
#[verifier::external_body]
pub(crate) fn nat_add(a: &Vec<u8>, b: &Vec<u8>) -> (r: Vec<u8>)
    ensures
        r@ == nat_bytes(nat_value(a@) + nat_value(b@)),
{
    let a = Natural::from_power_of_2_digits_asc(8, a.iter().copied()).unwrap();
    let b = Natural::from_power_of_2_digits_asc(8, b.iter().copied()).unwrap();
    PowerOf2Digits::<u8>::to_power_of_2_digits_asc(&(a + b), 8)
}

/// Relies on malachite's `Natural - Natural`, which panics below zero.
#[verifier::external_body]
pub(crate) fn nat_sub(a: &Vec<u8>, b: &Vec<u8>) -> (r: Vec<u8>)
    requires
        nat_value(b@) <= nat_value(a@),
    ensures
        r@ == nat_bytes((nat_value(a@) - nat_value(b@)) as nat),
{
    let a = Natural::from_power_of_2_digits_asc(8, a.iter().copied()).unwrap();
    let b = Natural::from_power_of_2_digits_asc(8, b.iter().copied()).unwrap();
    PowerOf2Digits::<u8>::to_power_of_2_digits_asc(&(a - b), 8)
}

/// Relies on malachite's `uniform_random_natural_range`, seeded with 32 bytes
/// of `rng`: a uniform natural in `[2, m)`.
#[verifier::external_body]
pub(crate) fn random_natural_from_two(rng: &mut rand::rngs::StdRng, m: &Vec<u8>) -> (r: Vec<u8>)
    requires
        2 < nat_value(m@),
    ensures
        2 <= nat_value(r@) < nat_value(m@),
        r@ == nat_bytes(nat_value(r@)),
{
    let mut seed = [0u8; 32];
    rng.fill_bytes(&mut seed);
    let m = Natural::from_power_of_2_digits_asc(8, m.iter().copied()).unwrap();
    let mut range = uniform_random_natural_range(Seed::from_bytes(seed), Natural::from(2u32), m);
    PowerOf2Digits::<u8>::to_power_of_2_digits_asc(&range.next().unwrap(), 8)
}

/// The bytes of the 3072-bit safe prime of MODP group 15 (RFC 3526),
/// `2^3072 - 2^3008 - 1 + 2^64 * (floor(2^2942 * pi) + 1690314)`, least
/// significant first.
pub open spec fn dh15_prime_bytes() -> Seq<u8> {
    seq![
        0xff, 0xff, 0xff, 0xff, 0xff, 0xff, 0xff, 0xff, 0xca, 0xd2, 0x3a, 0xa9, 0x20, 0xd1, 0x82, 0x4b,
        0x8e, 0x10, 0xfd, 0xe0, 0xfc, 0x5b, 0xdb, 0x43, 0x31, 0xab, 0xe5, 0x74, 0xa0, 0x4f, 0xe2, 0x08,
        0xe2, 0x46, 0xd9, 0xba, 0xc0, 0x88, 0x09, 0x77, 0x6c, 0x5d, 0x61, 0x7a, 0x57, 0x17, 0xe1, 0xbb,
        0x0c, 0x20, 0x7b, 0x17, 0x18, 0x2b, 0x1f, 0x52, 0x64, 0x6a, 0xc8, 0x3e, 0x73, 0x02, 0x76, 0xd8,
        0x64, 0x08, 0x8a, 0xd9, 0x06, 0xfa, 0x2f, 0xf1, 0x6b, 0xee, 0xd2, 0x1a, 0x26, 0xd2, 0xe3, 0xce,
        0x9d, 0x61, 0x25, 0x4a, 0xe0, 0x94, 0x8c, 0x1e, 0xd7, 0x33, 0x09, 0xdb, 0x8c, 0xae, 0xf5, 0xab,
        0xc7, 0xe4, 0xe1, 0xa6, 0x85, 0x0f, 0x97, 0xb3, 0x7d, 0x0c, 0x06, 0x5d, 0x57, 0x71, 0xea, 0x8a,
        0x0a, 0xef, 0xdb, 0x58, 0x04, 0x85, 0xfb, 0xec, 0x64, 0xba, 0x1c, 0xdf, 0xab, 0x21, 0x55, 0xa8,
        0x33, 0x7a, 0x50, 0x04, 0x0d, 0x17, 0x33, 0xad, 0x2d, 0xc4, 0xaa, 0x8a, 0x5a, 0x8e, 0x72, 0x15,
        0x10, 0x05, 0xfa, 0x98, 0x18, 0x26, 0xd2, 0x15, 0xe5, 0x6a, 0x95, 0xea, 0x7c, 0x49, 0x95, 0x39,
        0x18, 0x17, 0x58, 0x95, 0xf6, 0xcb, 0x2b, 0xde, 0xc9, 0x52, 0x4c, 0x6f, 0xf0, 0x5d, 0xc5, 0xb5,
        0x8f, 0xa2, 0x07, 0xec, 0xa2, 0x83, 0x27, 0x9b, 0x03, 0x86, 0x0e, 0x18, 0x2c, 0x77, 0x9e, 0xe3,
        0x3b, 0xce, 0x36, 0x2e, 0x46, 0x5e, 0x90, 0x32, 0x7c, 0x21, 0x18, 0xca, 0x08, 0x6c, 0x74, 0xf1,
        0x04, 0x98, 0xbc, 0x4a, 0x4e, 0x35, 0x0c, 0x67, 0x6d, 0x96, 0x96, 0x70, 0x07, 0x29, 0xd5, 0x9e,
        0xbb, 0x52, 0x85, 0x20, 0x56, 0xf3, 0x62, 0x1c, 0x96, 0xad, 0xa3, 0xdc, 0x23, 0x5d, 0x65, 0x83,
        0x5f, 0xcf, 0x24, 0xfd, 0xa8, 0x3f, 0x16, 0x69, 0x9a, 0xd3, 0x55, 0x1c, 0x36, 0x48, 0xda, 0x98,
        0x05, 0xbf, 0x63, 0xa1, 0xb8, 0x7c, 0x00, 0xc2, 0x3d, 0x5b, 0xe4, 0xec, 0x51, 0x66, 0x28, 0x49,
        0xe6, 0x1f, 0x4b, 0x7c, 0x11, 0x24, 0x9f, 0xae, 0xa5, 0x9f, 0x89, 0x5a, 0xfb, 0x6b, 0x38, 0xee,
        0xed, 0xb7, 0x06, 0xf4, 0xb6, 0x5c, 0xff, 0x0b, 0x6b, 0xed, 0x37, 0xa6, 0xe9, 0x42, 0x4c, 0xf4,
        0xc6, 0x7e, 0x5e, 0x62, 0x76, 0xb5, 0x85, 0xe4, 0x45, 0xc2, 0x51, 0x6d, 0x6d, 0x35, 0xe1, 0x4f,
        0x37, 0x14, 0x5f, 0xf2, 0x6d, 0x0a, 0x2b, 0x30, 0x1b, 0x43, 0x3a, 0xcd, 0xb3, 0x19, 0x95, 0xef,
        0xdd, 0x04, 0x34, 0x8e, 0x79, 0x08, 0x4a, 0x51, 0x22, 0x9b, 0x13, 0x3b, 0xa6, 0xbe, 0x0b, 0x02,
        0x74, 0xcc, 0x67, 0x8a, 0x08, 0x4e, 0x02, 0x29, 0xd1, 0x1c, 0xdc, 0x80, 0x8b, 0x62, 0xc6, 0xc4,
        0x34, 0xc2, 0x68, 0x21, 0xa2, 0xda, 0x0f, 0xc9, 0xff, 0xff, 0xff, 0xff, 0xff, 0xff, 0xff, 0xff,
    ]
}

/// The MODP group 15 prime.
pub fn dh15_prime() -> (r: Vec<u8>)
    ensures
        r@ == dh15_prime_bytes(),
        2 < nat_value(r@),
        nat_value(r@) % 2 == 1,
{
    let r = vec![
        0xff, 0xff, 0xff, 0xff, 0xff, 0xff, 0xff, 0xff, 0xca, 0xd2, 0x3a, 0xa9, 0x20, 0xd1, 0x82, 0x4b,
        0x8e, 0x10, 0xfd, 0xe0, 0xfc, 0x5b, 0xdb, 0x43, 0x31, 0xab, 0xe5, 0x74, 0xa0, 0x4f, 0xe2, 0x08,
        0xe2, 0x46, 0xd9, 0xba, 0xc0, 0x88, 0x09, 0x77, 0x6c, 0x5d, 0x61, 0x7a, 0x57, 0x17, 0xe1, 0xbb,
        0x0c, 0x20, 0x7b, 0x17, 0x18, 0x2b, 0x1f, 0x52, 0x64, 0x6a, 0xc8, 0x3e, 0x73, 0x02, 0x76, 0xd8,
        0x64, 0x08, 0x8a, 0xd9, 0x06, 0xfa, 0x2f, 0xf1, 0x6b, 0xee, 0xd2, 0x1a, 0x26, 0xd2, 0xe3, 0xce,
        0x9d, 0x61, 0x25, 0x4a, 0xe0, 0x94, 0x8c, 0x1e, 0xd7, 0x33, 0x09, 0xdb, 0x8c, 0xae, 0xf5, 0xab,
        0xc7, 0xe4, 0xe1, 0xa6, 0x85, 0x0f, 0x97, 0xb3, 0x7d, 0x0c, 0x06, 0x5d, 0x57, 0x71, 0xea, 0x8a,
        0x0a, 0xef, 0xdb, 0x58, 0x04, 0x85, 0xfb, 0xec, 0x64, 0xba, 0x1c, 0xdf, 0xab, 0x21, 0x55, 0xa8,
        0x33, 0x7a, 0x50, 0x04, 0x0d, 0x17, 0x33, 0xad, 0x2d, 0xc4, 0xaa, 0x8a, 0x5a, 0x8e, 0x72, 0x15,
        0x10, 0x05, 0xfa, 0x98, 0x18, 0x26, 0xd2, 0x15, 0xe5, 0x6a, 0x95, 0xea, 0x7c, 0x49, 0x95, 0x39,
        0x18, 0x17, 0x58, 0x95, 0xf6, 0xcb, 0x2b, 0xde, 0xc9, 0x52, 0x4c, 0x6f, 0xf0, 0x5d, 0xc5, 0xb5,
        0x8f, 0xa2, 0x07, 0xec, 0xa2, 0x83, 0x27, 0x9b, 0x03, 0x86, 0x0e, 0x18, 0x2c, 0x77, 0x9e, 0xe3,
        0x3b, 0xce, 0x36, 0x2e, 0x46, 0x5e, 0x90, 0x32, 0x7c, 0x21, 0x18, 0xca, 0x08, 0x6c, 0x74, 0xf1,
        0x04, 0x98, 0xbc, 0x4a, 0x4e, 0x35, 0x0c, 0x67, 0x6d, 0x96, 0x96, 0x70, 0x07, 0x29, 0xd5, 0x9e,
        0xbb, 0x52, 0x85, 0x20, 0x56, 0xf3, 0x62, 0x1c, 0x96, 0xad, 0xa3, 0xdc, 0x23, 0x5d, 0x65, 0x83,
        0x5f, 0xcf, 0x24, 0xfd, 0xa8, 0x3f, 0x16, 0x69, 0x9a, 0xd3, 0x55, 0x1c, 0x36, 0x48, 0xda, 0x98,
        0x05, 0xbf, 0x63, 0xa1, 0xb8, 0x7c, 0x00, 0xc2, 0x3d, 0x5b, 0xe4, 0xec, 0x51, 0x66, 0x28, 0x49,
        0xe6, 0x1f, 0x4b, 0x7c, 0x11, 0x24, 0x9f, 0xae, 0xa5, 0x9f, 0x89, 0x5a, 0xfb, 0x6b, 0x38, 0xee,
        0xed, 0xb7, 0x06, 0xf4, 0xb6, 0x5c, 0xff, 0x0b, 0x6b, 0xed, 0x37, 0xa6, 0xe9, 0x42, 0x4c, 0xf4,
        0xc6, 0x7e, 0x5e, 0x62, 0x76, 0xb5, 0x85, 0xe4, 0x45, 0xc2, 0x51, 0x6d, 0x6d, 0x35, 0xe1, 0x4f,
        0x37, 0x14, 0x5f, 0xf2, 0x6d, 0x0a, 0x2b, 0x30, 0x1b, 0x43, 0x3a, 0xcd, 0xb3, 0x19, 0x95, 0xef,
        0xdd, 0x04, 0x34, 0x8e, 0x79, 0x08, 0x4a, 0x51, 0x22, 0x9b, 0x13, 0x3b, 0xa6, 0xbe, 0x0b, 0x02,
        0x74, 0xcc, 0x67, 0x8a, 0x08, 0x4e, 0x02, 0x29, 0xd1, 0x1c, 0xdc, 0x80, 0x8b, 0x62, 0xc6, 0xc4,
        0x34, 0xc2, 0x68, 0x21, 0xa2, 0xda, 0x0f, 0xc9, 0xff, 0xff, 0xff, 0xff, 0xff, 0xff, 0xff, 0xff,
    ];
    assert(r@ =~= dh15_prime_bytes());
    proof {
        lemma_le_value_first_byte(r@);
    }
    r
}

} // verus!
