use fuzzy_fe::fe::{DdhFeInstance, DdhFePublicKey};
use fuzzy_fe::fe::{DdhFeCiphertext, DdhFeSecretKey};
use fuzzy_fe::traits::{FEInstance, FEPubKey, FESecretKey};
use rand::rngs::StdRng;
use rand::{Rng, SeedableRng};

const N: usize = 512;

fn fresh_instance() -> (DdhFeInstance<N>, DdhFePublicKey<N>) {
    let instance = DdhFeInstance::<N>::new().unwrap();
    let pk = instance.get_public_key();
    (instance, pk)
}

/// An instance and its public key, through the scheme's traits.
fn fresh_setup() -> (DdhFeInstance<N>, DdhFePublicKey<N>) {
    let instance = <DdhFeInstance<N> as FEInstance<N, DdhFePublicKey<N>, DdhFeSecretKey<N>>>::setup().unwrap();
    let pk: DdhFePublicKey<N> = instance.public_key();
    (instance, pk)
}

fn random_vec(rng: &mut StdRng, below: u16) -> [u8; N] {
    let mut v = [0u8; N];
    for e in v.iter_mut() {
        *e = rng.gen_range(0..below) as u8;
    }
    v
}

fn inner(a: &[u8; N], b: &[u8; N]) -> u64 {
    a.iter().zip(b.iter()).map(|(x, y)| (*x as u64) * (*y as u64)).sum()
}

#[test]
fn lib_test_correctness() {
    let bound = (N / 2) as u16;
    let (instance, pk) = fresh_setup();
    let mut cases = StdRng::seed_from_u64(7);
    let secret_vec = random_vec(&mut cases, 256);
    // A client vector with one nonzero entry, so that the product falls below the bound.
    let mut secret_client_vec = [0u8; N];
    let k = secret_vec.iter().position(|e| *e > 0).unwrap();
    secret_client_vec[k] = 1;
    let mut rng = StdRng::from_entropy();
    let sk: DdhFeSecretKey<N> = instance.secret_key(secret_vec);
    let ct: DdhFeCiphertext<N> = FEPubKey::encrypt(&pk, &mut rng, secret_client_vec);
    let scalar_prod = sk.decrypt(&ct, bound);
    let expected = inner(&secret_vec, &secret_client_vec);
    if expected >= bound as u64 {
        assert_eq!(scalar_prod, None);
    } else {
        assert_eq!(scalar_prod, Some(expected as u16));
    }
}

#[test]
fn lib_test_bit_vectors() {
    let bound = N as u16;
    let (instance, pk) = fresh_setup();
    let mut cases = StdRng::seed_from_u64(11);
    let secret_vec = random_vec(&mut cases, 2);
    let secret_client_vec = random_vec(&mut cases, 2);
    let mut rng = StdRng::from_entropy();
    let sk: DdhFeSecretKey<N> = instance.secret_key(secret_vec);
    let ct: DdhFeCiphertext<N> = FEPubKey::encrypt(&pk, &mut rng, secret_client_vec);
    let scalar_prod = sk.decrypt(&ct, bound);
    let expected = inner(&secret_vec, &secret_client_vec);
    if expected >= bound as u64 {
        assert_eq!(scalar_prod, None);
    } else {
        assert_eq!(scalar_prod, Some(expected as u16));
    }
}

#[test]
fn ddh_fe_test_correctness() {
    let bound: u64 = N as u64;
    let (instance, pk) = fresh_instance();
    let mut cases = StdRng::seed_from_u64(13);
    let secret_vec = random_vec(&mut cases, 256);
    let secret_client_vec = random_vec(&mut cases, 256);
    let mut rng = StdRng::from_entropy();
    let sk = instance.secret_key_gen(secret_vec);
    let ct = pk.encrypt(&mut rng, secret_client_vec);
    let scalar_prod = sk.decrypt_bf(&ct, bound);
    let expected = inner(&secret_vec, &secret_client_vec);
    if expected >= bound {
        assert_eq!(scalar_prod, None);
    } else {
        assert_eq!(scalar_prod, Some(expected));
    }
}

#[test]
fn ddh_fe_test_bit_vectors() {
    let bound: u64 = N as u64;
    let (instance, pk) = fresh_instance();
    let mut cases = StdRng::seed_from_u64(17);
    let secret_vec = random_vec(&mut cases, 2);
    let secret_client_vec = random_vec(&mut cases, 2);
    let mut rng = StdRng::from_entropy();
    let sk = instance.secret_key_gen(secret_vec);
    let ct = pk.encrypt(&mut rng, secret_client_vec);
    let scalar_prod = sk.decrypt_bf(&ct, bound);
    let expected = inner(&secret_vec, &secret_client_vec);
    if expected >= bound {
        assert_eq!(scalar_prod, None);
    } else {
        assert_eq!(scalar_prod, Some(expected));
    }
}

#[test]
fn ones_against_alternating_decrypts_to_256() {
    let (instance, pk) = fresh_instance();
    let y = [1u8; N];
    let mut x = [0u8; N];
    for (i, e) in x.iter_mut().enumerate() {
        *e = ((i + 1) % 2) as u8;
    }
    let sk = instance.secret_key_gen(y);
    let mut rng = StdRng::from_entropy();
    let ct = pk.encrypt(&mut rng, x);
    assert_eq!(sk.decrypt(&ct, 512), Some(256));
}

#[test]
fn product_at_the_bound_is_not_found() {
    let instance = DdhFeInstance::<16>::new().unwrap();
    let pk = instance.get_public_key();
    let mut y = [0u8; 16];
    let mut x = [0u8; 16];
    y[5] = 4;
    x[5] = 5;
    let sk = instance.secret_key_gen(y);
    let mut rng = StdRng::from_entropy();
    let ct = pk.encrypt(&mut rng, x);
    assert_eq!(sk.decrypt_bf(&ct, 20), None);
    assert_eq!(sk.decrypt_bf(&ct, 21), Some(20));
    assert_eq!(sk.decrypt_bf(&ct, 0), None);
}

#[test]
fn fixed_randomness_gives_identical_keys_and_ciphertexts() {
    let mut r1 = StdRng::seed_from_u64(42);
    let mut r2 = StdRng::seed_from_u64(42);
    let a = DdhFeInstance::<16>::new_with_rng(&mut r1);
    let b = DdhFeInstance::<16>::new_with_rng(&mut r2);
    assert_eq!(a.g, b.g);
    assert_eq!(a.h, b.h);
    assert_eq!(a.mpk, b.mpk);
    let y = [1u8, 0, 1, 1, 0, 0, 1, 0, 1, 1, 1, 0, 0, 0, 1, 1];
    let ska = a.secret_key_gen(y);
    let skb = b.secret_key_gen(y);
    assert_eq!(ska.sx, skb.sx);
    assert_eq!(ska.tx, skb.tx);
    assert_eq!(ska.x, skb.x);
    let cta = a.get_public_key().encrypt(&mut r1, y);
    let ctb = b.get_public_key().encrypt(&mut r2, y);
    assert_eq!(cta.c, ctb.c);
    assert_eq!(cta.d, ctb.d);
    assert_eq!(cta.e, ctb.e);
    let mut r3 = StdRng::seed_from_u64(43);
    let c = DdhFeInstance::<16>::new_with_rng(&mut r3);
    assert_ne!(a.g, c.g);
}

#[test]
fn secret_key_sums_master_scalars() {
    let mut rng = StdRng::seed_from_u64(5);
    let inst = DdhFeInstance::<4>::new_with_rng(&mut rng);
    let sk = inst.secret_key_gen([1, 0, 0, 0]);
    assert_eq!(sk.sx, inst.msk[0].s);
    assert_eq!(sk.tx, inst.msk[0].t);
    let sk0 = inst.secret_key_gen([0, 0, 0, 0]);
    assert_eq!(sk0.sx, [0u8; 32]);
    let sk2 = inst.secret_key_gen([0, 1, 0, 1]);
    assert_ne!(sk2.sx, inst.msk[1].s);
}
