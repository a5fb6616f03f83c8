use curve25519_dalek::ristretto::CompressedRistretto;
use curve25519_dalek::scalar::Scalar;
use fuzzy_fe::compressed::CompressedDdhFeSecretKey;
use fuzzy_fe::fe::{DdhFeInstance, DdhFeSecretKey};
use fuzzy_fe::fuzzy_hashes::{FHVector, NILSIMSA_VECTOR_SIZE_BYTES};
use rand::rngs::StdRng;
use rand::SeedableRng;

#[test]
fn digest_vector_is_digest_then_complement() {
    let mut h = [0u8; 32];
    h[0] = 0x0f;
    h[31] = 0xa5;
    let FHVector::NilsimsaVector(v) = FHVector::from_digest(h);
    assert_eq!(v[0], 0x0f);
    assert_eq!(v[31], 0xa5);
    assert_eq!(v[32], 0xf0);
    assert_eq!(v[63], 0x5a);
    assert_eq!(v[1], 0);
    assert_eq!(v[33], 0xff);
}

#[test]
fn bits_are_msb_first() {
    let mut h = [0u8; 32];
    h[0] = 0b1000_0010;
    let fh = FHVector::from_digest(h);
    let bits: [u8; 512] = fh.to_bits::<512>().unwrap();
    assert_eq!(&bits[0..8], &[1, 0, 0, 0, 0, 0, 1, 0]);
    assert_eq!(&bits[8..16], &[0; 8]);
    assert_eq!(&bits[256..264], &[0, 1, 1, 1, 1, 1, 0, 1]);
    assert_eq!(bits.iter().map(|b| *b as u32).sum::<u32>(), 256);
    assert!(fh.to_bits::<256>().is_err());
}

#[test]
fn vector_from_bytes_needs_64() {
    assert!(FHVector::from_vec(vec![0u8; 63]).is_err());
    assert!(FHVector::from_vec(vec![0u8; 65]).is_err());
    let v: Vec<u8> = (0..NILSIMSA_VECTOR_SIZE_BYTES as u8).collect();
    let FHVector::NilsimsaVector(a) = FHVector::from_vec(v.clone()).unwrap();
    assert_eq!(a.to_vec(), v);
}

fn point(b: &[u8; 32]) -> curve25519_dalek::ristretto::RistrettoPoint {
    CompressedRistretto(*b).decompress().unwrap()
}

#[test]
fn master_public_key_combines_the_generators() {
    let mut rng = StdRng::seed_from_u64(21);
    let inst = DdhFeInstance::<4>::new_with_rng(&mut rng);
    assert_ne!(inst.g, inst.h);
    for i in 0..4 {
        let s = Scalar::from_canonical_bytes(inst.msk[i].s).unwrap();
        let t = Scalar::from_canonical_bytes(inst.msk[i].t).unwrap();
        let expected = s * point(&inst.g) + t * point(&inst.h);
        assert_eq!(inst.mpk[i], expected.compress().to_bytes());
    }
}

#[test]
fn secret_key_is_the_weighted_sum_of_the_master_key() {
    let mut rng = StdRng::seed_from_u64(22);
    let inst = DdhFeInstance::<4>::new_with_rng(&mut rng);
    let y = [3u8, 0, 250, 1];
    let sk = inst.secret_key_gen(y);
    let mut sx = Scalar::ZERO;
    let mut tx = Scalar::ZERO;
    for i in 0..4 {
        sx += Scalar::from_canonical_bytes(inst.msk[i].s).unwrap() * Scalar::from(y[i]);
        tx += Scalar::from_canonical_bytes(inst.msk[i].t).unwrap() * Scalar::from(y[i]);
    }
    assert_eq!(sk.sx, sx.to_bytes());
    assert_eq!(sk.tx, tx.to_bytes());
    assert_eq!(sk.g, inst.g);
    assert_eq!(sk.x[2], Scalar::from(250u8).to_bytes());
    let sk1 = inst.secret_key_gen([1, 0, 0, 0]);
    assert_eq!(sk1.sx, inst.msk[0].s);
    let sk0 = inst.secret_key_gen([0, 0, 0, 0]);
    assert_eq!(sk0.sx, [0u8; 32]);
}

#[test]
fn ciphertext_parts_follow_the_scheme() {
    let mut rng = StdRng::seed_from_u64(23);
    let inst = DdhFeInstance::<3>::new_with_rng(&mut rng);
    let pk = inst.get_public_key();
    let r = Scalar::from(7u8).to_bytes();
    let ct = pk.encrypt_with(r, [2, 0, 1]);
    let rs = Scalar::from(7u8);
    assert_eq!(ct.c, (rs * point(&pk.g)).compress().to_bytes());
    assert_eq!(ct.d, (rs * point(&pk.h)).compress().to_bytes());
    let e0 = Scalar::from(2u8) * point(&pk.g) + rs * point(&pk.mpk[0]);
    assert_eq!(ct.e[0], e0.compress().to_bytes());
    let e1 = rs * point(&pk.mpk[1]);
    assert_eq!(ct.e[1], e1.compress().to_bytes());
}

#[test]
fn zero_product_decrypts_to_zero() {
    let mut rng = StdRng::seed_from_u64(24);
    let inst = DdhFeInstance::<8>::new_with_rng(&mut rng);
    let sk = inst.secret_key_gen([0u8; 8]);
    let ct = inst.get_public_key().encrypt(&mut rng, [9u8; 8]);
    assert_eq!(sk.decrypt_bf(&ct, 5), Some(0));
    let sk = inst.secret_key_gen([1u8; 8]);
    assert_eq!(sk.decrypt_bf(&ct, 100), Some(72));
    assert_eq!(sk.decrypt_bf(&ct, 72), None);
}

#[test]
fn invalid_generator_is_refused() {
    let mut rng = StdRng::seed_from_u64(25);
    let inst = DdhFeInstance::<8>::new_with_rng(&mut rng);
    let sk = inst.secret_key_gen([1u8; 8]);
    let mut c = CompressedDdhFeSecretKey::from_secret_key(&sk);
    assert_eq!(c.x, vec![0xff]);
    assert!(DdhFeSecretKey::<8>::try_from_compressed(&c).is_ok());
    c.g = [0xff; 32];
    assert!(DdhFeSecretKey::<8>::try_from_compressed(&c).is_err());
}
