use fuzzy_fe::ff_fe::DdhFeInstance;
use fuzzy_fe::natural::dh15_prime;
use rand::rngs::StdRng;
use rand::SeedableRng;

/// 2^61 - 1, a prime, little-endian.
fn mersenne61() -> Vec<u8> {
    vec![0xff, 0xff, 0xff, 0xff, 0xff, 0xff, 0xff, 0x1f]
}

fn value(b: &[u8]) -> u128 {
    b.iter().rev().fold(0u128, |acc, x| (acc << 8) | *x as u128)
}

fn mod_pow(mut b: u128, mut e: u128, m: u128) -> u128 {
    let mut r = 1u128;
    b %= m;
    while e > 0 {
        if e & 1 == 1 {
            r = r * b % m;
        }
        b = b * b % m;
        e >>= 1;
    }
    r
}

#[test]
fn small_prime_instance_follows_the_scheme() {
    let p = value(&mersenne61());
    let mut rng = StdRng::seed_from_u64(31);
    let inst = DdhFeInstance::<8>::generate_instance_for_order(&mersenne61(), &mut rng);
    let g = value(&inst.g);
    let h = value(&inst.h);
    assert!(2 <= g && g < p && 2 <= h && h < p);
    for i in 0..8 {
        let s = value(&inst.msk[i].s);
        let t = value(&inst.msk[i].t);
        assert!(2 <= s && s < p && 2 <= t && t < p);
        assert_eq!(value(&inst.mpk[i]), mod_pow(g, s, p) * mod_pow(h, t, p) % p);
        assert_ne!(inst.mpk[i].last(), Some(&0));
    }
    let y = [1u8, 0, 3, 0, 0, 2, 1, 0];
    let sk = inst.secret_key_gen(y);
    let sx: u128 = (0..8).map(|i| value(&inst.msk[i].s) * y[i] as u128).sum();
    assert_eq!(value(&sk.sx), sx);
    assert_eq!(sk.x, y.to_vec());
    let pk = inst.get_public_key();
    let r = vec![5u8];
    let ct = pk.encrypt_with(&r, [2, 9, 0, 0, 0, 0, 0, 7]);
    assert_eq!(value(&ct.c), mod_pow(g, 5, p));
    assert_eq!(value(&ct.e[1]), mod_pow(g, 9, p) * mod_pow(value(&pk.mpk[1]), 5, p) % p);
}

#[test]
fn small_prime_decrypts_inner_product() {
    let mut rng = StdRng::seed_from_u64(32);
    let inst = DdhFeInstance::<8>::generate_instance_for_order(&mersenne61(), &mut rng);
    let pk = inst.get_public_key();
    let y = [1u8, 0, 3, 0, 4, 2, 1, 0];
    let x = [2u8, 9, 1, 5, 0, 3, 1, 7];
    let sk = inst.secret_key_gen(y);
    let ct = pk.encrypt(&mut rng, x);
    // 2 + 3 + 6 + 1
    assert_eq!(sk.decrypt_bf(&ct, 100), Some(12));
    assert_eq!(sk.decrypt_bf(&ct, 12), None);
    assert_eq!(sk.decrypt_bf(&ct, 13), Some(12));
}

#[test]
fn dh15_prime_is_the_rfc_3526_group_15_prime() {
    let p = dh15_prime();
    assert_eq!(p.len(), 384);
    let hex: String = p.iter().rev().map(|b| format!("{:02X}", b)).collect();
    assert!(hex.starts_with("FFFFFFFFFFFFFFFFC90FDAA22168C234C4C6628B80DC1CD1"));
    assert!(hex.ends_with("43DB5BFCE0FD108E4B82D120A93AD2CAFFFFFFFFFFFFFFFF"));
}

#[test]
fn dh15_instance_round_trip() {
    let mut rng = StdRng::seed_from_u64(33);
    let inst = DdhFeInstance::<2>::new_from_dhg15(&mut rng);
    assert_eq!(inst.order, dh15_prime());
    let pk = inst.get_public_key();
    let sk = inst.secret_key_gen([1, 1]);
    let ct = pk.encrypt(&mut rng, [1, 0]);
    assert_eq!(sk.decrypt_bf(&ct, 4), Some(1));
}
