//! The same inner-product scheme over the multiplicative group modulo an odd
//! prime `p` (the MODP group 15 safe prime by default). Group elements and
//! scalars are naturals; scalars are drawn from `[2, p)` and the secret key's
//! sums are kept unreduced, the exponentiations reducing them.
use vstd::arithmetic::power::pow;
use vstd::prelude::*;

use crate::fe::key_sum;
use crate::natural::{
    bytes_equal, copy_bytes, dh15_prime, dh15_prime_bytes, lemma_le_value_nonneg,
    lemma_nat_bytes_injective, lemma_nat_bytes_value, nat_add, nat_bytes, nat_from_u8,
    nat_mod_mul, nat_mod_pow, nat_mul, nat_sub, nat_value, random_natural_from_two,
};
use rand::rngs::StdRng;

verus! {

/// One entry of the master secret key.
pub struct MskItem {
    pub s: Vec<u8>,
    pub t: Vec<u8>,
}

/// The master state of one instance, for vectors of length `N`.
pub struct DdhFeInstance<const N: usize> {
    pub order: Vec<u8>,
    pub g: Vec<u8>,
    pub h: Vec<u8>,
    pub msk: Vec<MskItem>,
    pub mpk: Vec<Vec<u8>>,
}

/// The public key of an instance.
pub struct DdhFePublicKey<const N: usize> {
    pub order: Vec<u8>,
    pub g: Vec<u8>,
    pub h: Vec<u8>,
    pub mpk: Vec<Vec<u8>>,
}

/// The secret key for a vector `x`, with `sx` and `tx` unreduced.
pub struct DdhFeSecretKey<const N: usize> {
    pub order: Vec<u8>,
    pub g: Vec<u8>,
    pub sx: Vec<u8>,
    pub tx: Vec<u8>,
    pub x: Vec<u8>,
}

/// The encryption of a vector.
pub struct DdhFeCiphertext<const N: usize> {
    pub c: Vec<u8>,
    pub d: Vec<u8>,
    pub e: Vec<Vec<u8>>,
}

/// The values of a sequence of naturals.
pub open spec fn values(v: Seq<Vec<u8>>) -> Seq<Seq<u8>> {
    v.map_values(|b: Vec<u8>| b@)
}

/// `b^e mod p`.
pub open spec fn pow_mod(b: nat, e: nat, p: nat) -> nat {
    (pow(b as int, e) % (p as int)) as nat
}

/// Whether `p` can serve as the modulus: odd and above 2.
pub open spec fn is_modulus(p: nat) -> bool {
    2 < p && p % 2 == 1
}

/// `mpk_i = g^s_i * h^t_i mod p`.
pub open spec fn mpk_value(p: nat, g: nat, h: nat, s: nat, t: nat) -> nat {
    (pow_mod(g, s, p) * pow_mod(h, t, p)) % p
}

/// `prod_{i < n} e_i^x_i mod p`.
pub open spec fn product_of_powers(e: Seq<Seq<u8>>, x: Seq<u8>, p: nat, n: nat) -> nat
    decreases n,
{
    if n == 0 {
        1
    } else {
        (product_of_powers(e, x, p, (n - 1) as nat) * pow_mod(
            nat_value(e[n - 1]),
            x[n - 1] as nat,
            p,
        )) % p
    }
}

/// Whether `k` is the least exponent with `g^k mod p = target`.
pub open spec fn is_least_exponent(g: nat, target: nat, p: nat, k: nat) -> bool {
    &&& pow_mod(g, k, p) == target
    &&& forall|j: nat| j < k ==> pow_mod(g, j, p) != target
}

/// What the brute-force walk finds: the least `k < bound` with
/// `g^k mod p = target`, if there is one.
pub open spec fn bounded_exponent(g: nat, target: nat, p: nat, bound: nat) -> Option<nat> {
    if exists|k: nat| k < bound && pow_mod(g, k, p) == target {
        Some(choose|k: nat| k < bound && is_least_exponent(g, target, p, k))
    } else {
        None
    }
}

proof fn lemma_bounded_exponent(g: nat, target: nat, p: nat, bound: nat, k: Option<nat>)
    requires
        match k {
            Some(i) => i < bound && is_least_exponent(g, target, p, i),
            None => forall|j: nat| j < bound ==> pow_mod(g, j, p) != target,
        },
    ensures
        bounded_exponent(g, target, p, bound) == k,
{
    if let Some(i) = k {
        assert(i < bound && pow_mod(g, i, p) == target);
        let c = choose|c: nat| c < bound && is_least_exponent(g, target, p, c);
        assert(c < bound && is_least_exponent(g, target, p, c));
        if c < i {
            assert(pow_mod(g, c, p) != target);
        } else if i < c {
            assert(pow_mod(g, i, p) != target);
        }
    }
}

/// One more factor `g` in the walk over the powers of `g`.
proof fn lemma_pow_mod_step(g: nat, k: nat, p: nat)
    requires
        p > 0,
    ensures
        (pow_mod(g, k, p) * g) % p == pow_mod(g, k + 1, p),
{
    reveal(pow);
    let x = pow(g as int, k);
    assert(pow(g as int, k + 1) == g * x);
    assert(x * g == g * x) by (nonlinear_arith);
    vstd::arithmetic::div_mod::lemma_mul_mod_noop_left(x, g as int, p as int);
    vstd::arithmetic::div_mod::lemma_mod_bound(x, p as int);
    vstd::arithmetic::div_mod::lemma_mod_bound(x * g, p as int);
}

/// Whether `(c, d, e)` encrypts `x` under the public key `(p, g, h, mpk)`
/// with randomness `r`: `c = g^r`, `d = h^r`, `e_i = g^x_i * mpk_i^r`, modulo `p`.
pub open spec fn is_encryption(
    p: nat,
    g: nat,
    h: nat,
    mpk: Seq<Seq<u8>>,
    r: nat,
    x: Seq<u8>,
    c: Seq<u8>,
    d: Seq<u8>,
    e: Seq<Seq<u8>>,
) -> bool {
    &&& c == nat_bytes(pow_mod(g, r, p))
    &&& d == nat_bytes(pow_mod(h, r, p))
    &&& e.len() == x.len()
    &&& forall|i: int|
        0 <= i < x.len() ==> #[trigger] e[i] == nat_bytes(
            (pow_mod(g, x[i] as nat, p) * pow_mod(nat_value(mpk[i]), r, p)) % p,
        )
}

/// A copy of a sequence of naturals.
fn copy_naturals(v: &Vec<Vec<u8>>) -> (r: Vec<Vec<u8>>)
    ensures
        values(r@) == values(v@),
        r.len() == v.len(),
        forall|j: int| 0 <= j < v.len() ==> (#[trigger] r[j])@ == v[j]@,
{
    let mut r: Vec<Vec<u8>> = Vec::new();
    let mut i: usize = 0;
    while i < v.len()
        invariant
            0 <= i <= v.len(),
            r.len() == i,
            forall|j: int| 0 <= j < i ==> (#[trigger] r[j])@ == v[j]@,
        decreases v.len() - i,
    {
        r.push(copy_bytes(&v[i]));
        i = i + 1;
    }
    assert(values(r@) =~= values(v@));
    r
}

impl<const N: usize> DdhFeInstance<N> {
    pub open spec fn p(&self) -> nat {
        nat_value(self.order@)
    }

    pub open spec fn s_values(&self) -> Seq<Seq<u8>> {
        self.msk@.map_values(|m: MskItem| m.s@)
    }

    pub open spec fn t_values(&self) -> Seq<Seq<u8>> {
        self.msk@.map_values(|m: MskItem| m.t@)
    }

    /// `g`, `h`, every `s_i` and `t_i` in `[2, p)`; `mpk_i = g^s_i * h^t_i mod p`.
    pub open spec fn wf(&self) -> bool {
        &&& is_modulus(self.p())
        &&& 2 <= nat_value(self.g@) < self.p()
        &&& 2 <= nat_value(self.h@) < self.p()
        &&& self.msk.len() == N
        &&& self.mpk.len() == N
        &&& forall|i: int|
            0 <= i < N ==> {
                &&& 2 <= nat_value((#[trigger] self.msk[i]).s@) < self.p()
                &&& 2 <= nat_value(self.msk[i].t@) < self.p()
                &&& self.mpk[i]@ == nat_bytes(
                    mpk_value(
                        self.p(),
                        nat_value(self.g@),
                        nat_value(self.h@),
                        nat_value(self.msk[i].s@),
                        nat_value(self.msk[i].t@),
                    ),
                )
            }
    }

    /// A fresh instance modulo `order`, with `g`, `h` and the master secret
    /// key drawn uniformly from `[2, order)`.
    pub fn generate_instance_for_order(order: &Vec<u8>, rng: &mut StdRng) -> (r: Self)
        requires
            is_modulus(nat_value(order@)),
        ensures
            r.order@ == order@,
            r.wf(),
    {
        let p = copy_bytes(order);
        let g = random_natural_from_two(rng, &p);
        let h = random_natural_from_two(rng, &p);
        let mut msk: Vec<MskItem> = Vec::new();
        let mut mpk: Vec<Vec<u8>> = Vec::new();
        let ghost pv = nat_value(p@);
        let mut i: usize = 0;
        while i < N
            invariant
                0 <= i <= N,
                p@ == order@,
                pv == nat_value(p@),
                is_modulus(pv),
                2 <= nat_value(g@) < pv,
                2 <= nat_value(h@) < pv,
                msk.len() == i,
                mpk.len() == i,
                forall|j: int|
                    0 <= j < i ==> {
                        &&& 2 <= nat_value((#[trigger] msk[j]).s@) < pv
                        &&& 2 <= nat_value(msk[j].t@) < pv
                        &&& mpk[j]@ == nat_bytes(
                            mpk_value(
                                pv,
                                nat_value(g@),
                                nat_value(h@),
                                nat_value(msk[j].s@),
                                nat_value(msk[j].t@),
                            ),
                        )
                    },
            decreases N - i,
        {
            let s = random_natural_from_two(rng, &p);
            let t = random_natural_from_two(rng, &p);
            let gs = nat_mod_pow(&g, &s, &p);
            let ht = nat_mod_pow(&h, &t, &p);
            proof {
                let a = pow_mod(nat_value(g@), nat_value(s@), pv);
                let b = pow_mod(nat_value(h@), nat_value(t@), pv);
                vstd::arithmetic::div_mod::lemma_mod_bound(pow(nat_value(g@) as int, nat_value(s@)), pv as int);
                vstd::arithmetic::div_mod::lemma_mod_bound(pow(nat_value(h@) as int, nat_value(t@)), pv as int);
                lemma_nat_bytes_value(a);
                lemma_nat_bytes_value(b);
            }
            let m = nat_mod_mul(&gs, &ht, &p);
            msk.push(MskItem { s, t });
            mpk.push(m);
            i = i + 1;
        }
        DdhFeInstance { order: p, g, h, msk, mpk }
    }

    /// A fresh instance modulo the MODP group 15 prime.
    pub fn new_from_dhg15(rng: &mut StdRng) -> (r: Self)
        ensures
            r.order@ == dh15_prime_bytes(),
            r.wf(),
    {
        let p = dh15_prime();
        Self::generate_instance_for_order(&p, rng)
    }

    /// The public key `(p, g, h, mpk)` of the instance.
    pub fn get_public_key(&self) -> (r: DdhFePublicKey<N>)
        requires
            self.wf(),
        ensures
            r.order@ == self.order@,
            r.g@ == self.g@,
            r.h@ == self.h@,
            values(r.mpk@) == values(self.mpk@),
            r.wf(),
    {
        let r = DdhFePublicKey {
            order: copy_bytes(&self.order),
            g: copy_bytes(&self.g),
            h: copy_bytes(&self.h),
            mpk: copy_naturals(&self.mpk),
        };
        assert forall|i: int| 0 <= i < N implies nat_value((#[trigger] r.mpk[i])@) < r.p() by {
            assert(values(r.mpk@)[i] == values(self.mpk@)[i]);
            assert(r.mpk[i]@ == self.mpk[i]@);
            let item = self.msk[i];
            assert(self.mpk[i]@ == nat_bytes(mpk_value(self.p(), nat_value(self.g@), nat_value(self.h@), nat_value(item.s@), nat_value(item.t@))));
            let v = mpk_value(
                self.p(),
                nat_value(self.g@),
                nat_value(self.h@),
                nat_value(item.s@),
                nat_value(item.t@),
            );
            lemma_nat_bytes_value(v);
            let a = pow_mod(nat_value(self.g@), nat_value(item.s@), self.p());
            let b = pow_mod(nat_value(self.h@), nat_value(item.t@), self.p());
            vstd::arithmetic::div_mod::lemma_mod_bound((a * b) as int, self.p() as int);
            assert(v < self.p());
            assert(r.p() == self.p());
        }
        r
    }

    /// The secret key for `vector`: `sx = sum s_i * y_i` and
    /// `tx = sum t_i * y_i` over the naturals, with `g`, `p` and the vector.
    pub fn secret_key_gen(&self, vector: [u8; N]) -> (r: DdhFeSecretKey<N>)
        requires
            self.wf(),
        ensures
            r.order@ == self.order@,
            r.g@ == self.g@,
            nat_value(r.sx@) == key_sum(self.s_values(), vector@, N as nat),
            nat_value(r.tx@) == key_sum(self.t_values(), vector@, N as nat),
            r.x@ == vector@,
            r.wf(),
    {
        let mut sx: Vec<u8> = Vec::new();
        let mut tx: Vec<u8> = Vec::new();
        let mut x: Vec<u8> = Vec::new();
        let mut i: usize = 0;
        assert(key_sum(self.s_values(), vector@, 0) == 0);
        assert(key_sum(self.t_values(), vector@, 0) == 0);
        while i < N
            invariant
                0 <= i <= N,
                self.wf(),
                vector@.len() == N,
                le_value_of(sx@) == key_sum(self.s_values(), vector@, i as nat),
                le_value_of(tx@) == key_sum(self.t_values(), vector@, i as nat),
                x@ == vector@.subrange(0, i as int),
            decreases N - i,
        {
            let y = nat_from_u8(vector[i]);
            let item = &self.msk[i];
            let ps = nat_mul(&item.s, &y);
            let pt = nat_mul(&item.t, &y);
            proof {
                lemma_nat_bytes_value(vector[i as int] as nat);
                lemma_le_value_nonneg(item.s@);
                lemma_le_value_nonneg(item.t@);
                lemma_le_value_nonneg(sx@);
                lemma_le_value_nonneg(tx@);
                lemma_nat_bytes_value(nat_value(item.s@) * nat_value(y@));
                lemma_nat_bytes_value(nat_value(item.t@) * nat_value(y@));
                assert(self.s_values()[i as int] == item.s@);
                assert(self.t_values()[i as int] == item.t@);
            }
            let new_sx = nat_add(&sx, &ps);
            let new_tx = nat_add(&tx, &pt);
            proof {
                lemma_le_value_nonneg(ps@);
                lemma_le_value_nonneg(pt@);
                lemma_nat_bytes_value(nat_value(sx@) + nat_value(ps@));
                lemma_nat_bytes_value(nat_value(tx@) + nat_value(pt@));
            }
            sx = new_sx;
            tx = new_tx;
            x.push(vector[i]);
            i = i + 1;
            assert(x@ =~= vector@.subrange(0, i as int));
        }
        assert(x@ =~= vector@);
        proof {
            lemma_le_value_nonneg(sx@);
            lemma_le_value_nonneg(tx@);
        }
        DdhFeSecretKey { order: copy_bytes(&self.order), g: copy_bytes(&self.g), sx, tx, x }
    }
}

/// The value of a byte string as an integer.
pub open spec fn le_value_of(b: Seq<u8>) -> int {
    crate::group::le_value(b)
}

impl<const N: usize> DdhFePublicKey<N> {
    pub open spec fn p(&self) -> nat {
        nat_value(self.order@)
    }

    /// `p` a modulus, `g`, `h` and every `mpk_i` below it, `N` entries.
    pub open spec fn wf(&self) -> bool {
        &&& is_modulus(self.p())
        &&& 2 <= nat_value(self.g@) < self.p()
        &&& nat_value(self.h@) < self.p()
        &&& self.mpk.len() == N
        &&& forall|i: int| 0 <= i < N ==> nat_value((#[trigger] self.mpk[i])@) < self.p()
    }

    /// The encryption of `vector` with the randomness `r`.
    pub fn encrypt_with(&self, r: &Vec<u8>, vector: [u8; N]) -> (ct: DdhFeCiphertext<N>)
        requires
            self.wf(),
        ensures
            is_encryption(
                self.p(),
                nat_value(self.g@),
                nat_value(self.h@),
                values(self.mpk@),
                nat_value(r@),
                vector@,
                ct.c@,
                ct.d@,
                values(ct.e@),
            ),
            ct.valid_for(self.p()),
    {
        let ghost pv = self.p();
        let c = nat_mod_pow(&self.g, r, &self.order);
        let d = nat_mod_pow(&self.h, r, &self.order);
        proof {
            vstd::arithmetic::div_mod::lemma_mod_bound(pow(nat_value(self.g@) as int, nat_value(r@)), pv as int);
            vstd::arithmetic::div_mod::lemma_mod_bound(pow(nat_value(self.h@) as int, nat_value(r@)), pv as int);
            lemma_nat_bytes_value(pow_mod(nat_value(self.g@), nat_value(r@), pv));
            lemma_nat_bytes_value(pow_mod(nat_value(self.h@), nat_value(r@), pv));
        }
        let mut e: Vec<Vec<u8>> = Vec::new();
        let mut i: usize = 0;
        while i < N
            invariant
                0 <= i <= N,
                self.wf(),
                pv == self.p(),
                vector@.len() == N,
                e.len() == i,
                forall|j: int|
                    0 <= j < i ==> {
                        &&& (#[trigger] e[j])@ == nat_bytes(
                            (pow_mod(nat_value(self.g@), vector@[j] as nat, pv) * pow_mod(
                                nat_value(self.mpk[j]@),
                                nat_value(r@),
                                pv,
                            )) % pv,
                        )
                        &&& nat_value(e[j]@) < pv
                    },
            decreases N - i,
        {
            let xi = nat_from_u8(vector[i]);
            let gx = nat_mod_pow(&self.g, &xi, &self.order);
            let mr = nat_mod_pow(&self.mpk[i], r, &self.order);
            proof {
                lemma_nat_bytes_value(vector[i as int] as nat);
                let a = pow_mod(nat_value(self.g@), vector@[i as int] as nat, pv);
                let b = pow_mod(nat_value(self.mpk[i as int]@), nat_value(r@), pv);
                vstd::arithmetic::div_mod::lemma_mod_bound(pow(nat_value(self.g@) as int, vector@[i as int] as nat), pv as int);
                vstd::arithmetic::div_mod::lemma_mod_bound(pow(nat_value(self.mpk[i as int]@) as int, nat_value(r@)), pv as int);
                lemma_nat_bytes_value(a);
                lemma_nat_bytes_value(b);
                lemma_nat_bytes_value((a * b) % pv);
            }
            let ei = nat_mod_mul(&gx, &mr, &self.order);
            e.push(ei);
            i = i + 1;
        }
        let ct = DdhFeCiphertext { c, d, e };
        assert forall|j: int| 0 <= j < vector@.len() implies #[trigger] values(ct.e@)[j]
            == nat_bytes(
            (pow_mod(nat_value(self.g@), vector@[j] as nat, pv) * pow_mod(
                nat_value(values(self.mpk@)[j]),
                nat_value(r@),
                pv,
            )) % pv,
        ) by {
            assert(values(ct.e@)[j] == ct.e[j]@);
            assert(values(self.mpk@)[j] == self.mpk[j]@);
        }
        ct
    }

    /// The encryption of `vector`, with randomness drawn uniformly from
    /// `[2, p)` through `rng`.
    pub fn encrypt(&self, rng: &mut StdRng, vector: [u8; N]) -> (ct: DdhFeCiphertext<N>)
        requires
            self.wf(),
        ensures
            exists|r: nat|
                2 <= r < self.p() && #[trigger] is_encryption(
                    self.p(),
                    nat_value(self.g@),
                    nat_value(self.h@),
                    values(self.mpk@),
                    r,
                    vector@,
                    ct.c@,
                    ct.d@,
                    values(ct.e@),
                ),
            ct.valid_for(self.p()),
    {
        let r = random_natural_from_two(rng, &self.order);
        let ct = self.encrypt_with(&r, vector);
        assert(is_encryption(
            self.p(),
            nat_value(self.g@),
            nat_value(self.h@),
            values(self.mpk@),
            nat_value(r@),
            vector@,
            ct.c@,
            ct.d@,
            values(ct.e@),
        ));
        ct
    }
}

impl<const N: usize> DdhFeCiphertext<N> {
    /// Every part below `p`, `N` entries.
    pub open spec fn valid_for(&self, p: nat) -> bool {
        &&& nat_value(self.c@) < p
        &&& nat_value(self.d@) < p
        &&& self.e.len() == N
        &&& forall|i: int| 0 <= i < N ==> nat_value((#[trigger] self.e[i])@) < p
    }
}

impl<const N: usize> DdhFeSecretKey<N> {
    pub open spec fn p(&self) -> nat {
        nat_value(self.order@)
    }

    /// `p` a modulus, `g` below it, `N` entries.
    pub open spec fn wf(&self) -> bool {
        &&& is_modulus(self.p())
        &&& nat_value(self.g@) < self.p()
        &&& self.x.len() == N
    }

    /// `E = prod e_i^x_i * (c^sx * d^tx)^(p-2) mod p`, which is `g^<x, y>`
    /// when `p` is prime and the key and a ciphertext of `y` come from one instance.
    pub open spec fn decryption_value(&self, ct: DdhFeCiphertext<N>) -> nat {
        let p = self.p();
        let cd = (pow_mod(nat_value(ct.c@), nat_value(self.sx@), p) * pow_mod(
            nat_value(ct.d@),
            nat_value(self.tx@),
            p,
        )) % p;
        (product_of_powers(values(ct.e@), self.x@, p, N as nat) * pow_mod(cd, (p - 2) as nat, p))
            % p
    }

    /// The least `k < bound` with `g^k mod p = E` (see `decryption_value`),
    /// or `None` where there is none.
    pub fn decrypt_bf(&self, ct: &DdhFeCiphertext<N>, bound: u64) -> (r: Option<u64>)
        requires
            self.wf(),
            ct.valid_for(self.p()),
        ensures
            match r {
                Some(k) => k < bound && bounded_exponent(
                    nat_value(self.g@),
                    self.decryption_value(*ct),
                    self.p(),
                    bound as nat,
                ) == Some(k as nat),
                None => bounded_exponent(
                    nat_value(self.g@),
                    self.decryption_value(*ct),
                    self.p(),
                    bound as nat,
                ) is None,
            },
    {
        let ghost pv = self.p();
        let ghost gv = nat_value(self.g@);
        let mut acc = nat_from_u8(1);
        proof {
            lemma_nat_bytes_value(1);
        }
        let mut i: usize = 0;
        while i < N
            invariant
                0 <= i <= N,
                self.wf(),
                pv == self.p(),
                ct.valid_for(pv),
                acc@ == nat_bytes(product_of_powers(values(ct.e@), self.x@, pv, i as nat)),
                nat_value(acc@) < pv,
            decreases N - i,
        {
            let xi = nat_from_u8(self.x[i]);
            let t = nat_mod_pow(&ct.e[i], &xi, &self.order);
            proof {
                lemma_nat_bytes_value(self.x@[i as int] as nat);
                assert(values(ct.e@)[i as int] == ct.e[i as int]@);
                let a = pow_mod(nat_value(ct.e[i as int]@), self.x@[i as int] as nat, pv);
                vstd::arithmetic::div_mod::lemma_mod_bound(pow(nat_value(ct.e[i as int]@) as int, self.x@[i as int] as nat), pv as int);
                lemma_nat_bytes_value(a);
                lemma_nat_bytes_value(product_of_powers(values(ct.e@), self.x@, pv, i as nat));
                vstd::arithmetic::div_mod::lemma_mod_bound(
                    (product_of_powers(values(ct.e@), self.x@, pv, i as nat) * a) as int,
                    pv as int,
                );
                lemma_nat_bytes_value(product_of_powers(values(ct.e@), self.x@, pv, (i + 1) as nat));
            }
            acc = nat_mod_mul(&acc, &t, &self.order);
            i = i + 1;
        }
        proof {
            lemma_nat_bytes_value(product_of_powers(values(ct.e@), self.x@, pv, N as nat));
        }
        let cs = nat_mod_pow(&ct.c, &self.sx, &self.order);
        let dt = nat_mod_pow(&ct.d, &self.tx, &self.order);
        proof {
            let a = pow_mod(nat_value(ct.c@), nat_value(self.sx@), pv);
            let b = pow_mod(nat_value(ct.d@), nat_value(self.tx@), pv);
            vstd::arithmetic::div_mod::lemma_mod_bound(pow(nat_value(ct.c@) as int, nat_value(self.sx@)), pv as int);
            vstd::arithmetic::div_mod::lemma_mod_bound(pow(nat_value(ct.d@) as int, nat_value(self.tx@)), pv as int);
            lemma_nat_bytes_value(a);
            lemma_nat_bytes_value(b);
            lemma_nat_bytes_value((a * b) % pv);
            lemma_nat_bytes_value(2);
        }
        let cd = nat_mod_mul(&cs, &dt, &self.order);
        let two = nat_from_u8(2);
        let p_minus_two = nat_sub(&self.order, &two);
        proof {
            lemma_nat_bytes_value((pv - 2) as nat);
        }
        let inverse = nat_mod_pow(&cd, &p_minus_two, &self.order);
        proof {
            let cdv = nat_value(cd@);
            vstd::arithmetic::div_mod::lemma_mod_bound(pow(cdv as int, (pv - 2) as nat), pv as int);
            lemma_nat_bytes_value(pow_mod(cdv, (pv - 2) as nat, pv));
        }
        let target = nat_mod_mul(&acc, &inverse, &self.order);
        let ghost tv = self.decryption_value(*ct);
        proof {
            lemma_nat_bytes_value(tv);
            assert(target@ == nat_bytes(tv));
        }
        let mut k: u64 = 0;
        let mut walk = nat_from_u8(1);
        proof {
            reveal(pow);
            assert(pow(gv as int, 0) == 1);
            vstd::arithmetic::div_mod::lemma_small_mod(1, pv);
            lemma_nat_bytes_value(1);
        }
        while k < bound
            invariant
                0 <= k <= bound,
                self.wf(),
                pv == self.p(),
                gv == nat_value(self.g@),
                walk@ == nat_bytes(pow_mod(gv, k as nat, pv)),
                nat_value(walk@) < pv,
                target@ == nat_bytes(tv),
                tv == self.decryption_value(*ct),
                forall|j: nat| j < k ==> pow_mod(gv, j, pv) != tv,
            decreases bound - k,
        {
            proof {
                lemma_nat_bytes_injective(pow_mod(gv, k as nat, pv), tv);
            }
            if bytes_equal(&walk, &target) {
                proof {
                    assert(pow_mod(gv, k as nat, pv) == tv);
                    assert(is_least_exponent(gv, tv, pv, k as nat));
                    lemma_bounded_exponent(gv, tv, pv, bound as nat, Some(k as nat));
                }
                return Some(k);
            }
            proof {
                lemma_pow_mod_step(gv, k as nat, pv);
                lemma_nat_bytes_value(pow_mod(gv, k as nat, pv));
                vstd::arithmetic::div_mod::lemma_mod_bound(pow(gv as int, (k + 1) as nat), pv as int);
                lemma_nat_bytes_value(pow_mod(gv, (k + 1) as nat, pv));
            }
            walk = nat_mod_mul(&walk, &self.g, &self.order);
            k = k + 1;
        }
        proof {
            lemma_bounded_exponent(gv, tv, pv, bound as nat, None);
        }
        None
    }
}

/// `sum_{i < n} x_i * y_i`.
pub open spec fn dot(x: Seq<u8>, y: Seq<u8>, n: nat) -> nat
    decreases n,
{
    if n == 0 {
        0
    } else {
        dot(x, y, (n - 1) as nat) + (x[n - 1] as nat) * (y[n - 1] as nat)
    }
}

proof fn lemma_key_sum_nonneg(s: Seq<Seq<u8>>, y: Seq<u8>, n: nat)
    ensures
        key_sum(s, y, n) >= 0,
    decreases n,
{
    if n > 0 {
        lemma_key_sum_nonneg(s, y, (n - 1) as nat);
        lemma_le_value_nonneg(s[n - 1]);
        let a = crate::group::le_value(s[n - 1]);
        let b = y[n - 1] as int;
        assert(a * b >= 0) by (nonlinear_arith)
            requires
                a >= 0,
                b >= 0,
        ;
    }
}

/// `(a mod p * b mod p mod p)^k = a^k * b^k`, modulo `p`.
proof fn lemma_pow_of_product(a: int, b: int, k: nat, p: int)
    requires
        p > 0,
    ensures
        pow(((a % p) * (b % p)) % p, k) % p == (pow(a, k) * pow(b, k)) % p,
{
    vstd::arithmetic::div_mod::lemma_mul_mod_noop(a, b, p);
    vstd::arithmetic::power::lemma_pow_mod_noop(a * b, k, p);
    vstd::arithmetic::power::lemma_pow_distributes(a, b, k);
}

/// `(u * v) * (w * z) = (u * w) * (v * z)`, modulo `p`, with `v` and `z`
/// reduced first.
proof fn lemma_regroup(u: int, v: int, w: int, z: int, p: int)
    requires
        p > 0,
    ensures
        (((u * v) % p) * ((w * z) % p)) % p == ((u * w) * (v * z)) % p,
{
    vstd::arithmetic::div_mod::lemma_mul_mod_noop(u * v, w * z, p);
    assert((u * v) * (w * z) == (u * w) * (v * z)) by (nonlinear_arith);
}

/// One entry: `e^y = g^(x*y + s*r*y) * h^(t*r*y)` modulo `p`, for
/// `e = g^x * mpk^r` and `mpk = g^s * h^t`.
proof fn lemma_entry_power(g: nat, h: nat, s: nat, t: nat, x: nat, y: nat, r: nat, p: nat)
    requires
        p > 0,
    ensures
        ({
            let mpk = mpk_value(p, g, h, s, t);
            let e = (pow_mod(g, x, p) * pow_mod(mpk, r, p)) % p;
            pow(e as int, y) % (p as int) == (pow(g as int, x * y + s * (r * y)) * pow(
                h as int,
                t * (r * y),
            )) % (p as int)
        }),
{
    let pi = p as int;
    let gx = pow(g as int, x);
    let gs = pow(g as int, s);
    let ht = pow(h as int, t);
    vstd::arithmetic::div_mod::lemma_mod_bound(gx, pi);
    vstd::arithmetic::div_mod::lemma_mod_bound(gs, pi);
    vstd::arithmetic::div_mod::lemma_mod_bound(ht, pi);
    let mpk = mpk_value(p, g, h, s, t);
    assert(mpk as int == ((gs % pi) * (ht % pi)) % pi);
    let mr = pow(mpk as int, r);
    vstd::arithmetic::div_mod::lemma_mod_bound(mr, pi);
    let e = (pow_mod(g, x, p) * pow_mod(mpk, r, p)) % p;
    assert(e as int == ((gx % pi) * (mr % pi)) % pi);
    // e^y = (g^x)^y * (mpk^r)^y
    lemma_pow_of_product(gx, mr, y, pi);
    vstd::arithmetic::power::lemma_pow_multiplies(g as int, x, y);
    vstd::arithmetic::power::lemma_pow_multiplies(mpk as int, r, y);
    // mpk^(r*y) = g^(s*r*y) * h^(t*r*y)
    lemma_pow_of_product(gs, ht, r * y, pi);
    vstd::arithmetic::power::lemma_pow_multiplies(g as int, s, r * y);
    vstd::arithmetic::power::lemma_pow_multiplies(h as int, t, r * y);
    let a = pow(g as int, x * y);
    let b = pow(mpk as int, r * y);
    let c = pow(g as int, s * (r * y));
    let d = pow(h as int, t * (r * y));
    assert(b % pi == (c * d) % pi);
    vstd::arithmetic::div_mod::lemma_mul_mod_noop_general(a, b, pi);
    vstd::arithmetic::div_mod::lemma_mul_mod_noop_general(a, c * d, pi);
    assert(a * (c * d) == (a * c) * d) by (nonlinear_arith);
    vstd::arithmetic::power::lemma_pow_adds(g as int, x * y, s * (r * y));
}

/// The product that decryption takes over the ciphertext of `x` under an
/// instance, weighted by the key's vector `y`, is
/// `g^(<x, y> + r * sum s_i y_i) * h^(r * sum t_i y_i)` modulo `p`: the
/// inner product times the part that `c^sx * d^tx` cancels.
pub proof fn lemma_decryption_product<const N: usize>(
    inst: DdhFeInstance<N>,
    y: Seq<u8>,
    x: Seq<u8>,
    r: nat,
    e: Seq<Seq<u8>>,
    n: nat,
)
    requires
        inst.wf(),
        y.len() == N,
        x.len() == N,
        e.len() == N,
        n <= N,
        forall|i: int|
            0 <= i < N ==> #[trigger] e[i] == nat_bytes(
                (pow_mod(nat_value(inst.g@), x[i] as nat, inst.p()) * pow_mod(
                    nat_value(inst.mpk[i]@),
                    r,
                    inst.p(),
                )) % inst.p(),
            ),
    ensures
        product_of_powers(e, y, inst.p(), n) as int == (pow(
            nat_value(inst.g@) as int,
            dot(x, y, n) + r * (key_sum(inst.s_values(), y, n) as nat),
        ) * pow(nat_value(inst.h@) as int, r * (key_sum(inst.t_values(), y, n) as nat))) % (
        inst.p() as int),
    decreases n,
{
    let p = inst.p();
    let pi = p as int;
    let g = nat_value(inst.g@);
    let h = nat_value(inst.h@);
    lemma_key_sum_nonneg(inst.s_values(), y, n);
    lemma_key_sum_nonneg(inst.t_values(), y, n);
    if n == 0 {
        reveal(pow);
        assert(pow(g as int, 0) == 1);
        assert(pow(h as int, 0) == 1);
        vstd::arithmetic::div_mod::lemma_small_mod(1, p);
    } else {
        let m = (n - 1) as nat;
        let i = m as int;
        lemma_decryption_product(inst, y, x, r, e, m);
        lemma_key_sum_nonneg(inst.s_values(), y, m);
        lemma_key_sum_nonneg(inst.t_values(), y, m);
        let item = inst.msk[i];
        let s = nat_value(item.s@);
        let t = nat_value(item.t@);
        assert(inst.s_values()[i] == item.s@);
        assert(inst.t_values()[i] == item.t@);
        lemma_le_value_nonneg(item.s@);
        lemma_le_value_nonneg(item.t@);
        let mpkv = mpk_value(p, g, h, s, t);
        lemma_nat_bytes_value(mpkv);
        let ev = (pow_mod(g, x[i] as nat, p) * pow_mod(mpkv, r, p)) % p;
        lemma_nat_bytes_value(ev);
        assert(nat_value(e[i]) == ev);
        let xi = x[i] as nat;
        let yi = y[i] as nat;
        lemma_entry_power(g, h, s, t, xi, yi, r, p);
        let sm = key_sum(inst.s_values(), y, m) as nat;
        let tm = key_sum(inst.t_values(), y, m) as nat;
        let g1 = pow(g as int, dot(x, y, m) + r * sm);
        let h1 = pow(h as int, r * tm);
        let g2 = pow(g as int, xi * yi + s * (r * yi));
        let h2 = pow(h as int, t * (r * yi));
        vstd::arithmetic::div_mod::lemma_mod_bound(pow(ev as int, yi), pi);
        assert(pow_mod(ev, yi, p) as int == (g2 * h2) % pi);
        lemma_regroup(g1, h1, g2, h2, pi);
        vstd::arithmetic::power::lemma_pow_adds(g as int, dot(x, y, m) + r * sm, xi * yi + s * (r * yi));
        vstd::arithmetic::power::lemma_pow_adds(h as int, r * tm, t * (r * yi));
        assert(key_sum(inst.s_values(), y, n) == sm + s * yi);
        assert(key_sum(inst.t_values(), y, n) == tm + t * yi);
        assert(dot(x, y, m) + r * sm + (xi * yi + s * (r * yi)) == dot(x, y, n) + r * (sm + s * yi))
            by (nonlinear_arith)
            requires
                dot(x, y, n) == dot(x, y, m) + xi * yi,
        ;
        assert(r * tm + t * (r * yi) == r * (tm + t * yi)) by (nonlinear_arith);
    }
}

/// Decryption's product over a ciphertext of `x` made with randomness `r`,
/// weighted by the key's vector `y`, is `g^<x, y> * (c^sx * d^tx)` modulo `p`,
/// with `sx = sum s_i y_i` and `tx = sum t_i y_i`: the factor that
/// decryption then multiplies by `(c^sx * d^tx)^(p-2)`, which is its inverse
/// when `p` is prime.
pub proof fn lemma_decryption_pairing<const N: usize>(
    inst: DdhFeInstance<N>,
    y: Seq<u8>,
    x: Seq<u8>,
    r: nat,
    c: Seq<u8>,
    d: Seq<u8>,
    e: Seq<Seq<u8>>,
)
    requires
        inst.wf(),
        y.len() == N,
        x.len() == N,
        is_encryption(
            inst.p(),
            nat_value(inst.g@),
            nat_value(inst.h@),
            values(inst.mpk@),
            r,
            x,
            c,
            d,
            e,
        ),
    ensures
        ({
            let p = inst.p();
            let sx = key_sum(inst.s_values(), y, N as nat) as nat;
            let tx = key_sum(inst.t_values(), y, N as nat) as nat;
            let cd = (pow_mod(nat_value(c), sx, p) * pow_mod(nat_value(d), tx, p)) % p;
            product_of_powers(e, y, p, N as nat) == (pow_mod(nat_value(inst.g@), dot(x, y, N as nat), p)
                * cd) % p
        }),
{
    let p = inst.p();
    let pi = p as int;
    let g = nat_value(inst.g@);
    let h = nat_value(inst.h@);
    assert forall|i: int| 0 <= i < N implies #[trigger] e[i] == nat_bytes(
        (pow_mod(g, x[i] as nat, p) * pow_mod(nat_value(inst.mpk[i]@), r, p)) % p,
    ) by {
        assert(values(inst.mpk@)[i] == inst.mpk[i]@);
    }
    lemma_decryption_product(inst, y, x, r, e, N as nat);
    lemma_key_sum_nonneg(inst.s_values(), y, N as nat);
    lemma_key_sum_nonneg(inst.t_values(), y, N as nat);
    let sx = key_sum(inst.s_values(), y, N as nat) as nat;
    let tx = key_sum(inst.t_values(), y, N as nat) as nat;
    let dt = dot(x, y, N as nat);
    let gr = pow(g as int, r);
    let hr = pow(h as int, r);
    vstd::arithmetic::div_mod::lemma_mod_bound(gr, pi);
    vstd::arithmetic::div_mod::lemma_mod_bound(hr, pi);
    lemma_nat_bytes_value(pow_mod(g, r, p));
    lemma_nat_bytes_value(pow_mod(h, r, p));
    // c^sx = g^(r*sx) and d^tx = h^(r*tx), modulo p
    vstd::arithmetic::power::lemma_pow_mod_noop(gr, sx, pi);
    vstd::arithmetic::power::lemma_pow_mod_noop(hr, tx, pi);
    vstd::arithmetic::power::lemma_pow_multiplies(g as int, r, sx);
    vstd::arithmetic::power::lemma_pow_multiplies(h as int, r, tx);
    let a = pow(g as int, dt);
    let b = pow(g as int, r * sx);
    let hh = pow(h as int, r * tx);
    vstd::arithmetic::div_mod::lemma_mod_bound(b, pi);
    vstd::arithmetic::div_mod::lemma_mod_bound(hh, pi);
    vstd::arithmetic::div_mod::lemma_mod_bound(a, pi);
    vstd::arithmetic::div_mod::lemma_mod_bound(pow(nat_value(c) as int, sx), pi);
    vstd::arithmetic::div_mod::lemma_mod_bound(pow(nat_value(d) as int, tx), pi);
    assert(pow_mod(nat_value(c), sx, p) as int == b % pi);
    assert(pow_mod(nat_value(d), tx, p) as int == hh % pi);
    vstd::arithmetic::div_mod::lemma_mul_mod_noop(b, hh, pi);
    vstd::arithmetic::power::lemma_pow_adds(g as int, dt, r * sx);
    vstd::arithmetic::div_mod::lemma_mul_mod_noop(a, b * hh, pi);
    assert(a * b * hh == a * (b * hh)) by (nonlinear_arith);
}

} // verus!
