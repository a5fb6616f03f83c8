//! Inner-product functional encryption over a DDH group (Abdalla, Bourse,
//! De Caro, Pointcheval): a secret key is bound to a vector `y`, a
//! ciphertext holds a vector `x`, and decryption yields `<x, y>`, found by a
//! bounded walk over the multiples of the generator.
use vstd::prelude::*;

use crate::group::{
    decodes, fresh_rng, identity_bytes, identity_point, le_value,
    lemma_scalar_round_trip, lemma_small_scalar_value, lemma_small_scalar_encoding,
    lemma_group_order_fits, multiscalar, multiscalar_product,
    point_add, point_decodes, point_sum, random_point, random_scalar, scalar_add, scalar_encoding,
    scalar_from_u8, scalar_mul, scalar_neg, scalar_negation, small_scalar, views, bytes_eq,
    group_order, fixed_base, table_mul, table_product, Bytes32,
};
use rand::rngs::StdRng;

verus! {

/// One entry of the master secret key.
#[derive(Clone, Copy)]
pub struct MskItem {
    pub s: Bytes32,
    pub t: Bytes32,
}

/// The master state of one instance of the scheme, for vectors of length `N`.
pub struct DdhFeInstance<const N: usize> {
    pub g: Bytes32,
    pub h: Bytes32,
    pub msk: Vec<MskItem>,
    pub mpk: Vec<Bytes32>,
}

/// The public key of an instance: its two generators and the master public key.
pub struct DdhFePublicKey<const N: usize> {
    pub g: Bytes32,
    pub h: Bytes32,
    pub mpk: Vec<Bytes32>,
}

/// The secret key derived for a vector `x`.
pub struct DdhFeSecretKey<const N: usize> {
    pub g: Bytes32,
    pub sx: Bytes32,
    pub tx: Bytes32,
    pub x: Vec<Bytes32>,
}

/// The encryption of a vector.
pub struct DdhFeCiphertext<const N: usize> {
    pub c: Bytes32,
    pub d: Bytes32,
    pub e: Vec<Bytes32>,
}

/// `mpk_i = s_i * g + t_i * h`.
pub open spec fn mpk_entry(g: Seq<u8>, h: Seq<u8>, s: Seq<u8>, t: Seq<u8>) -> Seq<u8> {
    point_sum(table_product(s, g), table_product(t, h))
}

/// `sum_{i < n} scalars[i] * y[i]`, over the integers.
pub open spec fn key_sum(scalars: Seq<Seq<u8>>, y: Seq<u8>, n: nat) -> int
    decreases n,
{
    if n == 0 {
        0
    } else {
        key_sum(scalars, y, (n - 1) as nat) + le_value(scalars[n - 1]) * y[n - 1]
    }
}

/// The scalar encodings of the entries of a vector of small integers.
pub open spec fn small_scalars(y: Seq<u8>) -> Seq<Seq<u8>> {
    y.map_values(|v: u8| small_scalar(v))
}

/// `k * g`, as `k` additions of `g` to the identity.
pub open spec fn multiple(g: Seq<u8>, k: nat) -> Seq<u8>
    decreases k,
{
    if k == 0 {
        identity_bytes()
    } else {
        point_sum(multiple(g, (k - 1) as nat), g)
    }
}

/// Whether `k` is the least discrete logarithm of `target` to base `g`.
pub open spec fn is_least_log(g: Seq<u8>, target: Seq<u8>, k: nat) -> bool {
    &&& multiple(g, k) == target
    &&& forall|j: nat| j < k ==> multiple(g, j) != target
}

/// Whether no multiple `k * g` with `k < bound` is `target`.
pub open spec fn no_log_below(g: Seq<u8>, target: Seq<u8>, bound: nat) -> bool {
    forall|j: nat| j < bound ==> multiple(g, j) != target
}

/// What the brute-force walk finds: the least `k < bound` with `k * g = target`,
/// if there is one.
pub open spec fn bounded_log(g: Seq<u8>, target: Seq<u8>, bound: nat) -> Option<nat> {
    if exists|k: nat| k < bound && multiple(g, k) == target {
        Some(choose|k: nat| k < bound && is_least_log(g, target, k))
    } else {
        None
    }
}

/// The least logarithm below a bound is what `bounded_log` finds.
proof fn lemma_bounded_log(g: Seq<u8>, target: Seq<u8>, bound: nat, k: Option<nat>)
    requires
        match k {
            Some(i) => i < bound && is_least_log(g, target, i),
            None => no_log_below(g, target, bound),
        },
    ensures
        bounded_log(g, target, bound) == k,
{
    if let Some(i) = k {
        assert(i < bound && multiple(g, i) == target);
        let c = choose|c: nat| c < bound && is_least_log(g, target, c);
        assert(c < bound && is_least_log(g, target, c));
        if c < i {
            assert(multiple(g, c) != target);
        } else if i < c {
            assert(multiple(g, i) != target);
        }
    }
}

/// The ciphertext of `x` under public key `(g, h, mpk)` with randomness `r`:
/// `c = r * g`, `d = r * h`, `e_i = x_i * g + r * mpk_i`.
pub open spec fn is_encryption(
    g: Seq<u8>,
    h: Seq<u8>,
    mpk: Seq<Seq<u8>>,
    r: Seq<u8>,
    x: Seq<u8>,
    c: Seq<u8>,
    d: Seq<u8>,
    e: Seq<Seq<u8>>,
) -> bool {
    &&& c == multiscalar_product(seq![r], seq![g])
    &&& d == multiscalar_product(seq![r], seq![h])
    &&& e.len() == x.len()
    &&& forall|i: int|
        0 <= i < x.len() ==> #[trigger] e[i] == multiscalar_product(
            seq![small_scalar(x[i]), r],
            seq![g, mpk[i]],
        )
}

/// A copy of a sequence of encodings.
pub(crate) fn copy_encodings(v: &Vec<Bytes32>) -> (r: Vec<Bytes32>)
    ensures
        r@ == v@,
{
    let mut r: Vec<Bytes32> = Vec::new();
    let mut i: usize = 0;
    while i < v.len()
        invariant
            0 <= i <= v.len(),
            r@ == v@.subrange(0, i as int),
        decreases v.len() - i,
    {
        r.push(v[i]);
        i = i + 1;
        assert(r@ =~= v@.subrange(0, i as int));
    }
    assert(v@.subrange(0, v.len() as int) =~= v@);
    r
}

/// Whether `v` has `N` entries, each a valid group element.
pub(crate) fn all_decode<const N: usize>(v: &Vec<Bytes32>) -> (r: bool)
    ensures
        r == (v.len() == N && forall|i: int| 0 <= i < N ==> decodes(#[trigger] v[i]@)),
{
    if v.len() != N {
        return false;
    }
    let mut i: usize = 0;
    while i < N
        invariant
            0 <= i <= N,
            v.len() == N,
            forall|j: int| 0 <= j < i ==> decodes(#[trigger] v[j]@),
        decreases N - i,
    {
        if !point_decodes(&v[i]) {
            return false;
        }
        i = i + 1;
    }
    true
}

impl<const N: usize> DdhFeInstance<N> {
    pub open spec fn s_values(&self) -> Seq<Seq<u8>> {
        self.msk@.map_values(|m: MskItem| m.s@)
    }

    pub open spec fn t_values(&self) -> Seq<Seq<u8>> {
        self.msk@.map_values(|m: MskItem| m.t@)
    }

    /// `|msk| = |mpk| = N`, each `mpk_i = s_i * g + t_i * h`, every group element valid.
    pub open spec fn wf(&self) -> bool {
        &&& decodes(self.g@)
        &&& decodes(self.h@)
        &&& self.msk.len() == N
        &&& self.mpk.len() == N
        &&& forall|i: int|
            0 <= i < N ==> decodes(#[trigger] self.mpk[i]@) && self.mpk[i]@ == mpk_entry(
                self.g@,
                self.h@,
                self.msk[i].s@,
                self.msk[i].t@,
            )
    }

    /// A fresh instance whose generators and master secret key are drawn from `rng`.
    pub fn new_with_rng(rng: &mut StdRng) -> (r: Self)
        ensures
            r.wf(),
    {
        let g = random_point(rng);
        let h = random_point(rng);
        let g_table = fixed_base(&g);
        let h_table = fixed_base(&h);
        let mut msk: Vec<MskItem> = Vec::new();
        let mut mpk: Vec<Bytes32> = Vec::new();
        let mut i: usize = 0;
        while i < N
            invariant
                0 <= i <= N,
                decodes(g@),
                decodes(h@),
                g_table.base() == g@,
                h_table.base() == h@,
                msk.len() == i,
                mpk.len() == i,
                forall|j: int|
                    0 <= j < i ==> decodes(#[trigger] mpk[j]@) && mpk[j]@ == mpk_entry(
                        g@,
                        h@,
                        msk[j].s@,
                        msk[j].t@,
                    ),
            decreases N - i,
        {
            let s = random_scalar(rng);
            let t = random_scalar(rng);
            let p = point_add(&table_mul(&g_table, &s), &table_mul(&h_table, &t));
            msk.push(MskItem { s, t });
            mpk.push(p);
            i = i + 1;
        }
        DdhFeInstance { g, h, msk, mpk }
    }

    /// A fresh instance, drawn from a generator seeded by the operating
    /// system; `None` where the system cannot supply entropy.
    pub fn new() -> (r: Option<Self>)
        ensures
            r matches Some(i) ==> i.wf(),
    {
        match fresh_rng() {
            Some(mut rng) => Some(Self::new_with_rng(&mut rng)),
            None => None,
        }
    }

    /// The public key `(g, h, mpk)` of the instance.
    pub fn get_public_key(&self) -> (r: DdhFePublicKey<N>)
        requires
            self.wf(),
        ensures
            r.g == self.g,
            r.h == self.h,
            r.mpk@ == self.mpk@,
            r.wf(),
    {
        DdhFePublicKey { g: self.g, h: self.h, mpk: copy_encodings(&self.mpk) }
    }

    /// The secret key for `vector`: `sx = sum s_i * y_i` and `tx = sum t_i * y_i`
    /// modulo the group order, with `g` and the vector itself.
    pub fn secret_key_gen(&self, vector: [u8; N]) -> (r: DdhFeSecretKey<N>)
        requires
            self.wf(),
        ensures
            r.g == self.g,
            r.sx@ == scalar_encoding(key_sum(self.s_values(), vector@, N as nat) % group_order()),
            r.tx@ == scalar_encoding(key_sum(self.t_values(), vector@, N as nat) % group_order()),
            views(r.x@) == small_scalars(vector@),
            r.wf(),
    {
        let mut sx: Bytes32 = [0u8; 32];
        let mut tx: Bytes32 = [0u8; 32];
        let mut x: Vec<Bytes32> = Vec::new();
        proof {
            lemma_group_order_fits();
            lemma_small_scalar_encoding(0);
            assert(sx@ =~= small_scalar(0));
            assert(tx@ =~= small_scalar(0));
            assert(key_sum(self.s_values(), vector@, 0) == 0);
            assert(key_sum(self.t_values(), vector@, 0) == 0);
            assert(0int % group_order() == 0);
        }
        let mut i: usize = 0;
        while i < N
            invariant
                0 <= i <= N,
                self.wf(),
                vector@.len() == N,
                sx@ == scalar_encoding(key_sum(self.s_values(), vector@, i as nat) % group_order()),
                tx@ == scalar_encoding(key_sum(self.t_values(), vector@, i as nat) % group_order()),
                x.len() == i,
                forall|j: int| 0 <= j < i ==> #[trigger] x[j]@ == small_scalar(vector@[j]),
            decreases N - i,
        {
            let v = scalar_from_u8(vector[i]);
            let item = self.msk[i];
            let ps = scalar_mul(&item.s, &v);
            let pt = scalar_mul(&item.t, &v);
            proof {
                let m = group_order();
                lemma_group_order_fits();
                lemma_small_scalar_value(vector[i as int]);
                vstd::arithmetic::div_mod::lemma_mod_bound(
                    key_sum(self.s_values(), vector@, i as nat),
                    m,
                );
                vstd::arithmetic::div_mod::lemma_mod_bound(
                    key_sum(self.t_values(), vector@, i as nat),
                    m,
                );
                lemma_scalar_round_trip(key_sum(self.s_values(), vector@, i as nat) % m);
                lemma_scalar_round_trip(key_sum(self.t_values(), vector@, i as nat) % m);
                let ys = le_value(item.s@) * vector[i as int];
                let yt = le_value(item.t@) * vector[i as int];
                vstd::arithmetic::div_mod::lemma_mod_bound(ys, m);
                vstd::arithmetic::div_mod::lemma_mod_bound(yt, m);
                lemma_scalar_round_trip(ys % m);
                lemma_scalar_round_trip(yt % m);
                vstd::arithmetic::div_mod::lemma_add_mod_noop(
                    key_sum(self.s_values(), vector@, i as nat),
                    ys,
                    m,
                );
                vstd::arithmetic::div_mod::lemma_add_mod_noop(
                    key_sum(self.t_values(), vector@, i as nat),
                    yt,
                    m,
                );
                assert(self.s_values()[i as int] == item.s@);
                assert(self.t_values()[i as int] == item.t@);
            }
            sx = scalar_add(&sx, &ps);
            tx = scalar_add(&tx, &pt);
            x.push(v);
            i = i + 1;
        }
        proof {
            assert(views(x@) =~= small_scalars(vector@));
        }
        DdhFeSecretKey { g: self.g, sx, tx, x }
    }
}

impl<const N: usize> DdhFePublicKey<N> {
    /// `mpk` has `N` entries and every group element is valid.
    pub open spec fn wf(&self) -> bool {
        &&& decodes(self.g@)
        &&& decodes(self.h@)
        &&& self.mpk.len() == N
        &&& forall|i: int| 0 <= i < N ==> decodes(#[trigger] self.mpk[i]@)
    }

    /// The encryption of `vector` with the randomness `r`.
    pub fn encrypt_with(&self, r: Bytes32, vector: [u8; N]) -> (ct: DdhFeCiphertext<N>)
        requires
            self.wf(),
        ensures
            is_encryption(self.g@, self.h@, views(self.mpk@), r@, vector@, ct.c@, ct.d@, views(ct.e@)),
            ct.wf(),
    {
        let rs = vec![r];
        let gs = vec![self.g];
        let hs = vec![self.h];
        proof {
            assert(views(rs@) =~= seq![r@]);
            assert(views(gs@) =~= seq![self.g@]);
            assert(views(hs@) =~= seq![self.h@]);
        }
        let c = multiscalar(&rs, &gs);
        let d = multiscalar(&rs, &hs);
        let mut e: Vec<Bytes32> = Vec::new();
        let mut i: usize = 0;
        while i < N
            invariant
                0 <= i <= N,
                self.wf(),
                vector@.len() == N,
                e.len() == i,
                forall|j: int|
                    0 <= j < i ==> decodes(#[trigger] e[j]@) && e[j]@ == multiscalar_product(
                        seq![small_scalar(vector@[j]), r@],
                        seq![self.g@, self.mpk[j]@],
                    ),
            decreases N - i,
        {
            let scalars = vec![scalar_from_u8(vector[i]), r];
            let points = vec![self.g, self.mpk[i]];
            proof {
                assert(views(scalars@) =~= seq![small_scalar(vector@[i as int]), r@]);
                assert(views(points@) =~= seq![self.g@, self.mpk[i as int]@]);
            }
            let p = multiscalar(&scalars, &points);
            e.push(p);
            i = i + 1;
        }
        let ct = DdhFeCiphertext { c, d, e };
        assert(views(ct.e@).len() == vector@.len());
        assert forall|j: int| 0 <= j < vector@.len() implies #[trigger] views(ct.e@)[j]
            == multiscalar_product(
            seq![small_scalar(vector@[j]), r@],
            seq![self.g@, views(self.mpk@)[j]],
        ) by {
            assert(views(ct.e@)[j] == ct.e[j]@);
            assert(views(self.mpk@)[j] == self.mpk[j]@);
        }
        ct
    }

    /// The encryption of `vector`, with randomness drawn from `rng`.
    pub fn encrypt(&self, rng: &mut StdRng, vector: [u8; N]) -> (ct: DdhFeCiphertext<N>)
        requires
            self.wf(),
        ensures
            exists|r: Seq<u8>|
                #[trigger] is_encryption(self.g@, self.h@, views(self.mpk@), r, vector@, ct.c@, ct.d@, views(ct.e@)),
            ct.wf(),
    {
        let r = random_scalar(rng);
        self.encrypt_with(r, vector)
    }
}

impl<const N: usize> DdhFeCiphertext<N> {
    /// `e` has `N` entries and every group element is valid.
    pub open spec fn wf(&self) -> bool {
        &&& decodes(self.c@)
        &&& decodes(self.d@)
        &&& self.e.len() == N
        &&& forall|i: int| 0 <= i < N ==> decodes(#[trigger] self.e[i]@)
    }
}

impl<const N: usize> DdhFeSecretKey<N> {
    /// `x` has `N` entries and `g` is valid.
    pub open spec fn wf(&self) -> bool {
        &&& decodes(self.g@)
        &&& self.x.len() == N
    }

    /// `E = sum x_i * e_i - sx * c - tx * d`; by the algebra of the scheme it
    /// is `<x, y> * g` when the key and a ciphertext of `y` come from one instance.
    pub open spec fn decryption_point(&self, ct: DdhFeCiphertext<N>) -> Seq<u8> {
        multiscalar_product(
            views(self.x@) + seq![scalar_negation(self.sx@), scalar_negation(self.tx@)],
            views(ct.e@) + seq![ct.c@, ct.d@],
        )
    }

    /// The least `k < bound` with `k * g = E` (see `decryption_point`), or
    /// `None` where there is none.
    pub fn decrypt_bf(&self, ct: &DdhFeCiphertext<N>, bound: u64) -> (r: Option<u64>)
        requires
            self.wf(),
            ct.wf(),
        ensures
            match r {
                Some(k) => k < bound && is_least_log(self.g@, self.decryption_point(*ct), k as nat),
                None => no_log_below(self.g@, self.decryption_point(*ct), bound as nat),
            },
            match r {
                Some(k) => bounded_log(self.g@, self.decryption_point(*ct), bound as nat) == Some(
                    k as nat,
                ),
                None => bounded_log(self.g@, self.decryption_point(*ct), bound as nat) is None,
            },
    {
        let mut scalars = copy_encodings(&self.x);
        scalars.push(scalar_neg(&self.sx));
        scalars.push(scalar_neg(&self.tx));
        let mut points = copy_encodings(&ct.e);
        points.push(ct.c);
        points.push(ct.d);
        proof {
            assert(views(scalars@) =~= views(self.x@) + seq![
                scalar_negation(self.sx@),
                scalar_negation(self.tx@),
            ]);
            assert(views(points@) =~= views(ct.e@) + seq![ct.c@, ct.d@]);
            assert forall|i: int| 0 <= i < points.len() implies decodes(#[trigger] points[i]@) by {
                if i < N {
                    assert(points[i] == ct.e[i]);
                }
            }
        }
        let target = multiscalar(&scalars, &points);
        let mut i: u64 = 0;
        let mut p = identity_point();
        while i < bound
            invariant
                0 <= i <= bound,
                decodes(p@),
                decodes(self.g@),
                p@ == multiple(self.g@, i as nat),
                target@ == self.decryption_point(*ct),
                no_log_below(self.g@, target@, i as nat),
            decreases bound - i,
        {
            if bytes_eq(&p, &target) {
                proof {
                    lemma_bounded_log(self.g@, target@, bound as nat, Some(i as nat));
                }
                return Some(i);
            }
            p = point_add(&p, &self.g);
            i = i + 1;
        }
        proof {
            lemma_bounded_log(self.g@, target@, bound as nat, None);
        }
        None
    }
}

} // verus!
