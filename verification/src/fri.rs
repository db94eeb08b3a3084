//! The multi-folding DEEP-FRI protocol: layer construction, per-layer DEEP
//! quotients, Merkle commitment of every layer, query generation, proof
//! assembly, and verification.
//!
//! Folding is strided: bucket b of the next layer sums the entries at
//! b, b + n', b + 2n', ... weighted by powers of the challenge, where n'
//! is the next layer's size, so a child index maps to its parent by
//! reduction modulo n'.

use vstd::prelude::*;
use vstd::arithmetic::div_mod::{lemma_fundamental_div_mod, lemma_mod_bound, lemma_small_mod};
use vstd::arithmetic::power::{lemma_pow0, lemma_pow1, lemma_pow_multiplies, lemma_pow_mod_noop};
use vstd::arithmetic::power2::{pow2, lemma2_to64, lemma_pow2_adds};
use crate::field::{
    fadd, fsub, fmul, finv, fpow, field_p, seq_wf, vals, Goldilocks, MODULUS,
    TWO_ADIC_ROOT_OF_UNITY_NATIVE_VALUE,
};
use crate::fp3::Fp3;
use crate::hash::stdrng_stream_of;
use crate::merge::{build_omega_pows, omega_pows_spec, ProtocolError};
use crate::ntt::{is_radix2_root, pow2_size};

verus! {

/// An evaluation domain: a subgroup generator and its order.
#[derive(Clone, Copy, Debug)]
pub struct FriDomain {
    pub omega: Goldilocks,
    pub size: usize,
}

/// The exponent of a power of two, by repeated halving.
pub open spec fn log2_spec(n: nat) -> nat
    decreases n,
{
    if n <= 1 {
        0
    } else {
        1 + log2_spec(n / 2)
    }
}

/// The exponent of a power of two.
pub fn log2_pow2(n: usize) -> (r: u32)
    requires
        pow2_size(n as nat),
        n <= 0x1_0000_0000,
    ensures
        r == log2_spec(n as nat),
        r <= 32,
        pow2(r as nat) == n,
{
    proof {
        lemma2_to64();
        vstd::arithmetic::power2::lemma2_to64_rest();
    }
    let mut m = n;
    let mut k: u32 = 0;
    while m > 1
        invariant
            pow2_size(m as nat),
            m >= 1,
            k <= 32,
            log2_spec(n as nat) == k + log2_spec(m as nat),
            pow2(k as nat) * m == n,
            m <= n <= 0x1_0000_0000,
        decreases m,
    {
        proof {
            lemma2_to64();
            vstd::arithmetic::power2::lemma2_to64_rest();
            assert(k < 32) by {
                if k == 32 {
                    assert(pow2(32nat) * (m as nat) > 0x1_0000_0000) by (nonlinear_arith)
                        requires
                            m >= 2,
                            pow2(32nat) == 0x1_0000_0000;
                }
            };
            lemma_pow2_adds(k as nat, 1);
            assert(pow2((k + 1) as nat) * ((m / 2) as nat) == pow2(k as nat) * (m as nat)) by (
            nonlinear_arith)
                requires
                    m as nat % 2 == 0,
                    pow2((k + 1) as nat) == 2 * pow2(k as nat);
        }
        m = m / 2;
        k = k + 1;
    }
    proof {
        assert(pow2(k as nat) == n);
    }
    k
}

/// The canonical generator of the radix-2 domain of a power-of-two size:
/// the fixed two-adic root raised to 2^(32-k).
pub open spec fn domain_omega_spec(size: nat) -> int {
    fpow(TWO_ADIC_ROOT_OF_UNITY_NATIVE_VALUE as int, pow2((32 - log2_spec(size)) as nat))
}

impl FriDomain {
    /// The generator has order exactly the domain size.
    pub open spec fn wf(self) -> bool {
        &&& self.omega.wf()
        &&& pow2_size(self.size as nat)
        &&& is_radix2_root(self.omega@, self.size as nat)
    }

    /// The radix-2 domain of a power-of-two size: its generator is the
    /// fixed two-adic root raised to 2^(32-k).
    pub fn new_radix2(size: usize) -> (r: Self)
        requires
            pow2_size(size as nat),
            size <= 0x1_0000_0000,
        ensures
            r.wf(),
            r.size == size,
            r.omega@ == domain_omega_spec(size as nat),
    {
        let k = log2_pow2(size);
        let mut e: u64 = 1;
        let mut i: u32 = 0;
        proof {
            lemma2_to64();
            vstd::arithmetic::power2::lemma2_to64_rest();
        }
        while i < 32 - k
            invariant
                i <= 32 - k,
                k <= 32,
                e == pow2(i as nat),
                e <= 0x1_0000_0000,
            decreases 32 - k - i,
        {
            proof {
                lemma_pow2_adds(i as nat, 1);
                lemma2_to64();
                vstd::arithmetic::power2::lemma2_to64_rest();
                assert(pow2((i + 1) as nat) <= pow2(32nat)) by {
                    if i + 1 < 32 {
                        vstd::arithmetic::power2::lemma_pow2_strictly_increases(
                            (i + 1) as nat,
                            32nat,
                        );
                    }
                };
            }
            e = e * 2;
            i = i + 1;
        }
        let root = Goldilocks::two_adic_root_of_unity();
        let omega = root.pow(e);
        proof {
            lemma_subgroup_generator(k as nat);
        }
        FriDomain { omega, size }
    }
}

/// The two-adic root raised to 2^(32-k) generates the subgroup of order
/// 2^k: its 2^k-th power is one and its 2^(k-1)-th power is minus one.
proof fn lemma_subgroup_generator(k: nat)
    requires
        k <= 32,
    ensures
        is_radix2_root(
            fpow(TWO_ADIC_ROOT_OF_UNITY_NATIVE_VALUE as int, pow2((32 - k) as nat)),
            pow2(k),
        ),
{
    let root = TWO_ADIC_ROOT_OF_UNITY_NATIVE_VALUE as int;
    let e = pow2((32 - k) as nat);
    let w = fpow(root, e);
    crate::field::lemma_two_adic_root_order();
    lemma_mod_bound(vstd::arithmetic::power::pow(root, e), field_p());
    assert(fpow(w, pow2(k)) == 1) by {
        lemma_pow_mod_noop(vstd::arithmetic::power::pow(root, e), pow2(k), field_p());
        lemma_pow_multiplies(root, e, pow2(k));
        lemma_pow2_adds((32 - k) as nat, k);
        assert(e * pow2(k) == pow2(32nat));
    };
    if pow2(k) > 1 {
        assert(k >= 1) by {
            if k == 0 {
                lemma2_to64();
            }
        };
        assert(fpow(w, pow2(k) / 2) == field_p() - 1) by {
            lemma_pow_mod_noop(
                vstd::arithmetic::power::pow(root, e),
                pow2((k - 1) as nat),
                field_p(),
            );
            lemma_pow_multiplies(root, e, pow2((k - 1) as nat));
            lemma_pow2_adds((32 - k) as nat, (k - 1) as nat);
            assert(e * pow2((k - 1) as nat) == pow2(31nat));
            assert(pow2(k) / 2 == pow2((k - 1) as nat)) by {
                lemma_pow2_adds((k - 1) as nat, 1);
                lemma2_to64();
            };
        };
    }
}

/// The powers of the folding challenge: 1, z, z^2, ...
pub fn build_z_pows(z_l: Goldilocks, m: usize) -> (r: Vec<Goldilocks>)
    requires
        z_l.wf(),
    ensures
        r@.len() == m,
        seq_wf(r@),
        vals(r@) == omega_pows_spec(z_l@, m as nat),
{
    build_omega_pows(z_l, m)
}

/// One coordinate of the DEEP quotient at index i:
/// (f_i - f_0) / (x_i - zk), with x_i the i-th domain point.
pub open spec fn q_coord_spec(f: Seq<int>, w: int, zk: int, i: int) -> int {
    fmul(fsub(f[i], f[0]), finv(fsub(fpow(w, i as nat), zk)))
}

/// The denominators the quotient inverted were invertible at every index
/// and coordinate.
pub open spec fn q_denoms_ok(f: Seq<int>, w: int, z: Fp3) -> bool {
    forall|i: int|
        0 <= i < f.len() ==> {
            &&& fmul(finv(fsub(#[trigger] fpow(w, i as nat), z.a0@)), fsub(fpow(w, i as nat), z.a0@)) == 1
            &&& fmul(finv(fsub(fpow(w, i as nat), z.a1@)), fsub(fpow(w, i as nat), z.a1@)) == 1
            &&& fmul(finv(fsub(fpow(w, i as nat), z.a2@)), fsub(fpow(w, i as nat), z.a2@)) == 1
        }
}

/// The DEEP quotient of a layer over the product ring, coordinatewise.
pub fn compute_q_layer_fp3(f_l: &Vec<Goldilocks>, z: Fp3, omega: Goldilocks) -> (r: Result<
    Vec<Fp3>,
    ProtocolError,
>)
    requires
        seq_wf(f_l@),
        f_l@.len() >= 1,
        z.wf(),
        omega.wf(),
    ensures
        r matches Ok(q) ==> {
            &&& q@.len() == f_l@.len()
            &&& forall|i: int| 0 <= i < q@.len() ==> (#[trigger] q@[i]).wf()
            &&& forall|i: int|
                0 <= i < q@.len() ==> (#[trigger] q@[i]).a0@ == q_coord_spec(
                    vals(f_l@),
                    omega@,
                    z.a0@,
                    i,
                ) && q@[i].a1@ == q_coord_spec(vals(f_l@), omega@, z.a1@, i) && q@[i].a2@
                    == q_coord_spec(vals(f_l@), omega@, z.a2@, i)
            &&& q_denoms_ok(vals(f_l@), omega@, z)
        },
        q_denoms_ok(vals(f_l@), omega@, z) ==> r is Ok,
        r matches Err(e) ==> e == ProtocolError::ArithmeticError,
{
    let n = f_l.len();
    let f0 = Fp3::from_base(f_l[0]);
    let mut q: Vec<Fp3> = Vec::new();
    let mut x = Goldilocks::one();
    proof {
        lemma_pow0(omega@);
        lemma_small_mod(1nat, MODULUS as nat);
    }
    let mut i: usize = 0;
    while i < n
        invariant
            i <= n,
            n == f_l@.len(),
            n >= 1,
            seq_wf(f_l@),
            z.wf(),
            omega.wf(),
            f0.a0 == f_l@[0] && f0.a1 == f_l@[0] && f0.a2 == f_l@[0],
            x.wf(),
            x@ == fpow(omega@, i as nat),
            q@.len() == i,
            forall|j: int| 0 <= j < i as int ==> (#[trigger] q@[j]).wf(),
            forall|j: int|
                0 <= j < i as int ==> (#[trigger] q@[j]).a0@ == q_coord_spec(
                    vals(f_l@),
                    omega@,
                    z.a0@,
                    j,
                ) && q@[j].a1@ == q_coord_spec(vals(f_l@), omega@, z.a1@, j) && q@[j].a2@
                    == q_coord_spec(vals(f_l@), omega@, z.a2@, j),
            forall|j: int|
                0 <= j < i as int ==> {
                    &&& fmul(
                        finv(fsub(#[trigger] fpow(omega@, j as nat), z.a0@)),
                        fsub(fpow(omega@, j as nat), z.a0@),
                    ) == 1
                    &&& fmul(
                        finv(fsub(fpow(omega@, j as nat), z.a1@)),
                        fsub(fpow(omega@, j as nat), z.a1@),
                    ) == 1
                    &&& fmul(
                        finv(fsub(fpow(omega@, j as nat), z.a2@)),
                        fsub(fpow(omega@, j as nat), z.a2@),
                    ) == 1
                },
        decreases n - i,
    {
        let num = Fp3::from_base(f_l[i]).sub(f0);
        let denom = Fp3::from_base(x).sub(z);
        let inv = match denom.inv() {
            Some(v) => v,
            None => {
                proof {
                    assert(denom.a0@ == fsub(fpow(omega@, i as nat), z.a0@));
                    assert(denom.a1@ == fsub(fpow(omega@, i as nat), z.a1@));
                    assert(denom.a2@ == fsub(fpow(omega@, i as nat), z.a2@));
                    if q_denoms_ok(vals(f_l@), omega@, z) {
                        let ii: int = i as int;
                        assert(0 <= ii < vals(f_l@).len());
                        assert(fmul(
                            finv(fsub(fpow(omega@, ii as nat), z.a0@)),
                            fsub(fpow(omega@, ii as nat), z.a0@),
                        ) == 1);
                        assert(fmul(
                            finv(fsub(fpow(omega@, ii as nat), z.a1@)),
                            fsub(fpow(omega@, ii as nat), z.a1@),
                        ) == 1);
                        assert(fmul(
                            finv(fsub(fpow(omega@, ii as nat), z.a2@)),
                            fsub(fpow(omega@, ii as nat), z.a2@),
                        ) == 1);
                        assert(ii as nat == i as nat);
                        assert(fmul(finv(denom.a0@), denom.a0@) == 1);
                        assert(fmul(finv(denom.a1@), denom.a1@) == 1);
                        assert(fmul(finv(denom.a2@), denom.a2@) == 1);
                        assert(fmul(finv(0), 0) == 0) by {
                            assert(finv(0) * 0 == 0);
                            assert(0int % field_p() == 0) by {
                                lemma_small_mod(0nat, MODULUS as nat);
                            };
                        };
                        assert(denom.a0@ != 0 && denom.a1@ != 0 && denom.a2@ != 0);
                        assert(false);
                    }
                }
                return Err(ProtocolError::ArithmeticError);
            },
        };
        let qi = num.mul(inv);
        proof {
            crate::field::lemma_fmul_commutative(inv.a0@, denom.a0@);
            crate::field::lemma_fmul_commutative(inv.a1@, denom.a1@);
            crate::field::lemma_fmul_commutative(inv.a2@, denom.a2@);
        }
        q.push(qi);
        x = x.mul(omega);
        proof {
            crate::field::lemma_fpow_adds(omega@, i as nat, 1);
            assert(fpow(omega@, 1) == omega@) by {
                lemma_pow1(omega@);
                lemma_small_mod(omega.v as nat, MODULUS as nat);
            };
        }
        i = i + 1;
    }
    Ok(q)
}

/// The DEEP quotient of a layer over the base field alone.
pub fn compute_q_layer_base(f_l: &Vec<Goldilocks>, z_l: Goldilocks, omega: Goldilocks) -> (r:
    Result<Vec<Goldilocks>, ProtocolError>)
    requires
        seq_wf(f_l@),
        f_l@.len() >= 1,
        z_l.wf(),
        omega.wf(),
    ensures
        r matches Ok(q) ==> {
            &&& q@.len() == f_l@.len()
            &&& seq_wf(q@)
            &&& forall|i: int|
                0 <= i < q@.len() ==> (#[trigger] q@[i])@ == q_coord_spec(
                    vals(f_l@),
                    omega@,
                    z_l@,
                    i,
                )
            &&& forall|i: int|
                0 <= i < q@.len() ==> fmul(
                    finv(fsub(#[trigger] fpow(omega@, i as nat), z_l@)),
                    fsub(fpow(omega@, i as nat), z_l@),
                ) == 1
        },
        (forall|i: int|
            0 <= i < f_l@.len() ==> fmul(
                finv(fsub(#[trigger] fpow(omega@, i as nat), z_l@)),
                fsub(fpow(omega@, i as nat), z_l@),
            ) == 1) ==> r is Ok,
        r matches Err(e) ==> e == ProtocolError::ArithmeticError,
{
    let zt = Fp3::from_base(z_l);
    let q3 = match compute_q_layer_fp3(f_l, zt, omega) {
        Ok(v) => v,
        Err(e) => {
            proof {
                if forall|i: int|
                    0 <= i < f_l@.len() ==> fmul(
                        finv(fsub(#[trigger] fpow(omega@, i as nat), z_l@)),
                        fsub(fpow(omega@, i as nat), z_l@),
                    ) == 1 {
                    assert forall|i: int| 0 <= i < vals(f_l@).len() implies {
                        &&& fmul(
                            finv(fsub(#[trigger] fpow(omega@, i as nat), zt.a0@)),
                            fsub(fpow(omega@, i as nat), zt.a0@),
                        ) == 1
                        &&& fmul(
                            finv(fsub(fpow(omega@, i as nat), zt.a1@)),
                            fsub(fpow(omega@, i as nat), zt.a1@),
                        ) == 1
                        &&& fmul(
                            finv(fsub(fpow(omega@, i as nat), zt.a2@)),
                            fsub(fpow(omega@, i as nat), zt.a2@),
                        ) == 1
                    } by {
                        assert(fmul(
                            finv(fsub(fpow(omega@, i as nat), z_l@)),
                            fsub(fpow(omega@, i as nat), z_l@),
                        ) == 1);
                    }
                    assert(q_denoms_ok(vals(f_l@), omega@, zt));
                    assert(false);
                }
            }
            return Err(e);
        },
    };
    let n = q3.len();
    let mut q: Vec<Goldilocks> = Vec::new();
    let mut i: usize = 0;
    while i < n
        invariant
            i <= n,
            n == q3@.len(),
            forall|j: int| 0 <= j < n as int ==> (#[trigger] q3@[j]).wf(),
            q@.len() == i,
            forall|j: int| 0 <= j < i as int ==> (#[trigger] q@[j]) == q3@[j].a0,
        decreases n - i,
    {
        let c = q3[i].a0;
        q.push(c);
        i = i + 1;
    }
    Ok(q)
}

/// The DEEP equation: a quotient obtained through a successful inversion,
/// multiplied back by its denominator, returns the numerator reduced.
/// At every queried layer, q_i * (x_i - z) = f_i - f_0.
pub proof fn lemma_deep_equation(num: int, denom: int)
    requires
        fmul(finv(denom), denom) == 1,
        0 <= num < field_p(),
    ensures
        fmul(fmul(num, finv(denom)), denom) == num,
{
    let p = field_p();
    crate::field::lemma_fmul_associative(num, finv(denom), denom);
    assert(fmul(num, fmul(finv(denom), denom)) == fmul(num, 1));
    assert(fmul(num, 1) == num) by {
        lemma_small_mod(num as nat, MODULUS as nat);
    };
}

/// The partial strided fold of one bucket: the first k children of bucket
/// b, weighted by powers of the challenge.
pub open spec fn fold_bucket(f: Seq<int>, z: int, n_next: int, b: int, k: nat) -> int
    decreases k,
{
    if k == 0 {
        0
    } else {
        fadd(
            fold_bucket(f, z, n_next, b, (k - 1) as nat),
            fmul(f[b + (k - 1) * n_next], fpow(z, (k - 1) as nat)),
        )
    }
}

/// The strided fold of a layer by a factor m.
pub open spec fn fold_spec(f: Seq<int>, z: int, m: nat) -> Seq<int> {
    let n_next = f.len() / m;
    Seq::new(n_next, |b: int| fold_bucket(f, z, n_next as int, b, m))
}

/// A child index below b + j*n' stays inside the layer.
proof fn lemma_stride_in_range(b: int, j: int, m: int, n_next: int, n: int)
    by (nonlinear_arith)
    requires
        0 <= b < n_next,
        0 <= j < m,
        n == m * n_next,
    ensures
        0 <= b + j * n_next < n,
{
}

/// Folds one layer by a factor m: bucket b of the result sums the strided
/// children b + j*n' weighted by z^j.
pub fn fri_fold_layer(evals: &Vec<Goldilocks>, z_l: Goldilocks, folding_factor: usize) -> (r: Vec<
    Goldilocks,
>)
    requires
        seq_wf(evals@),
        z_l.wf(),
        folding_factor >= 1,
        evals@.len() % (folding_factor as nat) == 0,
    ensures
        r@.len() == evals@.len() / (folding_factor as nat),
        seq_wf(r@),
        vals(r@) == fold_spec(vals(evals@), z_l@, folding_factor as nat),
{
    let n = evals.len();
    let m = folding_factor;
    let n_next = n / m;
    let z_pows = build_z_pows(z_l, m);
    let ghost fsq = vals(evals@);
    proof {
        lemma_fundamental_div_mod(n as int, m as int);
    }
    let mut out: Vec<Goldilocks> = Vec::new();
    let mut b: usize = 0;
    while b < n_next
        invariant
            b <= n_next,
            n == evals@.len(),
            m >= 1,
            n_next == n as int / m as int,
            n == m * n_next,
            seq_wf(evals@),
            fsq == vals(evals@),
            z_l.wf(),
            z_pows@.len() == m,
            seq_wf(z_pows@),
            vals(z_pows@) == omega_pows_spec(z_l@, m as nat),
            out@.len() == b,
            seq_wf(out@),
            forall|q: int|
                0 <= q < b as int ==> (#[trigger] out@[q])@ == fold_bucket(
                    fsq,
                    z_l@,
                    n_next as int,
                    q,
                    m as nat,
                ),
        decreases n_next - b,
    {
        let mut acc = Goldilocks::zero();
        let mut j: usize = 0;
        while j < m
            invariant
                j <= m,
                b < n_next,
                n == evals@.len(),
                m >= 1,
                n == m * n_next,
                seq_wf(evals@),
                fsq == vals(evals@),
                z_l.wf(),
                z_pows@.len() == m,
                seq_wf(z_pows@),
                vals(z_pows@) == omega_pows_spec(z_l@, m as nat),
                acc.wf(),
                acc@ == fold_bucket(fsq, z_l@, n_next as int, b as int, j as nat),
            decreases m - j,
        {
            proof {
                lemma_stride_in_range(b as int, j as int, m as int, n_next as int, n as int);
            }
            let c = evals[b + j * n_next];
            let zp = z_pows[j];
            proof {
                assert(vals(z_pows@)[j as int] == z_pows@[j as int]@);
                assert(zp@ == fpow(z_l@, j as nat));
                assert(fsq[b as int + j as int * n_next as int] == c@);
            }
            acc = acc.add(c.mul(zp));
            j = j + 1;
        }
        out.push(acc);
        b = b + 1;
    }
    proof {
        assert(vals(out@) =~= fold_spec(fsq, z_l@, m as nat));
    }
    out
}

/// The per-index folded values: entry i carries the parent bucket's value,
/// so s[i] equals fold(f)[i mod n'].  This is the fold-consistency shape
/// the verifier checks.
pub fn compute_s_layer(f_l: &Vec<Goldilocks>, z_l: Goldilocks, m: usize) -> (r: Vec<Goldilocks>)
    requires
        seq_wf(f_l@),
        z_l.wf(),
        m >= 1,
        f_l@.len() % (m as nat) == 0,
        f_l@.len() >= 1,
    ensures
        r@.len() == f_l@.len(),
        seq_wf(r@),
        forall|i: int|
            0 <= i < r@.len() ==> (#[trigger] r@[i])@ == fold_spec(vals(f_l@), z_l@, m as nat)[i
                % (f_l@.len() as int / m as int)],
{
    let n = f_l.len();
    let n_next = n / m;
    let folded = fri_fold_layer(f_l, z_l, m);
    proof {
        lemma_fundamental_div_mod(n as int, m as int);
        assert(n_next >= 1) by (nonlinear_arith)
            requires
                n as int == m as int * n_next as int,
                n >= 1,
                m >= 1;
    }
    let mut s: Vec<Goldilocks> = Vec::new();
    let mut i: usize = 0;
    while i < n
        invariant
            i <= n,
            n == f_l@.len(),
            m >= 1,
            n_next == n as int / m as int,
            n == m * n_next,
            n >= 1,
            n_next >= 1,
            folded@.len() == n_next,
            seq_wf(folded@),
            vals(folded@) == fold_spec(vals(f_l@), z_l@, m as nat),
            s@.len() == i,
            seq_wf(s@),
            forall|q: int|
                0 <= q < i as int ==> (#[trigger] s@[q])@ == vals(folded@)[q % (n_next as int)],
        decreases n - i,
    {
        proof {
            lemma_mod_bound(i as int, n_next as int);
        }
        let x = folded[i % n_next];
        s.push(x);
        i = i + 1;
    }
    s
}

/// Fold consistency: the per-index folded value at a child index equals
/// the next layer's value at the parent index i mod n'.
pub proof fn lemma_fold_consistency(f: Seq<int>, z: int, m: nat, s: Seq<int>, next: Seq<int>, i: int)
    requires
        m >= 1,
        f.len() % m == 0,
        s.len() == f.len(),
        0 <= i < s.len(),
        s[i] == fold_spec(f, z, m)[i % (f.len() as int / m as int)],
        next == fold_spec(f, z, m),
    ensures
        s[i] == next[i % (f.len() as int / m as int)],
{
}

/// A committed leaf of one layer: the codeword value, the folded value,
/// and the DEEP quotient value.
#[derive(Clone, Copy, Debug)]
pub struct CombinedLeaf {
    pub f: Goldilocks,
    pub s: Goldilocks,
    pub q: Goldilocks,
}

/// One layer's commitment: its size, folding factor, and Merkle root.
pub struct FriLayerCommitment {
    pub n: usize,
    pub m: usize,
    pub root: Goldilocks,
}

/// The committed layers and the schedule that produced them.
pub struct FriTranscript {
    pub schedule: Vec<usize>,
    pub layers: Vec<FriLayerCommitment>,
}

/// The prover's inputs: the folding schedule and the challenge seed.
pub struct FriProverParams {
    pub schedule: Vec<usize>,
    pub seed_z: u64,
}

/// The prover's working state: every layer's codeword, folded values and
/// quotients, with the generators and challenges used.
pub struct FriProverState {
    pub f_layers: Vec<Vec<Goldilocks>>,
    pub s_layers: Vec<Vec<Goldilocks>>,
    pub q_layers: Vec<Vec<Fp3>>,
    pub transcript: FriTranscript,
    pub omega_layers: Vec<Goldilocks>,
    pub z_layers: Vec<Goldilocks>,
    pub z_fp3: Fp3,
    pub trace_seed: Goldilocks,
}

/// One layer of a prover state is linked to the next: folding, folded
/// values and quotients all agree with the specifications.
pub open spec fn layer_linked(
    sch: Seq<usize>,
    f: Seq<Vec<Goldilocks>>,
    s: Seq<Vec<Goldilocks>>,
    q: Seq<Vec<Fp3>>,
    o: Seq<Goldilocks>,
    z: Seq<Goldilocks>,
    zf: Fp3,
    e: int,
) -> bool
    recommends
        0 <= e,
        e + 1 < f.len(),
{
    &&& vals(f[e]@).len() >= 1
    &&& z[e] == zf.a0
    &&& o[e].wf()
    &&& vals(f[e + 1]@) == fold_spec(vals(f[e]@), zf.a0@, sch[e] as nat)
    &&& s[e]@.len() == vals(f[e]@).len()
    &&& seq_wf(s[e]@)
    &&& (forall|i: int|
        0 <= i < vals(f[e]@).len() ==> ((#[trigger] s[e]@[i])@ == fold_spec(
            vals(f[e]@),
            zf.a0@,
            sch[e] as nat,
        )[i % (vals(f[e]@).len() as int / sch[e] as int)]))
    &&& q[e]@.len() == vals(f[e]@).len()
    &&& (forall|i: int| 0 <= i < vals(f[e]@).len() ==> (#[trigger] q[e]@[i]).wf())
    &&& (forall|i: int|
        0 <= i < vals(f[e]@).len() ==> ((#[trigger] q[e]@[i]).a0@ == q_coord_spec(
            vals(f[e]@),
            o[e]@,
            zf.a0@,
            i,
        ) && q[e]@[i].a1@ == q_coord_spec(vals(f[e]@), o[e]@, zf.a1@, i) && q[e]@[i].a2@
            == q_coord_spec(vals(f[e]@), o[e]@, zf.a2@, i)))
    &&& q_denoms_ok(vals(f[e]@), o[e]@, zf)
}

/// Layer linkage depends only on the entries the layer touches.
proof fn lemma_layer_linked_stable(
    sch: Seq<usize>,
    f1: Seq<Vec<Goldilocks>>,
    s1: Seq<Vec<Goldilocks>>,
    q1: Seq<Vec<Fp3>>,
    o1: Seq<Goldilocks>,
    z1: Seq<Goldilocks>,
    f2: Seq<Vec<Goldilocks>>,
    s2: Seq<Vec<Goldilocks>>,
    q2: Seq<Vec<Fp3>>,
    o2: Seq<Goldilocks>,
    z2: Seq<Goldilocks>,
    zf: Fp3,
    e: int,
)
    requires
        layer_linked(sch, f1, s1, q1, o1, z1, zf, e),
        0 <= e,
        f2[e] == f1[e],
        f2[e + 1] == f1[e + 1],
        s2[e] == s1[e],
        q2[e] == q1[e],
        o2[e] == o1[e],
        z2[e] == z1[e],
    ensures
        layer_linked(sch, f2, s2, q2, o2, z2, zf, e),
{
}

/// The layers of a prover state are linked by strided folding under one
/// challenge, the folded values repeat each parent across its children,
/// and the quotients divide by the domain points minus the challenge.
pub open spec fn state_linked(st: FriProverState) -> bool {
    let l = st.transcript.schedule@.len() as int;
    &&& st.f_layers@.len() == l + 1
    &&& st.s_layers@.len() == l + 1
    &&& st.q_layers@.len() == l
    &&& st.omega_layers@.len() == l
    &&& st.z_layers@.len() == l
    &&& st.transcript.layers@.len() == l
    &&& st.z_fp3.wf()
    &&& forall|e: int| 0 <= e <= l ==> seq_wf((#[trigger] st.f_layers@[e])@)
    &&& forall|e: int|
        0 <= e < l ==> (#[trigger] st.transcript.schedule@[e]) >= 1 && vals(st.f_layers@[e]@).len()
            % (st.transcript.schedule@[e] as nat) == 0
    &&& forall|e: int|
        0 <= e < l ==> #[trigger] layer_linked(
            st.transcript.schedule@,
            st.f_layers@,
            st.s_layers@,
            st.q_layers@,
            st.omega_layers@,
            st.z_layers@,
            st.z_fp3,
            e,
        )
}

/// The largest candidate arity at most the folding factor that divides the
/// layer size; a layer divisible by nothing takes one.
pub open spec fn pick_arity_spec(n: int, m: int) -> int {
    if m >= 128 && n % 128 == 0 {
        128
    } else if m >= 64 && n % 64 == 0 {
        64
    } else if m >= 32 && n % 32 == 0 {
        32
    } else if m >= 16 && n % 16 == 0 {
        16
    } else if m >= 8 && n % 8 == 0 {
        8
    } else if m >= 4 && n % 4 == 0 {
        4
    } else if n % 2 == 0 {
        2
    } else {
        1
    }
}

/// Picks the Merkle arity for one layer.
pub fn pick_arity_for_layer(n: usize, requested_m: usize) -> (r: usize)
    ensures
        r as int == pick_arity_spec(n as int, requested_m as int),
{
    if requested_m >= 128 && n % 128 == 0 {
        return 128;
    }
    if requested_m >= 64 && n % 64 == 0 {
        return 64;
    }
    if requested_m >= 32 && n % 32 == 0 {
        return 32;
    }
    if requested_m >= 16 && n % 16 == 0 {
        return 16;
    }
    if requested_m >= 8 && n % 8 == 0 {
        return 8;
    }
    if requested_m >= 4 && n % 4 == 0 {
        return 4;
    }
    if n % 2 == 0 {
        return 2;
    }
    1
}

/// The number of tree levels needed to reduce the leaves to one node: the
/// smallest depth whose ceiling-division chain reaches the arity.
pub open spec fn merkle_depth_spec(leaves: int, arity: int) -> int
    decreases leaves,
    when arity >= 2 && leaves >= 1
    via merkle_depth_spec_dec
{
    if leaves <= arity {
        1
    } else {
        1 + merkle_depth_spec((leaves + arity - 1) / arity, arity)
    }
}

#[via_fn]
proof fn merkle_depth_spec_dec(leaves: int, arity: int) {
    if leaves > arity {
        assert((leaves + arity - 1) / arity < leaves) by (nonlinear_arith)
            requires
                arity >= 2,
                leaves > arity;
        assert((leaves + arity - 1) / arity >= 1) by (nonlinear_arith)
            requires
                arity >= 2,
                leaves > arity;
    }
}

/// Computes the Merkle depth of a layer.
pub fn merkle_depth(leaves: usize, arity: usize) -> (r: usize)
    requires
        2 <= arity,
        1 <= leaves,
    ensures
        r >= 1,
        r <= leaves,
        r as int == merkle_depth_spec(leaves as int, arity as int),
{
    let mut depth: usize = 1;
    let mut cur = leaves;
    while cur > arity
        invariant
            2 <= arity,
            cur >= 1,
            cur <= leaves,
            depth >= 1,
            depth + cur <= leaves + 1,
            merkle_depth_spec(leaves as int, arity as int) == depth - 1 + merkle_depth_spec(
                cur as int,
                arity as int,
            ),
        decreases cur,
    {
        proof {
            assert(cur as int / (arity as int) < cur as int) by (nonlinear_arith)
                requires
                    arity >= 2,
                    cur >= 1;
        }
        let step = cur / arity + if cur % arity != 0 {
            1
        } else {
            0
        };
        proof {
            assert(step as int == (cur as int + arity as int - 1) / (arity as int)) by (
            nonlinear_arith)
                requires
                    arity >= 2,
                    cur >= 1,
                    step as int == cur as int / (arity as int) + (if cur as int % (arity as int)
                        != 0 {
                        1int
                    } else {
                        0int
                    });
            assert((cur as int + arity as int - 1) / (arity as int) < cur as int
                && (cur as int + arity as int - 1) / (arity as int) >= 1) by (nonlinear_arith)
                requires
                    arity >= 2,
                    cur > arity;
        }
        cur = step;
        depth = depth + 1;
    }
    depth
}

/// The tree depth is at least one level.
proof fn lemma_merkle_depth_pos(n: int, a: int)
    requires
        1 <= n,
        2 <= a,
    ensures
        merkle_depth_spec(n, a) >= 1,
    decreases n,
{
    if n > a {
        let pw = (n + a - 1) / a;
        assert(1 <= pw < n) by (nonlinear_arith)
            requires
                2 <= a,
                a < n,
                pw == (n + a - 1) / a;
        lemma_merkle_depth_pos(pw, a);
    }
}

/// The tree depth is logarithmic: k halvings cover a leaf count within
/// the k-th power of two.
proof fn lemma_merkle_depth_log(n: int, a: int, k: nat)
    requires
        1 <= n,
        2 <= a,
        n <= pow2(k) as int,
    ensures
        merkle_depth_spec(n, a) <= k + 1,
    decreases k,
{
    if n > a {
        let pw = (n + a - 1) / a;
        assert(1 <= pw && 2 * pw <= n + 1) by (nonlinear_arith)
            requires
                2 <= a,
                a < n,
                pw == (n + a - 1) / a;
        assert(k >= 2) by {
            vstd::arithmetic::power2::lemma2_to64();
            if k < 2 {
                assert(pow2(k) <= 2);
            }
        };
        assert(pow2(k) == 2 * pow2((k - 1) as nat)) by {
            lemma_pow2_adds((k - 1) as nat, 1);
            vstd::arithmetic::power2::lemma2_to64();
        };
        assert(pw <= pow2((k - 1) as nat) as int);
        lemma_merkle_depth_log(pw, a, (k - 1) as nat);
    }
}

/// The padded parent width is the ceiling division by the arity.
proof fn lemma_parent_width_ceil(n: int, a: int)
    requires
        1 <= n,
        2 <= a,
    ensures
        crate::merkle::parent_width(n, a) == (n + a - 1) / a,
{
    if n % a == 0 {
        assert(n / a == (n + a - 1) / a) by (nonlinear_arith)
            requires
                1 <= n,
                2 <= a,
                n % a == 0;
    } else {
        assert((n + (a - n % a)) / a == (n + a - 1) / a) by (nonlinear_arith)
            requires
                1 <= n,
                2 <= a,
                n % a != 0;
    }
}

/// A uniform arity vector as long as the tree's depth reduces the leaf
/// count to one node.
proof fn lemma_uniform_arities_reduce(n: int, a: int, arities: Seq<usize>, k: int)
    requires
        1 <= n,
        2 <= a,
        n + a <= usize::MAX,
        0 <= k <= arities.len(),
        arities.len() - k >= merkle_depth_spec(n, a),
        forall|j: int| 0 <= j < arities.len() ==> (#[trigger] arities[j]) as int == a,
    ensures
        crate::merkle::arities_reduce(n, arities, k),
    decreases n,
{
    if n > 1 {
        lemma_parent_width_ceil(n, a);
        let pw = crate::merkle::parent_width(n, a);
        assert(1 <= pw < n) by (nonlinear_arith)
            requires
                2 <= n,
                2 <= a,
                pw == (n + a - 1) / a;
        if n <= a {
            assert(pw == 1) by (nonlinear_arith)
                requires
                    2 <= n <= a,
                    pw == (n + a - 1) / a;
            assert(crate::merkle::arities_reduce(pw, arities, k + 1));
        } else {
            assert(merkle_depth_spec(n, a) == 1 + merkle_depth_spec(pw, a));
            lemma_merkle_depth_pos(pw, a);
            lemma_uniform_arities_reduce(pw, a, arities, k + 1);
        }
    }
}

/// The sizes of the successive layers under a schedule.
pub fn layer_sizes_from_schedule(n0: usize, schedule: &Vec<usize>) -> (r: Result<
    Vec<usize>,
    ProtocolError,
>)
    ensures
        r matches Ok(sizes) ==> {
            &&& sizes@.len() == schedule@.len() + 1
            &&& sizes@[0] == n0
            &&& forall|l: int|
                0 <= l < schedule@.len() ==> (#[trigger] schedule@[l]) >= 1 && sizes@[l] as int
                    % schedule@[l] as int == 0 && sizes@[l + 1] as int == sizes@[l] as int
                    / schedule@[l] as int
        },
        r is Ok <==> schedule_divides(n0 as int, schedule@),
        r matches Err(e) ==> e == ProtocolError::ConfigError,
{
    let mut sizes: Vec<usize> = Vec::new();
    let mut n = n0;
    sizes.push(n);
    let count = schedule.len();
    proof {
        assert(schedule@.subrange(0, count as int) =~= schedule@);
    }
    let mut l: usize = 0;
    while l < count
        invariant
            l <= count,
            count == schedule@.len(),
            sizes@.len() == l + 1,
            sizes@[0] == n0,
            n == sizes@[l as int],
            schedule_divides(n0 as int, schedule@) <==> schedule_divides(
                n as int,
                schedule@.subrange(l as int, count as int),
            ),
            forall|q: int|
                0 <= q < l as int ==> (#[trigger] schedule@[q]) >= 1 && sizes@[q] as int
                    % schedule@[q] as int == 0 && sizes@[q + 1] as int == sizes@[q] as int
                    / schedule@[q] as int,
        decreases count - l,
    {
        let m = schedule[l];
        proof {
            let tail = schedule@.subrange(l as int, count as int);
            assert(tail[0] == schedule@[l as int]);
            assert(tail.subrange(1, tail.len() as int) =~= schedule@.subrange(
                l as int + 1,
                count as int,
            ));
        }
        if m == 0 || n % m != 0 {
            return Err(ProtocolError::ConfigError);
        }
        n = n / m;
        sizes.push(n);
        l = l + 1;
    }
    proof {
        assert(schedule@.subrange(count as int, count as int).len() == 0);
    }
    Ok(sizes)
}

/// Every factor of the schedule is positive and divides the running layer
/// size exactly.
pub open spec fn schedule_divides(n0: int, sched: Seq<usize>) -> bool
    decreases sched.len(),
{
    sched.len() == 0 || (sched[0] >= 1 && n0 % (sched[0] as int) == 0 && schedule_divides(
        n0 / (sched[0] as int),
        sched.subrange(1, sched.len() as int),
    ))
}

/// Every factor of the schedule is a power of two dividing the running
/// layer size exactly.
pub open spec fn schedule_pow2_divides(n0: int, sched: Seq<usize>) -> bool
    decreases sched.len(),
{
    sched.len() == 0 || (pow2_size(sched[0] as nat) && n0 % (sched[0] as int) == 0
        && schedule_pow2_divides(n0 / (sched[0] as int), sched.subrange(1, sched.len() as int)))
}

/// Every DEEP-quotient denominator of one layer passes the run-time
/// inversion check: at each domain point x = w^i, each coordinate of
/// x - z has a verified Fermat inverse.
pub open spec fn layer_denoms_ok(w: int, n_l: int, z0: int, z1: int, z2: int) -> bool {
    forall|i: int|
        0 <= i < n_l ==> {
            &&& fmul(finv(fsub(#[trigger] fpow(w, i as nat), z0)), fsub(fpow(w, i as nat), z0))
                == 1
            &&& fmul(finv(fsub(fpow(w, i as nat), z1)), fsub(fpow(w, i as nat), z1)) == 1
            &&& fmul(finv(fsub(fpow(w, i as nat), z2)), fsub(fpow(w, i as nat), z2)) == 1
        }
}

/// Under a parameter set, the statement challenge avoids every layer's
/// domain: all quotient denominators pass the inversion checks.
pub open spec fn all_layers_denoms_ok(
    pp: crate::poseidon::PoseidonParams,
    n0: int,
    sched: Seq<usize>,
    n0u: u64,
    seed_z: u64,
) -> bool {
    let c = statement_challenges(pp, sched, n0u, seed_z);
    forall|l: int|
        0 <= l < sched.len() ==> layer_denoms_ok(
            domain_omega_spec(layer_width(n0, sched, l) as nat),
            layer_width(n0, sched, l),
            c.0,
            c.1,
            c.2,
        )
}

/// The inputs on which the layer builder is owed success: a schedule of
/// power-of-two factors dividing through, room to pad the widest layer,
/// and a statement challenge whose layer denominators all pass the
/// inversion checks.
pub open spec fn build_succeeds_on(n0: usize, sched: Seq<usize>, seed_z: u64) -> bool {
    &&& schedule_pow2_divides(n0 as int, sched)
    &&& n0 + 128 <= usize::MAX
    &&& forall|pp: crate::poseidon::PoseidonParams| #[trigger] crate::poseidon::params_from_seed(
        pp,
        crate::tags::tag_poseidon_transcript_seed(),
    ) ==> all_layers_denoms_ok(pp, n0 as int, sched, n0 as u64, seed_z)
}

/// Serializes a field element into a 32-byte seed: its eight canonical
/// bytes followed by zeros.
pub fn field_to_seed32(x: Goldilocks) -> (r: Vec<u8>)
    ensures
        r@.len() == 32,
        r@ == crate::hash::seed32_of(x),
{
    let mut out = crate::hash::field_to_bytes(x);
    let mut i: usize = 8;
    while i < 32
        invariant
            8 <= i <= 32,
            out@.len() == i,
            out@.subrange(0, 8) == vstd::bytes::spec_u64_to_le_bytes(x.v),
            forall|j: int| 8 <= j < i as int ==> out@[j] == 0u8,
        decreases 32 - i,
    {
        out.push(0u8);
        proof {
            assert(out@.subrange(0, 8) =~= out@.drop_last().subrange(0, 8));
        }
        i = i + 1;
    }
    proof {
        assert(out@ =~= crate::hash::seed32_of(x));
    }
    out
}

/// The challenge the tagged hash-to-field emits under a parameter set: a
/// fresh sponge absorbs the module tag as its init label, then the given
/// tag and the field residues, and answers one output challenge.
pub open spec fn fs_hash_spec(
    p: crate::poseidon::PoseidonParams,
    tag: Seq<u8>,
    fields: Seq<int>,
) -> int {
    crate::transcript::pb_challenge(
        crate::transcript::pb_absorb_seq(
            crate::transcript::pb_absorb_bytes(
                crate::transcript::pb_init(p, crate::tags::tag_fri_fs()),
                p,
                tag,
            ),
            p,
            fields,
        ),
        p,
        crate::tags::tag_out(),
    ).1
}

/// The tagged hash agrees across parameter sets derived from one seed.
pub proof fn lemma_fs_hash_spec_agree(
    p1: crate::poseidon::PoseidonParams,
    p2: crate::poseidon::PoseidonParams,
    seed: Seq<u8>,
    tag: Seq<u8>,
    fields: Seq<int>,
)
    requires
        crate::poseidon::params_from_seed(p1, seed),
        crate::poseidon::params_from_seed(p2, seed),
    ensures
        fs_hash_spec(p1, tag, fields) == fs_hash_spec(p2, tag, fields),
{
    crate::poseidon::lemma_params_from_seed_agree(p1, p2, seed);
    crate::transcript::lemma_pb_init_congruence(p1, p2, crate::tags::tag_fri_fs());
    let v0 = crate::transcript::pb_init(p1, crate::tags::tag_fri_fs());
    crate::transcript::lemma_pb_absorb_bytes_congruence(v0, p1, p2, tag);
    let v1 = crate::transcript::pb_absorb_bytes(v0, p1, tag);
    crate::transcript::lemma_pb_absorb_seq_congruence(v1, p1, p2, fields);
    let v2 = crate::transcript::pb_absorb_seq(v1, p1, fields);
    crate::transcript::lemma_pb_challenge_congruence(v2, p1, p2, crate::tags::tag_out());
}

/// A hash-to-field over the transcript: a fresh Fiat-Shamir sponge absorbs
/// a tag and a run of field elements and emits one challenge, a function
/// of the tag and the values alone.
pub fn tr_hash_fields_tagged(tag: &Vec<u8>, fields: &Vec<Goldilocks>) -> (r: Goldilocks)
    requires
        seq_wf(fields@),
    ensures
        r.wf(),
        forall|p: crate::poseidon::PoseidonParams| #[trigger] crate::poseidon::params_from_seed(
            p,
            crate::tags::tag_poseidon_transcript_seed(),
        ) ==> r@ == fs_hash_spec(p, tag@, vals(fields@)),
{
    let params = crate::poseidon::default_params();
    let label = crate::tags::tag_fri_fs_bytes();
    let mut tr = crate::transcript::Transcript::new(&label, params);
    tr.absorb_bytes(tag);
    let ghost s1 = crate::transcript::pb_absorb_bytes(
        crate::transcript::pb_init(params, crate::tags::tag_fri_fs()),
        params,
        tag@,
    );
    let n = fields.len();
    let mut i: usize = 0;
    while i < n
        invariant
            i <= n,
            n == fields@.len(),
            seq_wf(fields@),
            tr.wf(),
            tr@ == (crate::transcript::TranscriptView::Poseidon {
                sponge: crate::transcript::pb_absorb_seq(
                    s1,
                    params,
                    vals(fields@).take(i as int),
                ),
                params,
            }),
        decreases n - i,
    {
        let x = fields[i];
        tr.absorb_field(x);
        proof {
            assert(vals(fields@).take(i as int + 1).drop_last() =~= vals(fields@).take(i as int));
            assert(vals(fields@).take(i as int + 1).last() == fields@[i as int]@);
        }
        i = i + 1;
    }
    let out_label = crate::tags::tag_out_bytes();
    let r = tr.challenge(&out_label);
    proof {
        assert(vals(fields@).take(n as int) =~= vals(fields@));
        assert(r@ == fs_hash_spec(params, tag@, vals(fields@)));
        assert forall|p: crate::poseidon::PoseidonParams| #[trigger] crate::poseidon::params_from_seed(
            p,
            crate::tags::tag_poseidon_transcript_seed(),
        ) implies r@ == fs_hash_spec(p, tag@, vals(fields@)) by {
            lemma_fs_hash_spec_agree(
                params,
                p,
                crate::tags::tag_poseidon_transcript_seed(),
                tag@,
                vals(fields@),
            );
        }
    }
    r
}

/// The query seed: a tagged hash of all committed roots.
pub fn fs_seed_from_roots(roots: &Vec<Goldilocks>) -> (r: Goldilocks)
    requires
        seq_wf(roots@),
    ensures
        r.wf(),
        forall|p: crate::poseidon::PoseidonParams| #[trigger] crate::poseidon::params_from_seed(
            p,
            crate::tags::tag_poseidon_transcript_seed(),
        ) ==> r@ == fs_hash_spec(p, crate::tags::tag_fri_seed(), vals(roots@)),
{
    let tag = crate::tags::tag_fri_seed_bytes();
    tr_hash_fields_tagged(&tag, roots)
}

/// The residues the index seed hashes: the roots seed and the layer and
/// query counters.
pub open spec fn index_seed_fields(roots_seed: Goldilocks, ell: int, q: int) -> Seq<int> {
    seq![roots_seed@, ell % field_p(), q % field_p()]
}

/// The per-query, per-layer index seed: a tagged hash of the roots seed
/// and the two counters.
pub fn index_seed(roots_seed: Goldilocks, ell: usize, q: usize) -> (r: Goldilocks)
    requires
        roots_seed.wf(),
    ensures
        r.wf(),
        forall|p: crate::poseidon::PoseidonParams| #[trigger] crate::poseidon::params_from_seed(
            p,
            crate::tags::tag_poseidon_transcript_seed(),
        ) ==> r@ == fs_hash_spec(
            p,
            crate::tags::tag_fri_index(),
            index_seed_fields(roots_seed, ell as int, q as int),
        ),
{
    let tag = crate::tags::tag_fri_index_bytes();
    let fields: Vec<Goldilocks> = vec![
        roots_seed,
        Goldilocks::from_u64(ell as u64),
        Goldilocks::from_u64(q as u64),
    ];
    proof {
        assert(vals(fields@) =~= index_seed_fields(roots_seed, ell as int, q as int));
    }
    tr_hash_fields_tagged(&tag, &fields)
}

/// Draws an index below a power-of-two bound from a seed, through the
/// deterministic standard generator: the first draw of the stream seeded
/// by the field element, masked to the bound.
pub fn index_from_seed(seed_f: Goldilocks, n_pow2: usize) -> (r: usize)
    requires
        n_pow2 >= 1,
        pow2_size(n_pow2 as nat),
    ensures
        r < n_pow2,
        r as u64 == stdrng_stream_of(crate::hash::seed32_of(seed_f), 1)[0] & ((n_pow2 - 1) as u64),
{
    let seed_bytes = field_to_seed32(seed_f);
    let draws = crate::hash::stdrng_u64_stream(&seed_bytes, 1);
    let x = draws[0];
    let mask = (n_pow2 - 1) as u64;
    let masked = x & mask;
    proof {
        assert(masked <= mask) by (bit_vector)
            requires
                masked == x & mask;
    }
    masked as usize
}

/// Reduction modulo the machine-word span, as a wrapping add leaves it.
pub open spec fn wrap64(x: int) -> int {
    x % 0x1_0000_0000_0000_0000
}

/// The candidate test: a nonzero residue whose n-th power is not one.
pub open spec fn z_candidate_ok(c: int, n: nat) -> bool {
    c != 0 && fpow(c, n) != 1
}

/// The first accepted candidate at or after position t, minus one when
/// the stream runs out.
pub open spec fn z_search(draws: Seq<u64>, n: nat, t: int) -> int
    decreases draws.len() - t,
{
    if t < 0 || t >= draws.len() {
        -1
    } else if z_candidate_ok((draws[t] as int) % field_p(), n) {
        (draws[t] as int) % field_p()
    } else {
        z_search(draws, n, t + 1)
    }
}

/// A found candidate passed the test: it is nonzero with n-th power
/// different from one.
pub proof fn lemma_z_search_found(draws: Seq<u64>, n: nat, t: int)
    requires
        z_search(draws, n, t) >= 0,
    ensures
        z_candidate_ok(z_search(draws, n, t), n),
    decreases draws.len() - t,
{
    if !(t < 0 || t >= draws.len()) && !z_candidate_ok((draws[t] as int) % field_p(), n) {
        lemma_z_search_found(draws, n, t + 1);
    }
}

/// The sampled per-layer challenge under a parameter set: the first
/// accepted draw of the stream seeded by the fused tagged hash; failing a
/// thousand draws, the shifted seed when it passes the test, else eleven.
pub open spec fn sample_z_spec(
    p: crate::poseidon::PoseidonParams,
    seed_z: u64,
    level: u64,
    dsz: u64,
) -> int {
    let fused = fs_hash_spec(
        p,
        crate::tags::tag_fri_z_l(),
        seq![
            (seed_z as int) % field_p(),
            (level as int) % field_p(),
            (dsz as int) % field_p(),
        ],
    );
    let draws = stdrng_stream_of(crate::hash::seed32_of(Goldilocks { v: fused as u64 }), 1000);
    let found = z_search(draws, dsz as nat, 0);
    if found >= 0 {
        found
    } else {
        let fb = wrap64(wrap64(seed_z as int + level as int) + 7) % field_p();
        if fpow(fb, dsz as nat) != 1 {
            fb
        } else {
            11
        }
    }
}

/// Samples the per-layer challenge outside the domain: a tagged hash seeds
/// the generator, and candidates are drawn until one is nonzero with its
/// n-th power different from one; a bounded retry falls back to values
/// derived from the seed.  The result is the sampling function of the
/// statement values alone.
pub fn fri_sample_z_ell(seed_z: u64, level: usize, domain_size: usize) -> (r: Goldilocks)
    requires
        domain_size >= 1,
    ensures
        r.wf(),
        forall|p: crate::poseidon::PoseidonParams| #[trigger] crate::poseidon::params_from_seed(
            p,
            crate::tags::tag_poseidon_transcript_seed(),
        ) ==> r@ == sample_z_spec(p, seed_z, level as u64, domain_size as u64),
        forall|p: crate::poseidon::PoseidonParams| #[trigger] crate::poseidon::params_from_seed(
            p,
            crate::tags::tag_poseidon_transcript_seed(),
        ) ==> ({
            let fused = fs_hash_spec(
                p,
                crate::tags::tag_fri_z_l(),
                seq![
                    (seed_z as int) % field_p(),
                    (level as int) % field_p(),
                    (domain_size as int) % field_p(),
                ],
            );
            let draws = stdrng_stream_of(
                crate::hash::seed32_of(Goldilocks { v: fused as u64 }),
                1000,
            );
            z_search(draws, domain_size as nat, 0) >= 0 ==> (r@ != 0 && fpow(
                r@,
                domain_size as nat,
            ) != 1)
        }),
{
    let tag = crate::tags::tag_fri_z_l_bytes();
    let fields: Vec<Goldilocks> = vec![
        Goldilocks::from_u64(seed_z),
        Goldilocks::from_u64(level as u64),
        Goldilocks::from_u64(domain_size as u64),
    ];
    proof {
        assert(vals(fields@) =~= seq![
            (seed_z as int) % field_p(),
            (level as int) % field_p(),
            (domain_size as int) % field_p(),
        ]);
    }
    let fused = tr_hash_fields_tagged(&tag, &fields);
    let seed_bytes = field_to_seed32(fused);
    let draws = crate::hash::stdrng_u64_stream(&seed_bytes, 1000);
    let ghost nn = domain_size as nat;
    let count = draws.len();
    let mut t: usize = 0;
    while t < count
        invariant
            t <= count,
            count == draws@.len(),
            count == 1000,
            domain_size >= 1,
            nn == domain_size as nat,
            fused.wf(),
            forall|p: crate::poseidon::PoseidonParams| #[trigger] crate::poseidon::params_from_seed(
                p,
                crate::tags::tag_poseidon_transcript_seed(),
            ) ==> fused@ == fs_hash_spec(
                p,
                crate::tags::tag_fri_z_l(),
                seq![
                    (seed_z as int) % field_p(),
                    (level as int) % field_p(),
                    (domain_size as int) % field_p(),
                ],
            ),
            draws@ == stdrng_stream_of(crate::hash::seed32_of(fused), 1000),
            z_search(draws@, nn, 0) == z_search(draws@, nn, t as int),
        decreases count - t,
    {
        let cand = Goldilocks::from_u64(draws[t]);
        if !cand.is_zero() {
            let p = cand.pow(domain_size as u64);
            if p.to_u64() != 1 {
                proof {
                    assert(z_search(draws@, nn, t as int) == cand@);
                    sample_z_ensures(seed_z, level, domain_size, fused, draws@, cand);
                }
                return cand;
            }
        }
        proof {
            assert(z_search(draws@, nn, t as int) == z_search(draws@, nn, t as int + 1));
        }
        t = t + 1;
    }
    proof {
        assert(z_search(draws@, nn, count as int) == -1);
    }
    let fallback = Goldilocks::from_u64(seed_z.wrapping_add(level as u64).wrapping_add(7));
    proof {
        lemma_wrapping_chain(seed_z, level as u64);
    }
    let p = fallback.pow(domain_size as u64);
    if p.to_u64() != 1 {
        proof {
            sample_z_ensures(seed_z, level, domain_size, fused, draws@, fallback);
        }
        return fallback;
    }
    let eleven = Goldilocks::from_u64(11);
    proof {
        lemma_small_mod(11nat, MODULUS as nat);
        sample_z_ensures(seed_z, level, domain_size, fused, draws@, eleven);
    }
    eleven
}

/// The wrapped double add is the reduction of the plain sums.
proof fn lemma_wrapping_chain(a: u64, b: u64)
    ensures
        vstd::wrapping::u64_specs::wrapping_add(
            vstd::wrapping::u64_specs::wrapping_add(a, b),
            7u64,
        ) as int == wrap64(wrap64(a as int + b as int) + 7),
{
    let m: int = 0x1_0000_0000_0000_0000;
    let s = a as int + b as int;
    if s < m {
        lemma_small_mod(s as nat, m as nat);
    } else {
        vstd::arithmetic::div_mod::lemma_mod_multiples_vanish(1, s - m, m);
        lemma_small_mod((s - m) as nat, m as nat);
    }
    assert(vstd::wrapping::u64_specs::wrapping_add(a, b) as int == wrap64(s));
    let s2 = wrap64(s) + 7;
    if s2 < m {
        lemma_small_mod(s2 as nat, m as nat);
    } else {
        vstd::arithmetic::div_mod::lemma_mod_multiples_vanish(1, s2 - m, m);
        lemma_small_mod((s2 - m) as nat, m as nat);
    }
}

/// Discharges the sampling contract at one return point: the returned
/// value matches the sampling function under every conforming parameter
/// set.
proof fn sample_z_ensures(
    seed_z: u64,
    level: usize,
    domain_size: usize,
    fused: Goldilocks,
    draws: Seq<u64>,
    r: Goldilocks,
)
    requires
        fused.wf(),
        forall|p: crate::poseidon::PoseidonParams| #[trigger] crate::poseidon::params_from_seed(
            p,
            crate::tags::tag_poseidon_transcript_seed(),
        ) ==> fused@ == fs_hash_spec(
            p,
            crate::tags::tag_fri_z_l(),
            seq![
                (seed_z as int) % field_p(),
                (level as int) % field_p(),
                (domain_size as int) % field_p(),
            ],
        ),
        draws == stdrng_stream_of(crate::hash::seed32_of(fused), 1000),
        draws.len() == 1000,
        ({
            let found = z_search(draws, domain_size as nat, 0);
            if found >= 0 {
                r@ == found
            } else {
                let fb = wrap64(wrap64(seed_z as int + level as int) + 7) % field_p();
                if fpow(fb, domain_size as nat) != 1 {
                    r@ == fb
                } else {
                    r@ == 11
                }
            }
        }),
    ensures
        forall|p: crate::poseidon::PoseidonParams| #[trigger] crate::poseidon::params_from_seed(
            p,
            crate::tags::tag_poseidon_transcript_seed(),
        ) ==> r@ == sample_z_spec(p, seed_z, level as u64, domain_size as u64),
        forall|p: crate::poseidon::PoseidonParams| #[trigger] crate::poseidon::params_from_seed(
            p,
            crate::tags::tag_poseidon_transcript_seed(),
        ) ==> ({
            let fused_p = fs_hash_spec(
                p,
                crate::tags::tag_fri_z_l(),
                seq![
                    (seed_z as int) % field_p(),
                    (level as int) % field_p(),
                    (domain_size as int) % field_p(),
                ],
            );
            let draws_p = stdrng_stream_of(
                crate::hash::seed32_of(Goldilocks { v: fused_p as u64 }),
                1000,
            );
            z_search(draws_p, domain_size as nat, 0) >= 0 ==> (r@ != 0 && fpow(
                r@,
                domain_size as nat,
            ) != 1)
        }),
{
    assert forall|p: crate::poseidon::PoseidonParams| #[trigger] crate::poseidon::params_from_seed(
        p,
        crate::tags::tag_poseidon_transcript_seed(),
    ) implies ({
        let fused_p = fs_hash_spec(
            p,
            crate::tags::tag_fri_z_l(),
            seq![
                (seed_z as int) % field_p(),
                (level as int) % field_p(),
                (domain_size as int) % field_p(),
            ],
        );
        let draws_p = stdrng_stream_of(
            crate::hash::seed32_of(Goldilocks { v: fused_p as u64 }),
            1000,
        );
        &&& r@ == sample_z_spec(p, seed_z, level as u64, domain_size as u64)
        &&& (z_search(draws_p, domain_size as nat, 0) >= 0 ==> (r@ != 0 && fpow(
            r@,
            domain_size as nat,
        ) != 1))
    }) by {
        let fused_p = fs_hash_spec(
            p,
            crate::tags::tag_fri_z_l(),
            seq![
                (seed_z as int) % field_p(),
                (level as int) % field_p(),
                (domain_size as int) % field_p(),
            ],
        );
        assert(fused@ == fused_p);
        assert(Goldilocks { v: fused_p as u64 } == fused);
        if z_search(draws, domain_size as nat, 0) >= 0 {
            lemma_z_search_found(draws, domain_size as nat, 0);
        }
    }
}


/// Whether a layer width divides into its folding factor as powers of two.
proof fn lemma_pow2_size_div(n: nat, m: nat)
    requires
        pow2_size(n),
        pow2_size(m),
        m <= n,
        n % m == 0,
    ensures
        pow2_size(n / m),
        n / m >= 1,
    decreases m,
{
    if m == 1 {
        assert(n / 1 == n);
    } else {
        assert(m >= 2);
        if n < 2 {
            assert(m <= n <= 1);
            assert(false);
        }
        assert(pow2_size(n));
        assert(n % 2 == 0);
        let q = (n / m) as int;
        let ni = n as int;
        let mi = m as int;
        assert(ni == mi * q) by {
            lemma_fundamental_div_mod(ni, mi);
        };
        assert(ni / 2 == (mi / 2) * q) by (nonlinear_arith)
            requires
                ni == mi * q,
                mi % 2 == 0,
                ni % 2 == 0,
                mi >= 2;
        assert(((mi / 2) * q) % (mi / 2) == 0) by {
            vstd::arithmetic::mul::lemma_mul_is_commutative(mi / 2, q);
            vstd::arithmetic::div_mod::lemma_mod_multiples_basic(q, mi / 2);
        };
        assert(((mi / 2) * q) / (mi / 2) == q) by {
            vstd::arithmetic::div_mod::lemma_div_multiples_vanish(q, mi / 2);
        };
        assert(m / 2 <= n / 2);
        lemma_pow2_size_div(n / 2, m / 2);
    }
}

/// Checks whether a width is a positive power of two.
pub fn pow2_size_check(n: usize) -> (r: bool)
    ensures
        r == pow2_size(n as nat),
{
    if n == 0 {
        return false;
    }
    let mut m = n;
    while m > 1 && m % 2 == 0
        invariant
            m >= 1,
            pow2_size(n as nat) == pow2_size(m as nat),
        decreases m,
    {
        m = m / 2;
    }
    m == 1
}

/// The transcript state after the schedule factors from position k on are
/// absorbed in order.
pub open spec fn tv_absorb_sched(
    v: crate::transcript::TranscriptView,
    sched: Seq<usize>,
    k: int,
) -> crate::transcript::TranscriptView
    decreases sched.len() - k,
{
    if k < 0 || k >= sched.len() {
        v
    } else {
        tv_absorb_sched(
            crate::transcript::tv_absorb_field(v, crate::field::from_u64_spec(sched[k] as u64)),
            sched,
            k + 1,
        )
    }
}

/// The transcript state after the whole statement is absorbed: the
/// statement tag, the base size, the schedule length and factors, and the
/// challenge seed.
pub open spec fn tv_bind_statement(
    v: crate::transcript::TranscriptView,
    sched: Seq<usize>,
    n0: u64,
    seed_z: u64,
) -> crate::transcript::TranscriptView {
    let v1 = crate::transcript::tv_absorb_bytes(v, crate::tags::tag_deep_fri_statement());
    let v2 = crate::transcript::tv_absorb_field(v1, crate::field::from_u64_spec(n0));
    let v3 = crate::transcript::tv_absorb_field(
        v2,
        crate::field::from_u64_spec(sched.len() as u64),
    );
    let v4 = tv_absorb_sched(v3, sched, 0);
    crate::transcript::tv_absorb_field(v4, crate::field::from_u64_spec(seed_z))
}

/// The sponge state after the schedule factors from position k on are
/// absorbed in order, as residues.
pub open spec fn pb_absorb_sched(
    s: crate::transcript::SpongeView,
    p: crate::poseidon::PoseidonParams,
    sched: Seq<usize>,
    k: int,
) -> crate::transcript::SpongeView
    decreases sched.len() - k,
{
    if k < 0 || k >= sched.len() {
        s
    } else {
        pb_absorb_sched(
            crate::transcript::pb_absorb1(s, p, (sched[k] as int) % field_p()),
            p,
            sched,
            k + 1,
        )
    }
}

/// The sponge state after the whole statement is absorbed.
pub open spec fn pb_bind_statement(
    s: crate::transcript::SpongeView,
    p: crate::poseidon::PoseidonParams,
    sched: Seq<usize>,
    n0: u64,
    seed_z: u64,
) -> crate::transcript::SpongeView {
    let s1 = crate::transcript::pb_absorb_bytes(s, p, crate::tags::tag_deep_fri_statement());
    let s2 = crate::transcript::pb_absorb1(s1, p, (n0 as int) % field_p());
    let s3 = crate::transcript::pb_absorb1(s2, p, (sched.len() as int) % field_p());
    let s4 = pb_absorb_sched(s3, p, sched, 0);
    crate::transcript::pb_absorb1(s4, p, (seed_z as int) % field_p())
}

/// The challenges the statement transcript emits: the three product-ring
/// coordinates of the DEEP challenge, then the query and trace seed.
pub open spec fn statement_challenges(
    p: crate::poseidon::PoseidonParams,
    sched: Seq<usize>,
    n0: u64,
    seed_z: u64,
) -> (int, int, int, int) {
    let s1 = pb_bind_statement(
        crate::transcript::pb_init(p, crate::tags::tag_fri_fs()),
        p,
        sched,
        n0,
        seed_z,
    );
    let (s2, z0) = crate::transcript::pb_challenge(s1, p, crate::tags::tag_z_a0());
    let (s3, z1) = crate::transcript::pb_challenge(s2, p, crate::tags::tag_z_a1());
    let (s4, z2) = crate::transcript::pb_challenge(s3, p, crate::tags::tag_z_a2());
    (z0, z1, z2, crate::transcript::pb_challenge(s4, p, crate::tags::tag_fri_seed()).1)
}

/// On a Poseidon-backed view, absorbing the schedule acts on the sponge.
proof fn lemma_tv_sched_poseidon(
    s: crate::transcript::SpongeView,
    p: crate::poseidon::PoseidonParams,
    sched: Seq<usize>,
    k: int,
)
    ensures
        tv_absorb_sched(
            crate::transcript::TranscriptView::Poseidon { sponge: s, params: p },
            sched,
            k,
        ) == (crate::transcript::TranscriptView::Poseidon {
            sponge: pb_absorb_sched(s, p, sched, k),
            params: p,
        }),
    decreases sched.len() - k,
{
    if 0 <= k < sched.len() {
        crate::field::lemma_from_u64_spec(sched[k] as u64);
        lemma_tv_sched_poseidon(
            crate::transcript::pb_absorb1(s, p, (sched[k] as int) % field_p()),
            p,
            sched,
            k + 1,
        );
    }
}

/// On a Poseidon-backed view, binding the statement acts on the sponge.
#[verifier::rlimit(100)]
#[verifier::spinoff_prover]
proof fn lemma_tv_bind_poseidon(
    s: crate::transcript::SpongeView,
    p: crate::poseidon::PoseidonParams,
    sched: Seq<usize>,
    n0: u64,
    seed_z: u64,
)
    requires
        sched.len() < 0x1_0000_0000_0000_0000,
    ensures
        tv_bind_statement(
            crate::transcript::TranscriptView::Poseidon { sponge: s, params: p },
            sched,
            n0,
            seed_z,
        ) == (crate::transcript::TranscriptView::Poseidon {
            sponge: pb_bind_statement(s, p, sched, n0, seed_z),
            params: p,
        }),
{
    let s1 = crate::transcript::pb_absorb_bytes(s, p, crate::tags::tag_deep_fri_statement());
    let s2 = crate::transcript::pb_absorb1(s1, p, (n0 as int) % field_p());
    let s3 = crate::transcript::pb_absorb1(s2, p, (sched.len() as int) % field_p());
    crate::field::lemma_from_u64_spec(n0);
    crate::field::lemma_from_u64_spec(sched.len() as u64);
    crate::field::lemma_from_u64_spec(seed_z);
    let v0 = crate::transcript::TranscriptView::Poseidon { sponge: s, params: p };
    let v1 = crate::transcript::tv_absorb_bytes(v0, crate::tags::tag_deep_fri_statement());
    assert(v1 == (crate::transcript::TranscriptView::Poseidon { sponge: s1, params: p }));
    let v2 = crate::transcript::tv_absorb_field(v1, crate::field::from_u64_spec(n0));
    assert(v2 == (crate::transcript::TranscriptView::Poseidon { sponge: s2, params: p }));
    let v3 = crate::transcript::tv_absorb_field(
        v2,
        crate::field::from_u64_spec(sched.len() as u64),
    );
    assert(v3 == (crate::transcript::TranscriptView::Poseidon { sponge: s3, params: p }));
    lemma_tv_sched_poseidon(s3, p, sched, 0);
    let s4 = pb_absorb_sched(s3, p, sched, 0);
    let v4 = tv_absorb_sched(v3, sched, 0);
    assert(v4 == (crate::transcript::TranscriptView::Poseidon { sponge: s4, params: p }));
    let v5 = crate::transcript::tv_absorb_field(v4, crate::field::from_u64_spec(seed_z));
    assert(v5 == (crate::transcript::TranscriptView::Poseidon {
        sponge: crate::transcript::pb_absorb1(s4, p, (seed_z as int) % field_p()),
        params: p,
    }));
    assert(tv_bind_statement(v0, sched, n0, seed_z) == v5);
    assert(pb_bind_statement(s, p, sched, n0, seed_z) == crate::transcript::pb_absorb1(
        s4,
        p,
        (seed_z as int) % field_p(),
    ));
}

/// Absorbing the schedule agrees across parameter sets with equal
/// constants.
proof fn lemma_pb_absorb_sched_congruence(
    s: crate::transcript::SpongeView,
    p1: crate::poseidon::PoseidonParams,
    p2: crate::poseidon::PoseidonParams,
    sched: Seq<usize>,
    k: int,
)
    requires
        p1.mds_v() == p2.mds_v(),
        p1.rc_full_v() == p2.rc_full_v(),
        p1.rc_partial_v() == p2.rc_partial_v(),
    ensures
        pb_absorb_sched(s, p1, sched, k) == pb_absorb_sched(s, p2, sched, k),
    decreases sched.len() - k,
{
    if 0 <= k < sched.len() {
        crate::transcript::lemma_pb_absorb1_congruence(s, p1, p2, (sched[k] as int) % field_p());
        lemma_pb_absorb_sched_congruence(
            crate::transcript::pb_absorb1(s, p1, (sched[k] as int) % field_p()),
            p1,
            p2,
            sched,
            k + 1,
        );
    }
}

/// The statement challenges agree across parameter sets derived from one
/// seed.
pub proof fn lemma_statement_challenges_agree(
    p1: crate::poseidon::PoseidonParams,
    p2: crate::poseidon::PoseidonParams,
    seed: Seq<u8>,
    sched: Seq<usize>,
    n0: u64,
    seed_z: u64,
)
    requires
        crate::poseidon::params_from_seed(p1, seed),
        crate::poseidon::params_from_seed(p2, seed),
    ensures
        statement_challenges(p1, sched, n0, seed_z) == statement_challenges(
            p2,
            sched,
            n0,
            seed_z,
        ),
{
    crate::poseidon::lemma_params_from_seed_agree(p1, p2, seed);
    crate::transcript::lemma_pb_init_congruence(p1, p2, crate::tags::tag_fri_fs());
    let s0 = crate::transcript::pb_init(p1, crate::tags::tag_fri_fs());
    crate::transcript::lemma_pb_absorb_bytes_congruence(
        s0,
        p1,
        p2,
        crate::tags::tag_deep_fri_statement(),
    );
    let s1 = crate::transcript::pb_absorb_bytes(s0, p1, crate::tags::tag_deep_fri_statement());
    crate::transcript::lemma_pb_absorb1_congruence(s1, p1, p2, (n0 as int) % field_p());
    let s2 = crate::transcript::pb_absorb1(s1, p1, (n0 as int) % field_p());
    crate::transcript::lemma_pb_absorb1_congruence(s2, p1, p2, (sched.len() as int) % field_p());
    let s3 = crate::transcript::pb_absorb1(s2, p1, (sched.len() as int) % field_p());
    lemma_pb_absorb_sched_congruence(s3, p1, p2, sched, 0);
    let s4 = pb_absorb_sched(s3, p1, sched, 0);
    let sb = crate::transcript::pb_absorb1(s4, p1, (seed_z as int) % field_p());
    crate::transcript::lemma_pb_absorb1_congruence(s4, p1, p2, (seed_z as int) % field_p());
    crate::transcript::lemma_pb_challenge_congruence(sb, p1, p2, crate::tags::tag_z_a0());
    let (c2, _z0) = crate::transcript::pb_challenge(sb, p1, crate::tags::tag_z_a0());
    crate::transcript::lemma_pb_challenge_congruence(c2, p1, p2, crate::tags::tag_z_a1());
    let (c3, _z1) = crate::transcript::pb_challenge(c2, p1, crate::tags::tag_z_a1());
    crate::transcript::lemma_pb_challenge_congruence(c3, p1, p2, crate::tags::tag_z_a2());
    let (c4, _z2) = crate::transcript::pb_challenge(c3, p1, crate::tags::tag_z_a2());
    crate::transcript::lemma_pb_challenge_congruence(c4, p1, p2, crate::tags::tag_fri_seed());
}

/// Absorbs the statement into the transcript: the statement tag, the base
/// domain size, the schedule with its length, and the challenge seed.
pub fn bind_statement_to_transcript(
    tr: &mut crate::transcript::Transcript,
    schedule: &Vec<usize>,
    n0: usize,
    seed_z: u64,
)
    requires
        old(tr).wf(),
    ensures
        final(tr).wf(),
        final(tr)@ == tv_bind_statement(old(tr)@, schedule@, n0 as u64, seed_z),
{
    let tag = crate::tags::tag_deep_fri_statement_bytes();
    tr.absorb_bytes(&tag);
    tr.absorb_field(Goldilocks::from_u64(n0 as u64));
    tr.absorb_field(Goldilocks::from_u64(schedule.len() as u64));
    let ghost v3 = tr@;
    let count = schedule.len();
    let mut l: usize = 0;
    while l < count
        invariant
            l <= count,
            count == schedule@.len(),
            tr.wf(),
            tv_absorb_sched(v3, schedule@, 0) == tv_absorb_sched(tr@, schedule@, l as int),
        decreases count - l,
    {
        let m = schedule[l];
        tr.absorb_field(Goldilocks::from_u64(m as u64));
        l = l + 1;
    }
    tr.absorb_field(Goldilocks::from_u64(seed_z));
}

/// The Merkle root of one committed layer: the chain root over the leaf
/// tuple hashes (f, s, q.a0, q.a1, q.a2) under the layer's uniform arity
/// and depth.
pub open spec fn layer_commit_root(
    f: Seq<int>,
    s: Seq<int>,
    q: Seq<Fp3>,
    m_l: int,
    l: u64,
    trace: Seq<u8>,
) -> int {
    let n = f.len() as int;
    let a = layer_arity_spec(n, m_l);
    let depth = merkle_depth_spec(n, a);
    let leaves = Seq::new(
        f.len(),
        |i: int|
            crate::merkle::leaf_hash(
                a as usize,
                l,
                trace,
                i,
                seq![f[i], s[i], q[i].a0@, q[i].a1@, q[i].a2@],
            ),
    );
    crate::merkle::chain_root_from(leaves, uniform_arities_spec(depth, a as usize), 0, l, trace)
}

/// Builds the layer chain: binds the statement, draws the single DEEP
/// challenge over the product ring, folds layer by layer computing the
/// quotients and folded values, and commits every layer to a Merkle tree.
#[verifier::rlimit(100)]
#[verifier::spinoff_prover]
pub fn fri_build_transcript(
    f0: Vec<Goldilocks>,
    domain0: FriDomain,
    params: &FriProverParams,
) -> (r: Result<FriProverState, ProtocolError>)
    requires
        domain0.wf(),
        seq_wf(f0@),
        f0@.len() == domain0.size,
        1 <= domain0.size <= 0x1_0000_0000,
        params.schedule@.len() >= 1,
        params.schedule@.len() <= 64,
    ensures
        r matches Ok(st) ==> {
            &&& state_linked(st)
            &&& st.transcript.schedule@ == params.schedule@
            &&& st.f_layers@[0]@ == f0@
            &&& forall|e: int|
                0 <= e <= params.schedule@.len() ==> pow2_size(
                    (#[trigger] st.f_layers@[e])@.len() as nat,
                )
            &&& st.s_layers@[params.schedule@.len() as int]@.len() == st.f_layers@[
                params.schedule@.len() as int
            ]@.len()
            &&& seq_wf(st.s_layers@[params.schedule@.len() as int]@)
            &&& st.trace_seed.wf()
            &&& forall|i: int|
                0 <= i < st.s_layers@[params.schedule@.len() as int]@.len() ==> (
                #[trigger] st.s_layers@[params.schedule@.len() as int]@[i])@ == 0
            &&& forall|e: int|
                0 <= e < params.schedule@.len() ==> (#[trigger] st.omega_layers@[e])@
                    == domain_omega_spec(st.f_layers@[e]@.len() as nat) && is_radix2_root(
                    st.omega_layers@[e]@,
                    st.f_layers@[e]@.len() as nat,
                )
            &&& forall|e: int|
                0 <= e < params.schedule@.len() ==> (#[trigger] st.transcript.layers@[e]).n
                    == st.f_layers@[e]@.len() && st.transcript.layers@[e].m == params.schedule@[e]
                    && st.transcript.layers@[e].root.wf()
            &&& forall|e: int|
                0 <= e <= params.schedule@.len() ==> (#[trigger] st.f_layers@[e])@.len()
                    <= domain0.size
            &&& forall|pp: crate::poseidon::PoseidonParams| #[trigger] crate::poseidon::params_from_seed(
                pp,
                crate::tags::tag_poseidon_transcript_seed(),
            ) ==> ({
                let c = statement_challenges(
                    pp,
                    params.schedule@,
                    domain0.size as u64,
                    params.seed_z,
                );
                &&& st.z_fp3.a0@ == c.0
                &&& st.z_fp3.a1@ == c.1
                &&& st.z_fp3.a2@ == c.2
                &&& st.trace_seed@ == c.3
                &&& forall|e: int|
                    0 <= e < params.schedule@.len() ==> (#[trigger] st.transcript.layers@[e]).root@
                        == layer_commit_root(
                        vals(st.f_layers@[e]@),
                        vals(st.s_layers@[e]@),
                        st.q_layers@[e]@,
                        params.schedule@[e] as int,
                        e as u64,
                        crate::hash::seed32_of(Goldilocks { v: c.3 as u64 }),
                    )
            })
        },
        build_succeeds_on(domain0.size, params.schedule@, params.seed_z) ==> r is Ok,
{
    let l_count = params.schedule.len();

    let pparams = crate::poseidon::default_params();
    let label = crate::tags::tag_fri_fs_bytes();
    let mut tr = crate::transcript::Transcript::new(&label, pparams);
    bind_statement_to_transcript(&mut tr, &params.schedule, domain0.size, params.seed_z);

    let la0 = crate::tags::tag_z_a0_bytes();
    let la1 = crate::tags::tag_z_a1_bytes();
    let la2 = crate::tags::tag_z_a2_bytes();
    let z0 = tr.challenge(&la0);
    let z1 = tr.challenge(&la1);
    let z2 = tr.challenge(&la2);
    let z_fp3 = Fp3 { a0: z0, a1: z1, a2: z2 };
    let ghost bh = build_succeeds_on(domain0.size, params.schedule@, params.seed_z);
    proof {
        lemma_tv_bind_poseidon(
            crate::transcript::pb_init(pparams, crate::tags::tag_fri_fs()),
            pparams,
            params.schedule@,
            domain0.size as u64,
            params.seed_z,
        );
        let c0 = statement_challenges(pparams, params.schedule@, domain0.size as u64, params.seed_z);
        assert(z0@ == c0.0 && z1@ == c0.1 && z2@ == c0.2);
        assert forall|pp: crate::poseidon::PoseidonParams| #[trigger] crate::poseidon::params_from_seed(
            pp,
            crate::tags::tag_poseidon_transcript_seed(),
        ) implies ({
            let c = statement_challenges(pp, params.schedule@, domain0.size as u64, params.seed_z);
            z_fp3.a0@ == c.0 && z_fp3.a1@ == c.1 && z_fp3.a2@ == c.2
        }) by {
            lemma_statement_challenges_agree(
                pparams,
                pp,
                crate::tags::tag_poseidon_transcript_seed(),
                params.schedule@,
                domain0.size as u64,
                params.seed_z,
            );
        }
        assert(params.schedule@.subrange(0, l_count as int) =~= params.schedule@);
        assert(params.schedule@.subrange(0, 0).len() == 0);
    }

    let mut f_layers: Vec<Vec<Goldilocks>> = Vec::new();
    let mut q_layers: Vec<Vec<Fp3>> = Vec::new();
    let mut s_layers: Vec<Vec<Goldilocks>> = Vec::new();
    let mut omega_layers: Vec<Goldilocks> = Vec::new();
    let mut z_layers: Vec<Goldilocks> = Vec::new();

    let mut cur_size = domain0.size;
    let ghost f0s = f0@;
    f_layers.push(f0);

    let mut ell: usize = 0;
    while ell < l_count
        invariant
            ell <= l_count,
            l_count == params.schedule@.len(),
            1 <= l_count <= 64,
            z_fp3.wf(),
            f_layers@.len() == ell + 1,
            q_layers@.len() == ell,
            s_layers@.len() == ell,
            omega_layers@.len() == ell,
            z_layers@.len() == ell,
            f_layers@[0]@ == f0s,
            cur_size == f_layers@[ell as int]@.len(),
            1 <= cur_size <= 0x1_0000_0000,
            pow2_size(cur_size as nat),
            forall|e: int| 0 <= e <= ell as int ==> seq_wf((#[trigger] f_layers@[e])@),
            forall|e: int|
                0 <= e <= ell as int ==> pow2_size((#[trigger] f_layers@[e])@.len() as nat),
            forall|e: int|
                0 <= e <= ell as int ==> 1 <= (#[trigger] f_layers@[e])@.len() <= 0x1_0000_0000,
            forall|e: int|
                0 <= e < ell as int ==> (#[trigger] params.schedule@[e]) >= 1 && vals(
                    f_layers@[e]@,
                ).len() % (params.schedule@[e] as nat) == 0,
            forall|e: int|
                0 <= e < ell as int ==> (#[trigger] omega_layers@[e])@ == domain_omega_spec(
                    f_layers@[e]@.len() as nat,
                ) && is_radix2_root(omega_layers@[e]@, f_layers@[e]@.len() as nat),
            forall|e: int|
                0 <= e < ell as int ==> #[trigger] layer_linked(
                    params.schedule@,
                    f_layers@,
                    s_layers@,
                    q_layers@,
                    omega_layers@,
                    z_layers@,
                    z_fp3,
                    e,
                ),
            bh == build_succeeds_on(domain0.size, params.schedule@, params.seed_z),
            crate::poseidon::params_from_seed(
                pparams,
                crate::tags::tag_poseidon_transcript_seed(),
            ),
            schedule_pow2_divides(domain0.size as int, params.schedule@)
                <==> schedule_pow2_divides(
                cur_size as int,
                params.schedule@.subrange(ell as int, l_count as int),
            ),
            cur_size as int == layer_width(domain0.size as int, params.schedule@, ell as int),
            forall|e: int|
                0 <= e <= ell as int ==> (#[trigger] f_layers@[e])@.len() <= domain0.size,
            forall|pp: crate::poseidon::PoseidonParams| #[trigger] crate::poseidon::params_from_seed(
                pp,
                crate::tags::tag_poseidon_transcript_seed(),
            ) ==> ({
                let c = statement_challenges(
                    pp,
                    params.schedule@,
                    domain0.size as u64,
                    params.seed_z,
                );
                z_fp3.a0@ == c.0 && z_fp3.a1@ == c.1 && z_fp3.a2@ == c.2
            }),
        decreases l_count - ell,
    {
        let ghost sf = f_layers@;
        let ghost ss = s_layers@;
        let ghost sq = q_layers@;
        let ghost so = omega_layers@;
        let ghost sz = z_layers@;
        let ghost cur0 = cur_size;
        let m = params.schedule[ell];
        proof {
            let tail = params.schedule@.subrange(ell as int, l_count as int);
            assert(tail[0] == params.schedule@[ell as int]);
            assert(tail.subrange(1, tail.len() as int) =~= params.schedule@.subrange(
                ell as int + 1,
                l_count as int,
            ));
        }
        if m < 1 || cur_size % m != 0 || !pow2_size_check(m) {
            proof {
                if bh {
                    assert(schedule_pow2_divides(
                        cur_size as int,
                        params.schedule@.subrange(ell as int, l_count as int),
                    ));
                    assert(false);
                }
            }
            return Err(ProtocolError::ConfigError);
        }
        proof {
            if m > cur_size {
                lemma_small_mod(cur_size as nat, m as nat);
            }
            lemma_pow2_size_div(cur_size as nat, m as nat);
        }
        let dom = FriDomain::new_radix2(cur_size);
        let omega = dom.omega;
        omega_layers.push(omega);
        z_layers.push(z_fp3.a0);

        let q = match compute_q_layer_fp3(&f_layers[ell], z_fp3, omega) {
            Ok(v) => v,
            Err(e) => {
                proof {
                    if bh {
                        assert(all_layers_denoms_ok(
                            pparams,
                            domain0.size as int,
                            params.schedule@,
                            domain0.size as u64,
                            params.seed_z,
                        ));
                        let c = statement_challenges(
                            pparams,
                            params.schedule@,
                            domain0.size as u64,
                            params.seed_z,
                        );
                        let nl = layer_width(domain0.size as int, params.schedule@, ell as int);
                        assert(layer_denoms_ok(domain_omega_spec(nl as nat), nl, c.0, c.1, c.2));
                        assert(z_fp3.a0@ == c.0 && z_fp3.a1@ == c.1 && z_fp3.a2@ == c.2);
                        assert(omega@ == domain_omega_spec(cur_size as nat));
                        assert(nl == cur_size as int);
                        let fl = vals(f_layers@[ell as int]@);
                        assert(fl.len() == cur_size);
                        assert forall|i: int| 0 <= i < fl.len() implies {
                            &&& fmul(
                                finv(fsub(#[trigger] fpow(omega@, i as nat), z_fp3.a0@)),
                                fsub(fpow(omega@, i as nat), z_fp3.a0@),
                            ) == 1
                            &&& fmul(
                                finv(fsub(fpow(omega@, i as nat), z_fp3.a1@)),
                                fsub(fpow(omega@, i as nat), z_fp3.a1@),
                            ) == 1
                            &&& fmul(
                                finv(fsub(fpow(omega@, i as nat), z_fp3.a2@)),
                                fsub(fpow(omega@, i as nat), z_fp3.a2@),
                            ) == 1
                        } by {
                            assert(fmul(
                                finv(fsub(fpow(domain_omega_spec(nl as nat), i as nat), c.0)),
                                fsub(fpow(domain_omega_spec(nl as nat), i as nat), c.0),
                            ) == 1);
                            assert(fmul(
                                finv(fsub(fpow(domain_omega_spec(nl as nat), i as nat), c.1)),
                                fsub(fpow(domain_omega_spec(nl as nat), i as nat), c.1),
                            ) == 1);
                            assert(fmul(
                                finv(fsub(fpow(domain_omega_spec(nl as nat), i as nat), c.2)),
                                fsub(fpow(domain_omega_spec(nl as nat), i as nat), c.2),
                            ) == 1);
                        }
                        assert(q_denoms_ok(vals(f_layers@[ell as int]@), omega@, z_fp3));
                        assert(false);
                    }
                }
                return Err(e);
            },
        };
        q_layers.push(q);
        let s = compute_s_layer(&f_layers[ell], z_fp3.a0, m);
        s_layers.push(s);
        let next = fri_fold_layer(&f_layers[ell], z_fp3.a0, m);
        proof {
            assert(next@.len() == cur_size as nat / m as nat);
            assert((cur_size as nat / m as nat) as int == cur_size as int / m as int);
        }
        let ghost prev_layers = f_layers@;
        cur_size = cur_size / m;
        f_layers.push(next);
        proof {
            assert(f_layers@[ell as int + 1]@ == next@);
            assert(vals(f_layers@[ell as int]@).len() == f_layers@[ell as int]@.len());
            assert(pow2_size(f_layers@[ell as int + 1]@.len() as nat));
            assert(f_layers@[ell as int + 1]@.len() >= 1);
            assert(f_layers@[ell as int + 1]@.len() <= f_layers@[ell as int]@.len()) by (
            nonlinear_arith)
                requires
                    f_layers@[ell as int + 1]@.len() as int == f_layers@[ell as int]@.len() as int
                        / (params.schedule@[ell as int] as int),
                    params.schedule@[ell as int] >= 1,
                    f_layers@[ell as int]@.len() >= 0;
            assert(vals(f_layers@[ell as int]@).len() == f_layers@[ell as int]@.len());
            assert(seq_wf(f_layers@[ell as int + 1]@));
            assert(z_layers@[ell as int] == z_fp3.a0);
            assert(params.schedule@[ell as int] as nat >= 1);
            assert(vals(f_layers@[ell as int]@).len() % (params.schedule@[ell as int] as nat)
                == 0);
            assert forall|e: int|
                0 <= e < ell as int + 1 implies (#[trigger] params.schedule@[e]) >= 1 && vals(
                f_layers@[e]@).len() % (params.schedule@[e] as nat) == 0 by {
                if e < ell as int {
                    assert(params.schedule@[e] >= 1 && vals(sf[e]@).len() % (
                    params.schedule@[e] as nat) == 0);
                    assert(f_layers@[e] == sf[e]);
                } else {
                    assert(vals(f_layers@[ell as int]@).len() == f_layers@[ell as int]@.len());
                }
            }
            assert forall|e: int|
                0 <= e < ell as int + 1 implies #[trigger] layer_linked(
                params.schedule@,
                f_layers@,
                s_layers@,
                q_layers@,
                omega_layers@,
                z_layers@,
                z_fp3,
                e,
            ) by {
                if e < ell as int {
                    assert(layer_linked(params.schedule@, sf, ss, sq, so, sz, z_fp3, e));
                    lemma_layer_linked_stable(
                        params.schedule@,
                        sf,
                        ss,
                        sq,
                        so,
                        sz,
                        f_layers@,
                        s_layers@,
                        q_layers@,
                        omega_layers@,
                        z_layers@,
                        z_fp3,
                        e,
                    );
                } else {
                    assert(vals(f_layers@[ell as int]@).len() == f_layers@[ell as int]@.len());
                    assert(layer_linked(
                        params.schedule@,
                        f_layers@,
                        s_layers@,
                        q_layers@,
                        omega_layers@,
                        z_layers@,
                        z_fp3,
                        e,
                    ));
                }
            }
            let tail = params.schedule@.subrange(ell as int, l_count as int);
            assert(schedule_pow2_divides(cur0 as int, tail) <==> schedule_pow2_divides(
                cur_size as int,
                params.schedule@.subrange(ell as int + 1, l_count as int),
            ));
            lemma_final_size_push(
                domain0.size as int,
                params.schedule@.subrange(0, ell as int),
                params.schedule@[ell as int],
            );
            assert(params.schedule@.subrange(0, ell as int + 1) =~= params.schedule@.subrange(
                0,
                ell as int,
            ).push(params.schedule@[ell as int]));
            assert(cur_size as int == layer_width(
                domain0.size as int,
                params.schedule@,
                ell as int + 1,
            ));
        }
        ell = ell + 1;
    }

    // the trailing folded-value layer is all zeros
    let last_len = f_layers[l_count].len();
    let mut s_last: Vec<Goldilocks> = Vec::new();
    let mut i: usize = 0;
    while i < last_len
        invariant
            i <= last_len,
            s_last@.len() == i,
            seq_wf(s_last@),
            forall|j: int| 0 <= j < i as int ==> (#[trigger] s_last@[j])@ == 0,
        decreases last_len - i,
    {
        s_last.push(Goldilocks::zero());
        i = i + 1;
    }
    let ghost pre_s = s_layers@;
    s_layers.push(s_last);

    // the query seed and the trace hash bound into every tree
    let seed_label = crate::tags::tag_fri_seed_bytes();
    let roots_seed = tr.challenge(&seed_label);
    let trace_hash = field_to_seed32(roots_seed);
    proof {
        lemma_tv_bind_poseidon(
            crate::transcript::pb_init(pparams, crate::tags::tag_fri_fs()),
            pparams,
            params.schedule@,
            domain0.size as u64,
            params.seed_z,
        );
        let c = statement_challenges(
            pparams,
            params.schedule@,
            domain0.size as u64,
            params.seed_z,
        );
        assert(z0@ == c.0 && z1@ == c.1 && z2@ == c.2 && roots_seed@ == c.3);
    }

    proof {
        assert forall|e: int|
            0 <= e < l_count as int implies #[trigger] layer_linked(
            params.schedule@,
            f_layers@,
            s_layers@,
            q_layers@,
            omega_layers@,
            z_layers@,
            z_fp3,
            e,
        ) by {
            assert(layer_linked(
                params.schedule@,
                f_layers@,
                pre_s,
                q_layers@,
                omega_layers@,
                z_layers@,
                z_fp3,
                e,
            ));
            lemma_layer_linked_stable(
                params.schedule@,
                f_layers@,
                pre_s,
                q_layers@,
                omega_layers@,
                z_layers@,
                f_layers@,
                s_layers@,
                q_layers@,
                omega_layers@,
                z_layers@,
                z_fp3,
                e,
            );
        }
        assert forall|e: int| 0 <= e < l_count as int implies (#[trigger] s_layers@[e])@.len()
            == f_layers@[e]@.len() && seq_wf(s_layers@[e]@) by {
            assert(layer_linked(
                params.schedule@,
                f_layers@,
                s_layers@,
                q_layers@,
                omega_layers@,
                z_layers@,
                z_fp3,
                e,
            ));
            assert(vals(f_layers@[e]@).len() == f_layers@[e]@.len());
        }
        assert forall|e: int| 0 <= e < l_count as int implies (#[trigger] q_layers@[e])@.len()
            == f_layers@[e]@.len() by {
            assert(layer_linked(
                params.schedule@,
                f_layers@,
                s_layers@,
                q_layers@,
                omega_layers@,
                z_layers@,
                z_fp3,
                e,
            ));
            assert(vals(f_layers@[e]@).len() == f_layers@[e]@.len());
        }
        assert forall|e: int, i: int|
            0 <= e < l_count as int && 0 <= i < q_layers@[e]@.len() implies (
        #[trigger] q_layers@[e]@[i]).wf() by {
            assert(layer_linked(
                params.schedule@,
                f_layers@,
                s_layers@,
                q_layers@,
                omega_layers@,
                z_layers@,
                z_fp3,
                e,
            ));
            assert(vals(f_layers@[e]@).len() == f_layers@[e]@.len());
        }
    }
    // commit every layer
    let mut layers: Vec<FriLayerCommitment> = Vec::new();
    let mut ell: usize = 0;
    while ell < l_count
        invariant
            ell <= l_count,
            l_count == params.schedule@.len(),
            trace_hash@.len() == 32,
            layers@.len() == ell,
            bh == build_succeeds_on(domain0.size, params.schedule@, params.seed_z),
            forall|e: int|
                0 <= e <= l_count as int ==> (#[trigger] f_layers@[e])@.len() <= domain0.size,
            f_layers@.len() == l_count + 1,
            q_layers@.len() == l_count,
            s_layers@.len() == l_count + 1,
            forall|e: int| 0 <= e <= l_count ==> seq_wf((#[trigger] f_layers@[e])@),
            forall|e: int|
                0 <= e <= l_count as int ==> 1 <= (#[trigger] f_layers@[e])@.len()
                    <= 0x1_0000_0000,
            forall|e: int|
                0 <= e < l_count as int ==> (#[trigger] s_layers@[e])@.len() == f_layers@[e]@.len()
                    && seq_wf(s_layers@[e]@),
            forall|e: int|
                0 <= e < l_count as int ==> (#[trigger] q_layers@[e])@.len() == f_layers@[e]@.len(),
            forall|e: int, i: int|
                0 <= e < l_count as int && 0 <= i < q_layers@[e]@.len() ==> (
                #[trigger] q_layers@[e]@[i]).wf(),
            forall|q: int|
                0 <= q < ell as int ==> (#[trigger] layers@[q]).n == f_layers@[q]@.len()
                    && layers@[q].m == params.schedule@[q] && layers@[q].root.wf(),
            forall|q: int|
                0 <= q < ell as int ==> (#[trigger] layers@[q]).root@ == layer_commit_root(
                    vals(f_layers@[q]@),
                    vals(s_layers@[q]@),
                    q_layers@[q]@,
                    params.schedule@[q] as int,
                    q as u64,
                    trace_hash@,
                ),
        decreases l_count - ell,
    {
        let n = f_layers[ell].len();
        let m_ell = params.schedule[ell];
        let mut arity = pick_arity_for_layer(n, m_ell);
        if arity < 2 {
            arity = 2;
        }
        let depth = merkle_depth(n, arity);
        let mut arities: Vec<usize> = Vec::new();
        let mut d: usize = 0;
        while d < depth
            invariant
                d <= depth,
                arities@.len() == d,
                forall|q: int| 0 <= q < d as int ==> (#[trigger] arities@[q]) == arity,
            decreases depth - d,
        {
            arities.push(arity);
            d = d + 1;
        }
        let ghost garities = arities@;
        proof {
            assert(arity as int == layer_arity_spec(n as int, m_ell as int));
            assert(garities =~= uniform_arities_spec(depth as int, arity));
        }
        let cfg = crate::merkle::MerkleChannelCfg::new(arities, ell as u64);
        let trace_copy = copy_bytes(&trace_hash);
        let mut tree = crate::merkle::MerkleTreeChannel::new(cfg, trace_copy);
        let mut i: usize = 0;
        while i < n
            invariant
                i <= n,
                ell < l_count,
                n == f_layers@[ell as int]@.len(),
                f_layers@.len() == l_count + 1,
                s_layers@.len() == l_count + 1,
                q_layers@.len() == l_count,
                seq_wf(f_layers@[ell as int]@),
                s_layers@[ell as int]@.len() == n,
                seq_wf(s_layers@[ell as int]@),
                q_layers@[ell as int]@.len() == n,
                forall|j: int|
                    0 <= j < n as int ==> (#[trigger] q_layers@[ell as int]@[j]).wf(),
                tree.building(),
                tree.levels@.len() <= 1,
                i >= 1 ==> tree.levels@.len() == 1,
                tree.leaves().len() == i as int,
                tree.cfg.layer_arities@ == garities,
                tree.cfg.tree_label == ell as u64,
                tree.trace_hash@ == trace_hash@,
                garities.len() >= 1,
                garities[0] == arity,
                tree.leaves() == Seq::new(
                    i as nat,
                    |j: int|
                        crate::merkle::leaf_hash(
                            arity,
                            ell as u64,
                            trace_hash@,
                            j,
                            seq![
                                vals(f_layers@[ell as int]@)[j],
                                vals(s_layers@[ell as int]@)[j],
                                q_layers@[ell as int]@[j].a0@,
                                q_layers@[ell as int]@[j].a1@,
                                q_layers@[ell as int]@[j].a2@,
                            ],
                        ),
                ),
            decreases n - i,
        {
            let fv = f_layers[ell][i];
            let sv = s_layers[ell][i];
            let qv = q_layers[ell][i];
            let leaf: Vec<Goldilocks> = vec![fv, sv, qv.a0, qv.a1, qv.a2];
            tree.push_leaf(&leaf);
            proof {
                assert(vals(leaf@) =~= seq![
                    vals(f_layers@[ell as int]@)[i as int],
                    vals(s_layers@[ell as int]@)[i as int],
                    q_layers@[ell as int]@[i as int].a0@,
                    q_layers@[ell as int]@[i as int].a1@,
                    q_layers@[ell as int]@[i as int].a2@,
                ]);
                assert(tree.leaves() =~= Seq::new(
                    (i + 1) as nat,
                    |j: int|
                        crate::merkle::leaf_hash(
                            arity,
                            ell as u64,
                            trace_hash@,
                            j,
                            seq![
                                vals(f_layers@[ell as int]@)[j],
                                vals(s_layers@[ell as int]@)[j],
                                q_layers@[ell as int]@[j].a0@,
                                q_layers@[ell as int]@[j].a1@,
                                q_layers@[ell as int]@[j].a2@,
                            ],
                        ),
                ));
            }
            i = i + 1;
        }
        let root = match tree.finalize() {
            Some(v) => v,
            None => {
                proof {
                    if bh {
                        assert(n <= domain0.size);
                        assert(n as int <= pow2(32) as int) by {
                            lemma2_to64();
                        };
                        assert(arity as int == layer_arity_spec(
                            n as int,
                            params.schedule@[ell as int] as int,
                        ));
                        assert(arity <= 128);
                        lemma_merkle_depth_log(n as int, arity as int, 32);
                        lemma_uniform_arities_reduce(n as int, arity as int, garities, 0);
                        assert(false);
                    }
                }
                return Err(ProtocolError::ConfigError);
            },
        };
        proof {
            assert(root@ == layer_commit_root(
                vals(f_layers@[ell as int]@),
                vals(s_layers@[ell as int]@),
                q_layers@[ell as int]@,
                params.schedule@[ell as int] as int,
                ell as u64,
                trace_hash@,
            )) by {
                let fvv = vals(f_layers@[ell as int]@);
                let a = layer_arity_spec(fvv.len() as int, params.schedule@[ell as int] as int);
                assert(fvv.len() == n);
                assert(a == arity as int);
                assert(merkle_depth_spec(fvv.len() as int, a) == depth as int);
                assert(Seq::new(
                    n as nat,
                    |j: int|
                        crate::merkle::leaf_hash(
                            arity,
                            ell as u64,
                            trace_hash@,
                            j,
                            seq![
                                vals(f_layers@[ell as int]@)[j],
                                vals(s_layers@[ell as int]@)[j],
                                q_layers@[ell as int]@[j].a0@,
                                q_layers@[ell as int]@[j].a1@,
                                q_layers@[ell as int]@[j].a2@,
                            ],
                        ),
                ) =~= Seq::new(
                    fvv.len(),
                    |j: int|
                        crate::merkle::leaf_hash(
                            a as usize,
                            ell as u64,
                            trace_hash@,
                            j,
                            seq![
                                fvv[j],
                                vals(s_layers@[ell as int]@)[j],
                                q_layers@[ell as int]@[j].a0@,
                                q_layers@[ell as int]@[j].a1@,
                                q_layers@[ell as int]@[j].a2@,
                            ],
                        ),
                ));
            };
        }
        layers.push(FriLayerCommitment { n, m: m_ell, root });
        ell = ell + 1;
    }

    let schedule_copy = copy_usizes(&params.schedule);
    let ghost gf = f_layers@;
    let ghost gs = s_layers@;
    let ghost gq = q_layers@;
    let ghost go = omega_layers@;
    let ghost gz = z_layers@;
    let st = FriProverState {
        f_layers,
        s_layers,
        q_layers,
        transcript: FriTranscript { schedule: schedule_copy, layers },
        omega_layers,
        z_layers,
        z_fp3,
        trace_seed: roots_seed,
    };
    proof {
        let l = l_count as int;
        assert forall|e: int|
            0 <= e < l implies (#[trigger] st.transcript.schedule@[e]) >= 1 && vals(
            st.f_layers@[e]@).len() % (st.transcript.schedule@[e] as nat) == 0 by {
            assert(st.transcript.schedule@[e] == params.schedule@[e]);
            assert(params.schedule@[e] >= 1 && vals(gf[e]@).len() % (params.schedule@[e] as nat)
                == 0);
        }
        assert forall|e: int|
            0 <= e < l implies #[trigger] layer_linked(
            st.transcript.schedule@,
            st.f_layers@,
            st.s_layers@,
            st.q_layers@,
            st.omega_layers@,
            st.z_layers@,
            st.z_fp3,
            e,
        ) by {
            assert(layer_linked(params.schedule@, gf, gs, gq, go, gz, z_fp3, e));
            assert(st.transcript.schedule@ == params.schedule@);
        }
        assert(state_linked(st));
        assert forall|e: int| 0 <= e <= l implies pow2_size(
            (#[trigger] st.f_layers@[e])@.len() as nat,
        ) by {
            assert(pow2_size(gf[e]@.len() as nat));
        }
        assert forall|e: int| 0 <= e <= l implies (#[trigger] st.f_layers@[e])@.len()
            <= domain0.size by {
            assert(gf[e]@.len() <= domain0.size);
        }
        assert forall|pp: crate::poseidon::PoseidonParams| #[trigger] crate::poseidon::params_from_seed(
            pp,
            crate::tags::tag_poseidon_transcript_seed(),
        ) implies ({
            let c = statement_challenges(pp, params.schedule@, domain0.size as u64, params.seed_z);
            &&& st.z_fp3.a0@ == c.0
            &&& st.z_fp3.a1@ == c.1
            &&& st.z_fp3.a2@ == c.2
            &&& st.trace_seed@ == c.3
            &&& forall|e: int|
                0 <= e < params.schedule@.len() ==> (#[trigger] st.transcript.layers@[e]).root@
                    == layer_commit_root(
                    vals(st.f_layers@[e]@),
                    vals(st.s_layers@[e]@),
                    st.q_layers@[e]@,
                    params.schedule@[e] as int,
                    e as u64,
                    crate::hash::seed32_of(Goldilocks { v: c.3 as u64 }),
                )
        }) by {
            lemma_statement_challenges_agree(
                pparams,
                pp,
                crate::tags::tag_poseidon_transcript_seed(),
                params.schedule@,
                domain0.size as u64,
                params.seed_z,
            );
            let c = statement_challenges(pp, params.schedule@, domain0.size as u64, params.seed_z);
            assert(Goldilocks { v: c.3 as u64 } == roots_seed);
            assert(trace_hash@ == crate::hash::seed32_of(Goldilocks { v: c.3 as u64 }));
        }
    }
    Ok(st)
}

/// Copies a byte vector.
pub fn copy_bytes(v: &Vec<u8>) -> (r: Vec<u8>)
    ensures
        r@ == v@,
{
    let n = v.len();
    let mut out: Vec<u8> = Vec::new();
    let mut i: usize = 0;
    while i < n
        invariant
            i <= n,
            n == v@.len(),
            out@.len() == i,
            forall|j: int| 0 <= j < i as int ==> out@[j] == v@[j],
        decreases n - i,
    {
        let x = v[i];
        out.push(x);
        i = i + 1;
    }
    proof {
        assert(out@ =~= v@);
    }
    out
}

/// Copies a vector of widths.
pub fn copy_usizes(v: &Vec<usize>) -> (r: Vec<usize>)
    ensures
        r@ == v@,
{
    let n = v.len();
    let mut out: Vec<usize> = Vec::new();
    let mut i: usize = 0;
    while i < n
        invariant
            i <= n,
            n == v@.len(),
            out@.len() == i,
            forall|j: int| 0 <= j < i as int ==> out@[j] == v@[j],
        decreases n - i,
    {
        let x = v[i];
        out.push(x);
        i = i + 1;
    }
    proof {
        assert(out@ =~= v@);
    }
    out
}


/// One query's position in a layer: its index and its parent's index in
/// the next layer.
#[derive(Clone, Copy, Debug)]
pub struct LayerQueryRef {
    pub i: usize,
    pub child_pos: usize,
    pub parent_index: usize,
    pub parent_pos: usize,
}

/// One query's walk down the layers, with its final-layer pair.
pub struct FriQueryOpenings {
    pub per_layer_refs: Vec<LayerQueryRef>,
    pub final_index: usize,
    pub final_pair: (Goldilocks, Goldilocks),
}

/// The values a query reveals at one layer.
#[derive(Clone, Copy, Debug)]
pub struct LayerOpenPayload {
    pub f_i: Goldilocks,
    pub f_0: Goldilocks,
    pub s_i: Goldilocks,
    pub q_a0: Goldilocks,
    pub q_a1: Goldilocks,
    pub q_a2: Goldilocks,
    pub x_i: Goldilocks,
    pub f_parent_b: Goldilocks,
    pub s_parent_b: Goldilocks,
}

/// One query: its per-layer positions, payloads, and final pair.
pub struct FriQueryPayload {
    pub per_layer_refs: Vec<LayerQueryRef>,
    pub per_layer_payloads: Vec<LayerOpenPayload>,
    pub final_index: usize,
    pub final_pair: (Goldilocks, Goldilocks),
}

/// The Merkle openings of one layer, one per query.
#[derive(Clone, Debug)]
pub struct LayerProof {
    pub openings: Vec<crate::merkle::MerkleOpening>,
}

/// The Merkle openings of every layer.
pub struct FriLayerProofs {
    pub layers: Vec<LayerProof>,
}

/// The protocol parameters: schedule, query count, challenge seed.
#[derive(Clone)]
pub struct DeepFriParams {
    pub schedule: Vec<usize>,
    pub r: usize,
    pub seed_z: u64,
}

/// A complete proof: roots, openings, query payloads, and the base domain.
pub struct DeepFriProof {
    pub roots: Vec<Goldilocks>,
    pub layer_proofs: FriLayerProofs,
    pub queries: Vec<FriQueryPayload>,
    pub n0: usize,
    pub omega0: Goldilocks,
}

/// The size of the final layer under a schedule: the base size divided by
/// every folding factor in turn.
pub open spec fn final_size(n0: int, sched: Seq<usize>) -> int
    decreases sched.len(),
{
    if sched.len() == 0 {
        n0
    } else {
        final_size(n0 / sched[0] as int, sched.subrange(1, sched.len() as int))
    }
}

/// The top-layer index one query draws under a parameter set: the first
/// draw of the stream seeded by the query's index seed, masked to the
/// power-of-two base size.
pub open spec fn query_index_spec(
    p: crate::poseidon::PoseidonParams,
    roots_seed: Goldilocks,
    q: int,
    n0: int,
) -> int {
    let sf = fs_hash_spec(p, crate::tags::tag_fri_index(), index_seed_fields(roots_seed, 0, q));
    (stdrng_stream_of(crate::hash::seed32_of(Goldilocks { v: sf as u64 }), 1)[0] & ((n0
        - 1) as u64)) as int
}

/// Every layer is small enough to pad and commit: the bound under which
/// opening the queries is owed success.
pub open spec fn layers_commitable(st: FriProverState) -> bool {
    forall|e: int|
        0 <= e <= st.transcript.schedule@.len() ==> (#[trigger] st.f_layers@[e])@.len()
            <= 0x1_0000_0000 && st.f_layers@[e]@.len() + 128 <= usize::MAX
}

/// Samples every query's walk down the layers and opens the committed
/// trees at the sampled indexes.  Its one failure is tree finalization,
/// which succeeds for the arities it builds, so on committable layers it
/// is owed success.
#[verifier::rlimit(60)]
#[verifier::spinoff_prover]
pub fn fri_prove_queries(st: &FriProverState, r: usize, roots_seed: Goldilocks) -> (res: Result<
    (Vec<FriQueryOpenings>, Vec<Goldilocks>, FriLayerProofs),
    ProtocolError,
>)
    requires
        state_linked(*st),
        roots_seed.wf(),
        st.trace_seed.wf(),
        st.transcript.schedule@.len() >= 1,
        forall|e: int|
            0 <= e <= st.transcript.schedule@.len() ==> pow2_size(
                (#[trigger] st.f_layers@[e])@.len() as nat,
            ),
    ensures
        layers_commitable(*st) ==> res is Ok,
        res matches Ok(out) ==> {
            &&& out.0@.len() == r
            &&& out.1@.len() == st.transcript.schedule@.len()
            &&& out.2.layers@.len() == st.transcript.schedule@.len()
            &&& forall|q: int|
                0 <= q < r as int ==> (#[trigger] out.0@[q]).per_layer_refs@.len()
                    == st.transcript.schedule@.len()
            &&& forall|q: int, e: int|
                0 <= q < r as int && 0 <= e < st.transcript.schedule@.len() ==> (
                #[trigger] out.0@[q].per_layer_refs@[e]).i < st.f_layers@[e]@.len()
                    && out.0@[q].per_layer_refs@[e].parent_index < st.f_layers@[e + 1]@.len()
                    && out.0@[q].per_layer_refs@[e].parent_index as int
                    == out.0@[q].per_layer_refs@[e].i as int % (st.f_layers@[e + 1]@.len() as int)
            &&& forall|q: int, pp: crate::poseidon::PoseidonParams|
                #![trigger out.0@[q], crate::poseidon::params_from_seed(pp, crate::tags::tag_poseidon_transcript_seed())]
                0 <= q < r as int && crate::poseidon::params_from_seed(
                    pp,
                    crate::tags::tag_poseidon_transcript_seed(),
                ) ==> out.0@[q].per_layer_refs@[0].i as int == query_index_spec(
                    pp,
                    roots_seed,
                    q,
                    st.f_layers@[0]@.len() as int,
                )
            &&& forall|q: int, e: int|
                0 <= q < r as int && 0 <= e < st.transcript.schedule@.len() - 1 ==> (
                #[trigger] out.0@[q].per_layer_refs@[e + 1]).i
                    == out.0@[q].per_layer_refs@[e].parent_index
            &&& forall|q: int|
                0 <= q < r as int ==> (#[trigger] out.0@[q]).final_index == out.0@[
                    q
                ].per_layer_refs@[st.transcript.schedule@.len() - 1].parent_index
            &&& forall|e: int|
                0 <= e < st.transcript.schedule@.len() ==> (#[trigger] out.1@[e])
                    == st.transcript.layers@[e].root
            &&& forall|q: int|
                0 <= q < r as int ==> (#[trigger] out.0@[q]).final_index
                    < st.f_layers@[st.transcript.schedule@.len() as int]@.len()
                    && out.0@[q].final_pair.0 == st.f_layers@[
                    st.transcript.schedule@.len() as int
                ]@[out.0@[q].final_index as int] && out.0@[q].final_pair.1 == st.f_layers@[
                    st.transcript.schedule@.len() as int
                ]@[0]
            &&& (st.f_layers@[st.transcript.schedule@.len() as int]@.len() == 1 ==> forall|q: int|
                0 <= q < r as int ==> (#[trigger] out.0@[q]).final_pair.0
                    == out.0@[q].final_pair.1)
            &&& forall|e: int|
                0 <= e < st.transcript.schedule@.len() ==> (#[trigger] out.2.layers@[e]).openings@.len()
                    == r
            &&& forall|e: int, q: int|
                0 <= e < st.transcript.schedule@.len() && 0 <= q < r as int ==> (
                #[trigger] out.2.layers@[e].openings@[q]).index == out.0@[q].per_layer_refs@[e].i
        },
{
    let l_count = st.transcript.schedule.len();
    let mut all_refs: Vec<FriQueryOpenings> = Vec::new();
    let mut q: usize = 0;
    while q < r
        invariant
            q <= r,
            state_linked(*st),
            roots_seed.wf(),
            l_count == st.transcript.schedule@.len(),
            l_count >= 1,
            forall|e: int|
                0 <= e <= l_count as int ==> pow2_size((#[trigger] st.f_layers@[e])@.len() as nat),
            all_refs@.len() == q,
            forall|p: int|
                0 <= p < q as int ==> (#[trigger] all_refs@[p]).per_layer_refs@.len()
                    == l_count as int,
            forall|p: int, e: int|
                0 <= p < q as int && 0 <= e < l_count as int ==> (
                #[trigger] all_refs@[p].per_layer_refs@[e]).i < st.f_layers@[e]@.len()
                    && all_refs@[p].per_layer_refs@[e].parent_index < st.f_layers@[e + 1]@.len()
                    && all_refs@[p].per_layer_refs@[e].parent_index as int
                    == all_refs@[p].per_layer_refs@[e].i as int % (
                st.f_layers@[e + 1]@.len() as int),
            forall|p: int|
                0 <= p < q as int ==> (#[trigger] all_refs@[p]).final_index < st.f_layers@[
                    l_count as int
                ]@.len() && all_refs@[p].final_pair.0 == st.f_layers@[l_count as int]@[
                    all_refs@[p].final_index as int
                ] && all_refs@[p].final_pair.1 == st.f_layers@[l_count as int]@[0],
            forall|p: int, e: int|
                0 <= p < q as int && 0 <= e < l_count as int - 1 ==> (
                #[trigger] all_refs@[p].per_layer_refs@[e + 1]).i
                    == all_refs@[p].per_layer_refs@[e].parent_index,
            forall|p: int|
                0 <= p < q as int ==> (#[trigger] all_refs@[p]).final_index == all_refs@[
                    p
                ].per_layer_refs@[l_count - 1].parent_index,
            forall|p: int, pp: crate::poseidon::PoseidonParams|
                #![trigger all_refs@[p], crate::poseidon::params_from_seed(pp, crate::tags::tag_poseidon_transcript_seed())]
                0 <= p < q as int && crate::poseidon::params_from_seed(
                    pp,
                    crate::tags::tag_poseidon_transcript_seed(),
                ) ==> all_refs@[p].per_layer_refs@[0].i as int == query_index_spec(
                    pp,
                    roots_seed,
                    p,
                    st.f_layers@[0]@.len() as int,
                ),
        decreases r - q,
    {
        let n0 = st.f_layers[0].len();
        let seed = index_seed(roots_seed, 0, q);
        let sampled = index_from_seed(seed, n0);
        let mut i = sampled % n0;
        proof {
            lemma_mod_bound(sampled as int, n0 as int);
            lemma_small_mod(sampled as nat, n0 as nat);
            assert forall|pp: crate::poseidon::PoseidonParams| #[trigger] crate::poseidon::params_from_seed(
                pp,
                crate::tags::tag_poseidon_transcript_seed(),
            ) implies sampled as int == query_index_spec(
                pp,
                roots_seed,
                q as int,
                n0 as int,
            ) by {
                let sf = fs_hash_spec(
                    pp,
                    crate::tags::tag_fri_index(),
                    index_seed_fields(roots_seed, 0, q as int),
                );
                assert(seed@ == sf);
                assert(Goldilocks { v: sf as u64 } == seed);
            }
        }
        let mut refs: Vec<LayerQueryRef> = Vec::new();
        let mut ell: usize = 0;
        while ell < l_count
            invariant
                ell <= l_count,
                state_linked(*st),
                l_count == st.transcript.schedule@.len(),
                (i as int) < st.f_layers@[ell as int]@.len(),
                refs@.len() == ell,
                forall|e: int|
                    0 <= e < ell as int ==> (#[trigger] refs@[e]).i < st.f_layers@[e]@.len()
                        && refs@[e].parent_index < st.f_layers@[e + 1]@.len()
                        && refs@[e].parent_index as int == refs@[e].i as int % (
                    st.f_layers@[e + 1]@.len() as int),
                forall|e: int|
                    0 <= e < ell as int - 1 ==> (#[trigger] refs@[e + 1]).i == refs@[
                        e
                    ].parent_index,
                ell >= 1 ==> i == refs@[ell - 1].parent_index,
                ell == 0 ==> i == sampled,
                ell >= 1 ==> refs@[0].i == sampled,
            decreases l_count - ell,
        {
            proof {
                assert(layer_linked(
                    st.transcript.schedule@,
                    st.f_layers@,
                    st.s_layers@,
                    st.q_layers@,
                    st.omega_layers@,
                    st.z_layers@,
                    st.z_fp3,
                    ell as int,
                ));
                assert(vals(st.f_layers@[ell as int]@).len() == st.f_layers@[ell as int]@.len());
                assert(vals(st.f_layers@[ell as int + 1]@).len() == st.f_layers@[ell as int
                    + 1]@.len());
            }
            let n_next = st.f_layers[ell + 1].len();
            proof {
                assert(fold_spec(
                    vals(st.f_layers@[ell as int]@),
                    st.z_fp3.a0@,
                    st.transcript.schedule@[ell as int] as nat,
                ).len() == vals(st.f_layers@[ell as int]@).len() as int / (
                st.transcript.schedule@[ell as int] as int));
                assert(n_next >= 1) by (nonlinear_arith)
                    requires
                        n_next as int == vals(st.f_layers@[ell as int]@).len() as int / (
                        st.transcript.schedule@[ell as int] as int),
                        vals(st.f_layers@[ell as int]@).len() as int % (
                        st.transcript.schedule@[ell as int] as int) == 0,
                        vals(st.f_layers@[ell as int]@).len() >= 1,
                        st.transcript.schedule@[ell as int] >= 1,
                        vals(st.f_layers@[ell as int]@).len() >= i + 1,
                        i >= 0;
            }
            let parent = i % n_next;
            proof {
                lemma_mod_bound(i as int, n_next as int);
            }
            refs.push(LayerQueryRef { i, child_pos: 0, parent_index: parent, parent_pos: 0 });
            i = parent;
            ell = ell + 1;
        }
        let final_i = i;
        let fl_last = &st.f_layers[l_count];
        proof {
            assert(seq_wf(st.f_layers@[l_count as int]@));
        }
        let pair0 = fl_last[final_i];
        let pair1 = fl_last[0];
        all_refs.push(
            FriQueryOpenings {
                per_layer_refs: refs,
                final_index: final_i,
                final_pair: (pair0, pair1),
            },
        );
        q = q + 1;
    }

    // rebuild each layer's tree and open it at the sampled indexes,
    // bound to the same commit-time trace hash
    let trace_hash = field_to_seed32(st.trace_seed);
    let ghost bounded = layers_commitable(*st);
    let mut layer_proofs: Vec<LayerProof> = Vec::new();
    let mut ell: usize = 0;
    while ell < l_count
        invariant
            ell <= l_count,
            state_linked(*st),
            bounded == layers_commitable(*st),
            l_count == st.transcript.schedule@.len(),
            l_count >= 1,
            trace_hash@.len() == 32,
            all_refs@.len() == r,
            forall|p: int|
                0 <= p < r as int ==> (#[trigger] all_refs@[p]).per_layer_refs@.len()
                    == l_count as int,
            forall|p: int, e: int|
                0 <= p < r as int && 0 <= e < l_count as int ==> (
                #[trigger] all_refs@[p].per_layer_refs@[e]).i < st.f_layers@[e]@.len(),
            forall|e: int|
                0 <= e <= l_count as int ==> 1 <= (#[trigger] st.f_layers@[e])@.len(),
            layer_proofs@.len() == ell,
            forall|e: int|
                0 <= e < ell as int ==> (#[trigger] layer_proofs@[e]).openings@.len() == r,
            forall|e: int, p: int|
                0 <= e < ell as int && 0 <= p < r as int ==> (
                #[trigger] layer_proofs@[e].openings@[p]).index
                    == all_refs@[p].per_layer_refs@[e].i,
        decreases l_count - ell,
    {
        proof {
            assert(layer_linked(
                st.transcript.schedule@,
                st.f_layers@,
                st.s_layers@,
                st.q_layers@,
                st.omega_layers@,
                st.z_layers@,
                st.z_fp3,
                ell as int,
            ));
            assert(vals(st.f_layers@[ell as int]@).len() == st.f_layers@[ell as int]@.len());
        }
        let n = st.f_layers[ell].len();
        let m_ell = st.transcript.schedule[ell];
        let mut arity = pick_arity_for_layer(n, m_ell);
        if arity < 2 {
            arity = 2;
        }
        let depth = merkle_depth(n, arity);
        let mut arities: Vec<usize> = Vec::new();
        let mut d: usize = 0;
        while d < depth
            invariant
                d <= depth,
                arities@.len() == d,
                forall|j: int| 0 <= j < d as int ==> (#[trigger] arities@[j]) == arity,
            decreases depth - d,
        {
            arities.push(arity);
            d = d + 1;
        }
        let ghost garities = arities@;
        let cfg = crate::merkle::MerkleChannelCfg::new(arities, ell as u64);
        let trace_copy = copy_bytes(&trace_hash);
        let mut tree = crate::merkle::MerkleTreeChannel::new(cfg, trace_copy);
        let mut i: usize = 0;
        while i < n
            invariant
                i <= n,
                ell < l_count,
                state_linked(*st),
                l_count == st.transcript.schedule@.len(),
                n == st.f_layers@[ell as int]@.len(),
                seq_wf(st.f_layers@[ell as int]@),
                st.s_layers@[ell as int]@.len() == n,
                seq_wf(st.s_layers@[ell as int]@),
                st.q_layers@[ell as int]@.len() == n,
                forall|j: int|
                    0 <= j < n as int ==> (#[trigger] st.q_layers@[ell as int]@[j]).wf(),
                tree.building(),
                tree.cfg.layer_arities@ == garities,
                tree.levels@.len() <= 1,
                i >= 1 ==> tree.levels@.len() == 1,
                tree.leaves().len() == i as int,
            decreases n - i,
        {
            proof {
                assert(layer_linked(
                    st.transcript.schedule@,
                    st.f_layers@,
                    st.s_layers@,
                    st.q_layers@,
                    st.omega_layers@,
                    st.z_layers@,
                    st.z_fp3,
                    ell as int,
                ));
            }
            let fv = st.f_layers[ell][i];
            let sv = st.s_layers[ell][i];
            let qv = st.q_layers[ell][i];
            let leaf: Vec<Goldilocks> = vec![fv, sv, qv.a0, qv.a1, qv.a2];
            tree.push_leaf(&leaf);
            i = i + 1;
        }
        if tree.finalize().is_none() {
            proof {
                if bounded {
                    assert(st.f_layers@[ell as int]@.len() <= 0x1_0000_0000 && st.f_layers@[
                        ell as int
                    ]@.len() + 128 <= usize::MAX);
                    assert(arity <= 128);
                    assert(n as int <= pow2(32) as int) by {
                        vstd::arithmetic::power2::lemma2_to64();
                    };
                    lemma_merkle_depth_log(n as int, arity as int, 32);
                    lemma_uniform_arities_reduce(n as int, arity as int, garities, 0);
                    assert(false);
                }
            }
            return Err(ProtocolError::ConfigError);
        }
        let mut openings: Vec<crate::merkle::MerkleOpening> = Vec::new();
        let mut p: usize = 0;
        while p < r
            invariant
                p <= r,
                ell < l_count,
                l_count == st.transcript.schedule@.len(),
                all_refs@.len() == r,
                tree.built(),
                tree.leaves().len() == n as int,
                n == st.f_layers@[ell as int]@.len(),
                forall|pp: int|
                    0 <= pp < r as int ==> (#[trigger] all_refs@[pp]).per_layer_refs@.len()
                        == l_count as int,
                forall|pp: int, e: int|
                    0 <= pp < r as int && 0 <= e < l_count as int ==> (
                    #[trigger] all_refs@[pp].per_layer_refs@[e]).i < st.f_layers@[e]@.len(),
                openings@.len() == p,
                forall|pp: int|
                    0 <= pp < p as int ==> (#[trigger] openings@[pp]).index
                        == all_refs@[pp].per_layer_refs@[ell as int].i,
            decreases r - p,
        {
            let idx = all_refs[p].per_layer_refs[ell].i;
            let opening = tree.open(idx);
            openings.push(opening);
            p = p + 1;
        }
        layer_proofs.push(LayerProof { openings });
        ell = ell + 1;
    }

    // the committed roots in layer order
    let mut roots: Vec<Goldilocks> = Vec::new();
    let mut ell: usize = 0;
    while ell < l_count
        invariant
            ell <= l_count,
            state_linked(*st),
            l_count == st.transcript.schedule@.len(),
            roots@.len() == ell,
            forall|e: int|
                0 <= e < ell as int ==> (#[trigger] roots@[e]) == st.transcript.layers@[e].root,
        decreases l_count - ell,
    {
        let root = st.transcript.layers[ell].root;
        roots.push(root);
        ell = ell + 1;
    }
    Ok((all_refs, roots, FriLayerProofs { layers: layer_proofs }))
}


/// Assembles a complete proof: builds and commits the layers, derives the
/// query seed from the roots, samples the queries, and materializes every
/// payload from the prover state.
#[verifier::rlimit(60)]
#[verifier::spinoff_prover]
pub fn deep_fri_prove(f0: Vec<Goldilocks>, domain0: FriDomain, params: &DeepFriParams) -> (res:
    Result<DeepFriProof, ProtocolError>)
    requires
        domain0.wf(),
        seq_wf(f0@),
        f0@.len() == domain0.size,
        1 <= domain0.size <= 0x1_0000_0000,
    ensures
        res matches Ok(proof) ==> ({
            let eff = effective_schedule(domain0.size as int, params.schedule@);
            &&& proof.n0 == domain0.size
            &&& proof.omega0 == domain0.omega
            &&& proof.roots@.len() == eff.len()
            &&& proof.layer_proofs.layers@.len() == eff.len()
            &&& proof.queries@.len() == params.r
            &&& forall|q: int|
                0 <= q < params.r as int ==> (#[trigger] proof.queries@[q]).per_layer_refs@.len()
                    == eff.len() && proof.queries@[q].per_layer_payloads@.len() == eff.len()
            &&& forall|q: int, e: int|
                0 <= q < params.r as int && 0 <= e < eff.len() ==> (
                #[trigger] proof.layer_proofs.layers@[e].openings@[q]).index
                    == proof.queries@[q].per_layer_refs@[e].i
            &&& forall|q: int, e: int|
                0 <= q < params.r as int && 0 <= e < eff.len() ==> (
                #[trigger] proof.queries@[q].per_layer_payloads@[e]).s_i
                    == proof.queries@[q].per_layer_payloads@[e].f_parent_b
            &&& forall|e: int|
                0 <= e < eff.len() ==> (#[trigger] proof.layer_proofs.layers@[e]).openings@.len()
                    == params.r
            &&& forall|pp: crate::poseidon::PoseidonParams| #[trigger] crate::poseidon::params_from_seed(
                pp,
                crate::tags::tag_poseidon_transcript_seed(),
            ) ==> ({
                let c = statement_challenges(pp, eff, domain0.size as u64, params.seed_z);
                forall|q: int, e: int|
                    0 <= q < params.r as int && 0 <= e < eff.len() ==> deep_payload_eq(
                        #[trigger] proof.queries@[q].per_layer_payloads@[e],
                        c.0,
                        c.1,
                        c.2,
                    )
            })
            &&& (final_size(domain0.size as int, eff) == 1 ==> forall|q: int|
                0 <= q < params.r as int ==> (#[trigger] proof.queries@[q]).final_pair.0
                    == proof.queries@[q].final_pair.1)
        }),
        ({
            let eff = effective_schedule(domain0.size as int, params.schedule@);
            (params.r >= 1 && params.schedule@.len() >= 1 && schedule_divides(
                domain0.size as int,
                params.schedule@,
            ) && (final_size(domain0.size as int, params.schedule@) <= 1 || pow2_size(
                final_size(domain0.size as int, params.schedule@) as nat,
            )) && 1 <= eff.len() <= 64 && build_succeeds_on(domain0.size, eff, params.seed_z))
                ==> res is Ok
        }),
{
    if params.r == 0 || params.schedule.len() == 0 {
        return Err(ProtocolError::ConfigError);
    }
    // the protocol normalizes the schedule: any residual above one becomes
    // one more fold, so the final layer has size one
    let norm_schedule = match normalize_fri_schedule(domain0.size, &params.schedule) {
        Ok(v) => v,
        Err(e) => {
            return Err(e);
        },
    };
    let ghost eff = effective_schedule(domain0.size as int, params.schedule@);
    proof {
        assert(norm_schedule@ == eff);
    }
    if norm_schedule.len() == 0 || norm_schedule.len() > 64 {
        return Err(ProtocolError::ConfigError);
    }
    let prover_params = FriProverParams { schedule: norm_schedule, seed_z: params.seed_z };
    let st = match fri_build_transcript(f0, domain0, &prover_params) {
        Ok(v) => v,
        Err(e) => {
            proof {
                assert(prover_params.schedule@ == eff);
            }
            return Err(e);
        },
    };
    let l_count = st.transcript.schedule.len();

    let mut roots_for_seed: Vec<Goldilocks> = Vec::new();
    let mut ell: usize = 0;
    while ell < l_count
        invariant
            ell <= l_count,
            state_linked(st),
            l_count == st.transcript.schedule@.len(),
            roots_for_seed@.len() == ell,
            seq_wf(roots_for_seed@),
            forall|e: int|
                0 <= e < l_count as int ==> (#[trigger] st.transcript.layers@[e]).root.wf(),
        decreases l_count - ell,
    {
        let root = st.transcript.layers[ell].root;
        if root.v >= crate::field::MODULUS {
            proof {
                assert(st.transcript.layers@[ell as int].root.wf());
                assert(false);
            }
            return Err(ProtocolError::ArithmeticError);
        }
        roots_for_seed.push(root);
        ell = ell + 1;
    }
    let roots_seed = fs_seed_from_roots(&roots_for_seed);

    let (query_refs, roots, layer_proofs) = match fri_prove_queries(&st, params.r, roots_seed) {
        Ok(v) => v,
        Err(e) => {
            proof {
                if build_succeeds_on(domain0.size, eff, params.seed_z) {
                    assert forall|e2: int|
                        0 <= e2 <= st.transcript.schedule@.len() implies (
                    #[trigger] st.f_layers@[e2])@.len() <= 0x1_0000_0000 && st.f_layers@[e2]@.len()
                        + 128 <= usize::MAX by {
                        assert(st.f_layers@[e2]@.len() <= domain0.size);
                    }
                    assert(layers_commitable(st));
                    assert(false);
                }
            }
            return Err(e);
        },
    };

    let ghost gschedule = params.schedule@;
    proof {
        lemma_final_size_chain(st, domain0.size as int, 0);
        assert(st.transcript.schedule@.subrange(0, st.transcript.schedule@.len() as int)
            =~= st.transcript.schedule@);
    }
    let ghost last_len = st.f_layers@[l_count as int]@.len();
    proof {
        assert(last_len >= 1);
    }

    // materialize the payloads
    let mut queries: Vec<FriQueryPayload> = Vec::new();
    let mut q: usize = 0;
    while q < params.r
        invariant
            q <= params.r,
            state_linked(st),
            l_count == st.transcript.schedule@.len(),
            l_count >= 1,
            query_refs@.len() == params.r,
            forall|p: int|
                0 <= p < params.r as int ==> (#[trigger] query_refs@[p]).per_layer_refs@.len()
                    == l_count as int,
            forall|p: int, e: int|
                0 <= p < params.r as int && 0 <= e < l_count as int ==> (
                #[trigger] query_refs@[p].per_layer_refs@[e]).i < st.f_layers@[e]@.len()
                    && query_refs@[p].per_layer_refs@[e].parent_index < st.f_layers@[e
                    + 1]@.len() && query_refs@[p].per_layer_refs@[e].parent_index as int
                    == query_refs@[p].per_layer_refs@[e].i as int % (
                st.f_layers@[e + 1]@.len() as int),
            forall|p: int|
                0 <= p < params.r as int ==> (#[trigger] query_refs@[p]).final_index
                    < st.f_layers@[l_count as int]@.len() && query_refs@[p].final_pair.0
                    == st.f_layers@[l_count as int]@[query_refs@[p].final_index as int]
                    && query_refs@[p].final_pair.1 == st.f_layers@[l_count as int]@[0],
            st.s_layers@[l_count as int]@.len() == st.f_layers@[l_count as int]@.len(),
            seq_wf(st.s_layers@[l_count as int]@),
            st.f_layers@[l_count as int]@.len() >= 1,
            queries@.len() == q,
            forall|p: int|
                0 <= p < q as int ==> (#[trigger] queries@[p]).per_layer_refs@.len()
                    == l_count as int && queries@[p].per_layer_payloads@.len() == l_count as int,
            forall|p: int, e: int|
                0 <= p < q as int && 0 <= e < l_count as int ==> (
                #[trigger] queries@[p].per_layer_refs@[e]).i
                    == query_refs@[p].per_layer_refs@[e].i,
            forall|p: int, e: int|
                0 <= p < q as int && 0 <= e < l_count as int ==> (
                #[trigger] queries@[p].per_layer_payloads@[e]).s_i
                    == queries@[p].per_layer_payloads@[e].f_parent_b,
            forall|p: int, e: int|
                0 <= p < q as int && 0 <= e < l_count as int ==> deep_payload_eq(
                    #[trigger] queries@[p].per_layer_payloads@[e],
                    st.z_fp3.a0@,
                    st.z_fp3.a1@,
                    st.z_fp3.a2@,
                ),
            forall|p: int|
                0 <= p < q as int ==> (#[trigger] queries@[p]).final_pair
                    == query_refs@[p].final_pair,
        decreases params.r - q,
    {
        let mut payloads: Vec<LayerOpenPayload> = Vec::new();
        let mut refs_copy: Vec<LayerQueryRef> = Vec::new();
        let mut ell: usize = 0;
        while ell < l_count
            invariant
                ell <= l_count,
                q < params.r,
                state_linked(st),
                l_count == st.transcript.schedule@.len(),
                query_refs@.len() == params.r,
                forall|p: int|
                    0 <= p < params.r as int ==> (#[trigger] query_refs@[p]).per_layer_refs@.len()
                        == l_count as int,
                forall|p: int, e: int|
                    0 <= p < params.r as int && 0 <= e < l_count as int ==> (
                    #[trigger] query_refs@[p].per_layer_refs@[e]).i < st.f_layers@[e]@.len()
                        && query_refs@[p].per_layer_refs@[e].parent_index < st.f_layers@[e
                        + 1]@.len() && query_refs@[p].per_layer_refs@[e].parent_index as int
                        == query_refs@[p].per_layer_refs@[e].i as int % (
                    st.f_layers@[e + 1]@.len() as int),
                st.s_layers@[l_count as int]@.len() == st.f_layers@[l_count as int]@.len(),
                seq_wf(st.s_layers@[l_count as int]@),
                st.f_layers@[l_count as int]@.len() >= 1,
                payloads@.len() == ell,
                refs_copy@.len() == ell,
                forall|e: int|
                    0 <= e < ell as int ==> (#[trigger] refs_copy@[e]).i
                        == query_refs@[q as int].per_layer_refs@[e].i,
                forall|e: int|
                    0 <= e < ell as int ==> (#[trigger] payloads@[e]).s_i == payloads@[e].f_parent_b,
                forall|e: int|
                    0 <= e < ell as int ==> deep_payload_eq(
                        #[trigger] payloads@[e],
                        st.z_fp3.a0@,
                        st.z_fp3.a1@,
                        st.z_fp3.a2@,
                    ),
            decreases l_count - ell,
        {
            proof {
                assert(layer_linked(
                    st.transcript.schedule@,
                    st.f_layers@,
                    st.s_layers@,
                    st.q_layers@,
                    st.omega_layers@,
                    st.z_layers@,
                    st.z_fp3,
                    ell as int,
                ));
                if ell as int + 1 < l_count as int {
                    assert(layer_linked(
                        st.transcript.schedule@,
                        st.f_layers@,
                        st.s_layers@,
                        st.q_layers@,
                        st.omega_layers@,
                        st.z_layers@,
                        st.z_fp3,
                        ell as int + 1,
                    ));
                }
                assert(vals(st.f_layers@[ell as int]@).len() == st.f_layers@[ell as int]@.len());
                assert(vals(st.f_layers@[ell as int + 1]@).len() == st.f_layers@[ell as int
                    + 1]@.len());
            }
            let rref = st_ref(&query_refs, q, ell);
            let omega = st.omega_layers[ell];
            let x_i = omega.pow(rref.i as u64);
            let qv = st.q_layers[ell][rref.i];
            let s_parent = if ell + 1 < l_count {
                st.s_layers[ell + 1][rref.parent_index]
            } else {
                st.s_layers[l_count][0]
            };
            let pay = LayerOpenPayload {
                f_i: st.f_layers[ell][rref.i],
                f_0: st.f_layers[ell][0],
                s_i: st.s_layers[ell][rref.i],
                q_a0: qv.a0,
                q_a1: qv.a1,
                q_a2: qv.a2,
                x_i,
                f_parent_b: st.f_layers[ell + 1][rref.parent_index],
                s_parent_b: s_parent,
            };
            proof {
                let fl = vals(st.f_layers@[ell as int]@);
                let m = st.transcript.schedule@[ell as int] as nat;
                let nn = st.f_layers@[ell as int + 1]@.len() as int;
                assert(fold_spec(fl, st.z_fp3.a0@, m).len() == fl.len() as int / (m as int));
                assert(nn == fl.len() as int / (m as int));
                assert(pay.s_i@ == fold_spec(fl, st.z_fp3.a0@, m)[rref.i as int % nn]);
                assert(vals(st.f_layers@[ell as int + 1]@)[rref.parent_index as int] == fold_spec(
                    fl,
                    st.z_fp3.a0@,
                    m,
                )[rref.i as int % nn]);
                assert(pay.f_parent_b@ == pay.s_i@);
                assert(pay.f_parent_b.v == pay.s_i.v);
                let w = st.omega_layers@[ell as int]@;
                let i = rref.i as int;
                assert(pay.q_a0@ == q_coord_spec(fl, w, st.z_fp3.a0@, i));
                assert(pay.q_a1@ == q_coord_spec(fl, w, st.z_fp3.a1@, i));
                assert(pay.q_a2@ == q_coord_spec(fl, w, st.z_fp3.a2@, i));
                assert(fmul(
                    finv(fsub(fpow(w, i as nat), st.z_fp3.a0@)),
                    fsub(fpow(w, i as nat), st.z_fp3.a0@),
                ) == 1 && fmul(
                    finv(fsub(fpow(w, i as nat), st.z_fp3.a1@)),
                    fsub(fpow(w, i as nat), st.z_fp3.a1@),
                ) == 1 && fmul(
                    finv(fsub(fpow(w, i as nat), st.z_fp3.a2@)),
                    fsub(fpow(w, i as nat), st.z_fp3.a2@),
                ) == 1);
                lemma_quotient_cancels(fl[i], fl[0], fsub(fpow(w, i as nat), st.z_fp3.a0@));
                lemma_quotient_cancels(fl[i], fl[0], fsub(fpow(w, i as nat), st.z_fp3.a1@));
                lemma_quotient_cancels(fl[i], fl[0], fsub(fpow(w, i as nat), st.z_fp3.a2@));
                assert(pay.x_i@ == fpow(w, i as nat));
                assert(pay.f_i@ == fl[i] && pay.f_0@ == fl[0]);
                assert(deep_payload_eq(pay, st.z_fp3.a0@, st.z_fp3.a1@, st.z_fp3.a2@));
            }
            payloads.push(pay);
            refs_copy.push(*rref);
            ell = ell + 1;
        }
        let fp = query_refs[q].final_pair;
        let fi = query_refs[q].final_index;
        queries.push(
            FriQueryPayload {
                per_layer_refs: refs_copy,
                per_layer_payloads: payloads,
                final_index: fi,
                final_pair: fp,
            },
        );
        q = q + 1;
    }

    proof {
        assert forall|pp: crate::poseidon::PoseidonParams| #[trigger] crate::poseidon::params_from_seed(
            pp,
            crate::tags::tag_poseidon_transcript_seed(),
        ) implies ({
            let c = statement_challenges(pp, eff, domain0.size as u64, params.seed_z);
            forall|q2: int, e: int|
                0 <= q2 < params.r as int && 0 <= e < eff.len() ==> deep_payload_eq(
                    #[trigger] queries@[q2].per_layer_payloads@[e],
                    c.0,
                    c.1,
                    c.2,
                )
        }) by {
            let c = statement_challenges(pp, eff, domain0.size as u64, params.seed_z);
            assert(st.z_fp3.a0@ == c.0 && st.z_fp3.a1@ == c.1 && st.z_fp3.a2@ == c.2);
        }
    }
    Ok(
        DeepFriProof {
            roots,
            layer_proofs,
            queries,
            n0: domain0.size,
            omega0: domain0.omega,
        },
    )
}

/// Reads one per-layer reference of one query.
fn st_ref(query_refs: &Vec<FriQueryOpenings>, q: usize, ell: usize) -> (r: &LayerQueryRef)
    requires
        (q as int) < query_refs@.len(),
        (ell as int) < query_refs@[q as int].per_layer_refs@.len(),
    ensures
        *r == query_refs@[q as int].per_layer_refs@[ell as int],
{
    &query_refs[q].per_layer_refs[ell]
}

/// A quotient times its denominator gives back the numerator, once the
/// run-time inverse check on the denominator has passed.
proof fn lemma_quotient_cancels(a: int, b: int, d: int)
    requires
        fmul(finv(d), d) == 1,
    ensures
        fmul(fmul(fsub(a, b), finv(d)), d) == fsub(a, b),
{
    let diff = fsub(a, b);
    crate::field::lemma_fmul_associative(diff, finv(d), d);
    assert(diff % field_p() == diff) by {
        vstd::arithmetic::div_mod::lemma_mod_twice(a - b, field_p());
    };
}

/// Linked layer sizes follow the division chain of the schedule, so a
/// state whose last layer has width one realizes a final size of one.
proof fn lemma_final_size_chain(st: FriProverState, n0: int, e: int)
    requires
        state_linked(st),
        0 <= e <= st.transcript.schedule@.len(),
        n0 == st.f_layers@[e]@.len(),
    ensures
        final_size(n0, st.transcript.schedule@.subrange(e, st.transcript.schedule@.len() as int))
            == st.f_layers@[st.transcript.schedule@.len() as int]@.len(),
    decreases st.transcript.schedule@.len() - e,
{
    let l = st.transcript.schedule@.len() as int;
    if e == l {
        assert(st.transcript.schedule@.subrange(l, l).len() == 0);
    } else {
        assert(layer_linked(
            st.transcript.schedule@,
            st.f_layers@,
            st.s_layers@,
            st.q_layers@,
            st.omega_layers@,
            st.z_layers@,
            st.z_fp3,
            e,
        ));
        assert(vals(st.f_layers@[e]@).len() == st.f_layers@[e]@.len());
        assert(vals(st.f_layers@[e + 1]@).len() == st.f_layers@[e + 1]@.len());
        assert(st.f_layers@[e + 1]@.len() as int == n0 / st.transcript.schedule@[e] as int);
        lemma_final_size_chain(st, st.f_layers@[e + 1]@.len() as int, e + 1);
        assert(st.transcript.schedule@.subrange(e, l).subrange(
            1,
            st.transcript.schedule@.subrange(e, l).len() as int,
        ) =~= st.transcript.schedule@.subrange(e + 1, l));
        assert(st.transcript.schedule@.subrange(e, l)[0] == st.transcript.schedule@[e]);
    }
}


/// Saturating width addition.
fn sat_add(a: usize, b: usize) -> (r: usize)
    ensures
        r as int == if a + b <= usize::MAX {
            a + b
        } else {
            usize::MAX as int
        },
{
    if a > usize::MAX - b {
        usize::MAX
    } else {
        a + b
    }
}

/// The serialized bytes of one opening: the leaf, the fixed-width index,
/// and every sibling at every level.
pub open spec fn opening_size_spec(o: crate::merkle::MerkleOpening) -> nat {
    16 + 8 * path_sizes(o.path@)
}

/// The total entries of a sibling path.
pub open spec fn path_sizes(path: Seq<Vec<Goldilocks>>) -> nat
    decreases path.len(),
{
    if path.len() == 0 {
        0
    } else {
        path_sizes(path.drop_last()) + path.last()@.len()
    }
}

/// The serialized bytes of a run of openings.
pub open spec fn openings_size_spec(os: Seq<crate::merkle::MerkleOpening>) -> nat
    decreases os.len(),
{
    if os.len() == 0 {
        0
    } else {
        openings_size_spec(os.drop_last()) + opening_size_spec(os.last())
    }
}

/// The serialized bytes of every layer's openings.
pub open spec fn layers_size_spec(ls: Seq<LayerProof>) -> nat
    decreases ls.len(),
{
    if ls.len() == 0 {
        0
    } else {
        layers_size_spec(ls.drop_last()) + openings_size_spec(ls.last().openings@)
    }
}

/// The serialized bytes of the query payloads: nine field elements per
/// layer payload plus the final pair.
pub open spec fn queries_size_spec(qs: Seq<FriQueryPayload>) -> nat
    decreases qs.len(),
{
    if qs.len() == 0 {
        0
    } else {
        queries_size_spec(qs.drop_last()) + 72 * qs.last().per_layer_payloads@.len() + 16
    }
}

/// The byte size of a proof under the canonical encoding: eight bytes per
/// root, nine field elements and a final pair per query and layer, and
/// every opening with its fixed-width index.
pub open spec fn proof_size_spec(proof: DeepFriProof) -> nat {
    8 * proof.roots@.len() + queries_size_spec(proof.queries@) + layers_size_spec(
        proof.layer_proofs.layers@,
    )
}

/// Computes the byte size of a proof, saturating at the machine width.
pub fn deep_fri_proof_size_bytes(proof: &DeepFriProof) -> (r: usize)
    ensures
        r as int == if proof_size_spec(*proof) <= usize::MAX {
            proof_size_spec(*proof) as int
        } else {
            usize::MAX as int
        },
{
    let ghost cap = usize::MAX as int;
    let mut bytes: usize = 0;
    let nroots = proof.roots.len();
    let mut i: usize = 0;
    while i < nroots
        invariant
            i <= nroots,
            nroots == proof.roots@.len(),
            bytes as int == if 8 * i as int <= cap {
                8 * i as int
            } else {
                cap
            },
            cap == usize::MAX as int,
        decreases nroots - i,
    {
        bytes = sat_add(bytes, 8);
        i = i + 1;
    }
    let nq = proof.queries.len();
    let mut i: usize = 0;
    while i < nq
        invariant
            i <= nq,
            nq == proof.queries@.len(),
            cap == usize::MAX as int,
            bytes as int == if 8 * proof.roots@.len() + queries_size_spec(
                proof.queries@.subrange(0, i as int),
            ) <= cap {
                (8 * proof.roots@.len() + queries_size_spec(
                    proof.queries@.subrange(0, i as int),
                )) as int
            } else {
                cap
            },
        decreases nq - i,
    {
        let ghost pre = proof.queries@.subrange(0, i as int);
        let npay = proof.queries[i].per_layer_payloads.len();
        let term = sat_mul72(npay);
        let term2 = sat_add(term, 16);
        bytes = sat_add(bytes, term2);
        proof {
            assert(proof.queries@.subrange(0, i as int + 1).drop_last() =~= pre);
            assert(proof.queries@.subrange(0, i as int + 1).last() == proof.queries@[i as int]);
        }
        i = i + 1;
    }
    proof {
        assert(proof.queries@.subrange(0, nq as int) =~= proof.queries@);
    }
    let nl = proof.layer_proofs.layers.len();
    let mut i: usize = 0;
    while i < nl
        invariant
            i <= nl,
            nl == proof.layer_proofs.layers@.len(),
            cap == usize::MAX as int,
            bytes as int == if 8 * proof.roots@.len() + queries_size_spec(proof.queries@)
                + layers_size_spec(proof.layer_proofs.layers@.subrange(0, i as int)) <= cap {
                (8 * proof.roots@.len() + queries_size_spec(proof.queries@) + layers_size_spec(
                    proof.layer_proofs.layers@.subrange(0, i as int),
                )) as int
            } else {
                cap
            },
        decreases nl - i,
    {
        let ghost pre = proof.layer_proofs.layers@.subrange(0, i as int);
        let layer = &proof.layer_proofs.layers[i];
        let nop = layer.openings.len();
        let mut acc: usize = 0;
        let mut p: usize = 0;
        while p < nop
            invariant
                p <= nop,
                layer == &proof.layer_proofs.layers@[i as int],
                nop == layer.openings@.len(),
                cap == usize::MAX as int,
                acc as int == if openings_size_spec(layer.openings@.subrange(0, p as int)) <= cap {
                    openings_size_spec(layer.openings@.subrange(0, p as int)) as int
                } else {
                    cap
                },
            decreases nop - p,
        {
            let ghost opre = layer.openings@.subrange(0, p as int);
            let opening = &layer.openings[p];
            let nlvl = opening.path.len();
            let mut osz: usize = 16;
            let mut d: usize = 0;
            while d < nlvl
                invariant
                    d <= nlvl,
                    opening == &layer.openings@[p as int],
                    nlvl == opening.path@.len(),
                    cap == usize::MAX as int,
                    osz as int == if 16 + 8 * path_sizes(opening.path@.subrange(0, d as int))
                        <= cap {
                        (16 + 8 * path_sizes(opening.path@.subrange(0, d as int))) as int
                    } else {
                        cap
                    },
                decreases nlvl - d,
            {
                let ghost ppre = opening.path@.subrange(0, d as int);
                let lvl_len = opening.path[d].len();
                let t = sat_mul8(lvl_len);
                osz = sat_add(osz, t);
                proof {
                    assert(opening.path@.subrange(0, d as int + 1).drop_last() =~= ppre);
                    assert(opening.path@.subrange(0, d as int + 1).last()
                        == opening.path@[d as int]);
                }
                d = d + 1;
            }
            proof {
                assert(opening.path@.subrange(0, nlvl as int) =~= opening.path@);
                assert(layer.openings@.subrange(0, p as int + 1).drop_last() =~= opre);
                assert(layer.openings@.subrange(0, p as int + 1).last()
                    == layer.openings@[p as int]);
            }
            acc = sat_add(acc, osz);
            p = p + 1;
        }
        proof {
            assert(layer.openings@.subrange(0, nop as int) =~= layer.openings@);
            assert(proof.layer_proofs.layers@.subrange(0, i as int + 1).drop_last() =~= pre);
            assert(proof.layer_proofs.layers@.subrange(0, i as int + 1).last()
                == proof.layer_proofs.layers@[i as int]);
        }
        bytes = sat_add(bytes, acc);
        i = i + 1;
    }
    proof {
        assert(proof.layer_proofs.layers@.subrange(0, nl as int) =~= proof.layer_proofs.layers@);
    }
    bytes
}

/// Saturating multiplication by seventy-two.
fn sat_mul72(n: usize) -> (r: usize)
    ensures
        r as int == if 72 * n as int <= usize::MAX {
            72 * n as int
        } else {
            usize::MAX as int
        },
{
    if n > usize::MAX / 72 {
        proof {
            assert(72 * (n as int) > usize::MAX) by (nonlinear_arith)
                requires
                    n as int > usize::MAX as int / 72;
        }
        usize::MAX
    } else {
        proof {
            assert(72 * (n as int) <= usize::MAX) by (nonlinear_arith)
                requires
                    n as int <= usize::MAX as int / 72;
        }
        72 * n
    }
}

/// Saturating multiplication by eight.
fn sat_mul8(n: usize) -> (r: usize)
    ensures
        r as int == if 8 * n as int <= usize::MAX {
            8 * n as int
        } else {
            usize::MAX as int
        },
{
    if n > usize::MAX / 8 {
        proof {
            assert(8 * (n as int) > usize::MAX) by (nonlinear_arith)
                requires
                    n as int > usize::MAX as int / 8;
        }
        usize::MAX
    } else {
        proof {
            assert(8 * (n as int) <= usize::MAX) by (nonlinear_arith)
                requires
                    n as int <= usize::MAX as int / 8;
        }
        8 * n
    }
}

/// Verifies a proof: re-derives the challenges and the trace hash from the
/// statement, then checks every query at every layer: the Merkle opening,
/// the index binding, the DEEP quotient equation over the product ring,
/// and fold consistency, with final-layer constancy last.  Any mismatch in
/// shape or value rejects.
/// The DEEP quotient equation of one revealed payload, coordinate by
/// coordinate over the product ring: q * (x - z) = f - f0.
pub open spec fn deep_payload_eq(pay: LayerOpenPayload, z0: int, z1: int, z2: int) -> bool {
    &&& fmul(pay.q_a0@, fsub(pay.x_i@, z0)) == fsub(pay.f_i@, pay.f_0@)
    &&& fmul(pay.q_a1@, fsub(pay.x_i@, z1)) == fsub(pay.f_i@, pay.f_0@)
    &&& fmul(pay.q_a2@, fsub(pay.x_i@, z2)) == fsub(pay.f_i@, pay.f_0@)
}

/// The width of layer l under a schedule: the base size divided by the
/// factors before l.
pub open spec fn layer_width(n0: int, sched: Seq<usize>, l: int) -> int {
    final_size(n0, sched.subrange(0, l))
}

/// Along a division chain of layer sizes, entry l is the width of layer l.
proof fn lemma_layer_width_of_sizes(n0: int, sched: Seq<usize>, sizes: Seq<usize>, l: int)
    requires
        sizes.len() == sched.len() + 1,
        sizes[0] as int == n0,
        0 <= l <= sched.len(),
        forall|q: int|
            0 <= q < sched.len() ==> (#[trigger] sched[q]) >= 1 && sizes[q] as int % (
            sched[q] as int) == 0 && sizes[q + 1] as int == sizes[q] as int / (sched[q] as int),
    ensures
        sizes[l] as int == layer_width(n0, sched, l),
    decreases l,
{
    if l == 0 {
        assert(sched.subrange(0, 0).len() == 0);
    } else {
        lemma_layer_width_of_sizes(n0, sched, sizes, l - 1);
        lemma_final_size_push(n0, sched.subrange(0, l - 1), sched[l - 1]);
        assert(sched.subrange(0, l) =~= sched.subrange(0, l - 1).push(sched[l - 1]));
    }
}

/// A vector of one arity repeated for every tree level.
pub open spec fn uniform_arities_spec(depth: int, arity: usize) -> Seq<usize> {
    Seq::new(depth as nat, |j: int| arity)
}

/// The Merkle arity the protocol uses for a layer: the picked arity,
/// raised to two where the layer offers less.
pub open spec fn layer_arity_spec(n_l: int, m_l: int) -> int {
    if pick_arity_spec(n_l, m_l) < 2 {
        2
    } else {
        pick_arity_spec(n_l, m_l)
    }
}

/// The sibling groups of an opening, as residues.
pub open spec fn opening_pathmap(o: crate::merkle::MerkleOpening) -> Seq<Seq<int>> {
    o.path@.map_values(|lvl: Vec<Goldilocks>| vals(lvl@))
}

/// Every check the verifier makes of one query at one layer: the opening
/// count, the layer shape, the Merkle hash chain against the recorded
/// root under the layer's arity and depth, the index binding, canonical
/// payload values, the DEEP quotient equation, and fold consistency.
pub open spec fn layer_check_ok(
    sched: Seq<usize>,
    r: int,
    proof: DeepFriProof,
    z0: int,
    z1: int,
    z2: int,
    trace: Seq<u8>,
    q: int,
    l: int,
) -> bool {
    let n_l = layer_width(proof.n0 as int, sched, l);
    let m_l = sched[l] as int;
    let a = layer_arity_spec(n_l, m_l);
    let depth = merkle_depth_spec(n_l, a);
    let qp = proof.queries@[q];
    let pay = qp.per_layer_payloads@[l];
    let rref = qp.per_layer_refs@[l];
    let opening = proof.layer_proofs.layers@[l].openings@[q];
    &&& proof.layer_proofs.layers@[l].openings@.len() == r
    &&& m_l >= 1
    &&& n_l >= 1
    &&& crate::merkle::verify_from(
        uniform_arities_spec(depth, a as usize),
        l as u64,
        trace,
        proof.roots@[l]@,
        opening.leaf@,
        opening.index as int,
        opening_pathmap(opening),
        0,
    )
    &&& opening.index == rref.i
    &&& pay.q_a0.wf() && pay.q_a1.wf() && pay.q_a2.wf()
    &&& pay.f_i.wf() && pay.f_0.wf() && pay.x_i.wf()
    &&& deep_payload_eq(pay, z0, z1, z2)
    &&& pay.s_i@ == pay.f_parent_b@
}

/// The per-query structural checks: full layer walks and final-layer
/// constancy.
pub open spec fn query_struct_ok(l_len: int, proof: DeepFriProof, q: int) -> bool {
    &&& proof.queries@[q].per_layer_refs@.len() == l_len
    &&& proof.queries@[q].per_layer_payloads@.len() == l_len
    &&& proof.queries@[q].final_pair.0@ == proof.queries@[q].final_pair.1@
}

/// The verifier's whole decision under a parameter set: at least one
/// query, a normalizable dividing schedule, the structural checks over
/// the effective schedule, and every per-query, per-layer check over the
/// challenges and trace hash re-derived from the statement.  The verifier
/// returns exactly this value.
pub open spec fn verify_ok(
    pp: crate::poseidon::PoseidonParams,
    params: DeepFriParams,
    proof: DeepFriProof,
) -> bool {
    let eff = effective_schedule(proof.n0 as int, params.schedule@);
    let c = statement_challenges(pp, eff, proof.n0 as u64, params.seed_z);
    let trace = crate::hash::seed32_of(Goldilocks { v: c.3 as u64 });
    &&& params.r >= 1
    &&& params.schedule@.len() >= 1
    &&& schedule_divides(proof.n0 as int, params.schedule@)
    &&& (final_size(proof.n0 as int, params.schedule@) <= 1 || pow2_size(
        final_size(proof.n0 as int, params.schedule@) as nat,
    ))
    &&& schedule_divides(proof.n0 as int, eff)
    &&& proof.queries@.len() == params.r
    &&& proof.layer_proofs.layers@.len() == eff.len()
    &&& proof.roots@.len() == eff.len()
    &&& forall|q: int| 0 <= q < params.r as int ==> query_struct_ok(eff.len() as int, proof, q)
    &&& forall|q: int, l: int|
        0 <= q < params.r as int && 0 <= l < eff.len() ==> layer_check_ok(
            eff,
            params.r as int,
            proof,
            c.0,
            c.1,
            c.2,
            trace,
            q,
            l,
        )
}

/// The locally derived challenges and trace hash agree with the
/// statement's, under a parameter set.
pub open spec fn challenges_match(
    pp: crate::poseidon::PoseidonParams,
    sched: Seq<usize>,
    n0: u64,
    seed_z: u64,
    z: Fp3,
    trace: Seq<u8>,
) -> bool {
    let c = statement_challenges(pp, sched, n0, seed_z);
    &&& z.a0@ == c.0
    &&& z.a1@ == c.1
    &&& z.a2@ == c.2
    &&& trace == crate::hash::seed32_of(Goldilocks { v: c.3 as u64 })
}

/// One failed per-query, per-layer check refutes the whole decision for
/// every conforming parameter set.
proof fn lemma_verify_fails_at(
    params: DeepFriParams,
    proof: DeepFriProof,
    z: Fp3,
    trace: Seq<u8>,
    q: int,
    l: int,
)
    requires
        0 <= q < params.r as int,
        0 <= l < effective_schedule(proof.n0 as int, params.schedule@).len(),
        forall|pp: crate::poseidon::PoseidonParams| #[trigger] crate::poseidon::params_from_seed(
            pp,
            crate::tags::tag_poseidon_transcript_seed(),
        ) ==> challenges_match(
            pp,
            effective_schedule(proof.n0 as int, params.schedule@),
            proof.n0 as u64,
            params.seed_z,
            z,
            trace,
        ),
        !layer_check_ok(
            effective_schedule(proof.n0 as int, params.schedule@),
            params.r as int,
            proof,
            z.a0@,
            z.a1@,
            z.a2@,
            trace,
            q,
            l,
        ),
    ensures
        forall|pp: crate::poseidon::PoseidonParams| #[trigger] crate::poseidon::params_from_seed(
            pp,
            crate::tags::tag_poseidon_transcript_seed(),
        ) ==> !verify_ok(pp, params, proof),
{
    let eff = effective_schedule(proof.n0 as int, params.schedule@);
    assert forall|pp: crate::poseidon::PoseidonParams| #[trigger] crate::poseidon::params_from_seed(
        pp,
        crate::tags::tag_poseidon_transcript_seed(),
    ) implies !verify_ok(pp, params, proof) by {
        let c = statement_challenges(pp, eff, proof.n0 as u64, params.seed_z);
        assert(challenges_match(pp, eff, proof.n0 as u64, params.seed_z, z, trace));
        if verify_ok(pp, params, proof) {
            assert(layer_check_ok(
                eff,
                params.r as int,
                proof,
                c.0,
                c.1,
                c.2,
                crate::hash::seed32_of(Goldilocks { v: c.3 as u64 }),
                q,
                l,
            ));
            assert(false);
        }
    }
}

#[verifier::rlimit(100)]
#[verifier::spinoff_prover]
pub fn deep_fri_verify(params: &DeepFriParams, proof: &DeepFriProof) -> (r: bool)
    ensures
        forall|pp: crate::poseidon::PoseidonParams| #[trigger] crate::poseidon::params_from_seed(
            pp,
            crate::tags::tag_poseidon_transcript_seed(),
        ) ==> r == verify_ok(pp, *params, *proof),
{
    if params.r == 0 || params.schedule.len() == 0 {
        return false;
    }
    // the verifier normalizes the schedule exactly as the prover does
    let norm_schedule = match normalize_fri_schedule(proof.n0, &params.schedule) {
        Ok(v) => v,
        Err(_) => {
            return false;
        },
    };
    let ghost eff = effective_schedule(proof.n0 as int, params.schedule@);
    proof {
        assert(norm_schedule@ == eff);
    }
    let l_count = norm_schedule.len();
    if proof.queries.len() != params.r || proof.layer_proofs.layers.len() != l_count
        || proof.roots.len() != l_count {
        return false;
    }
    let sizes = match layer_sizes_from_schedule(proof.n0, &norm_schedule) {
        Ok(v) => v,
        Err(_) => {
            return false;
        },
    };
    proof {
        assert forall|l: int| 0 <= l <= l_count as int implies sizes@[l] as int == layer_width(
            proof.n0 as int,
            eff,
            l,
        ) by {
            lemma_layer_width_of_sizes(proof.n0 as int, eff, sizes@, l);
        }
    }

    // rebuild the Fiat-Shamir transcript and the challenges
    let pparams = crate::poseidon::default_params();
    let label = crate::tags::tag_fri_fs_bytes();
    let mut tr = crate::transcript::Transcript::new(&label, pparams);
    bind_statement_to_transcript(&mut tr, &norm_schedule, proof.n0, params.seed_z);
    let la0 = crate::tags::tag_z_a0_bytes();
    let la1 = crate::tags::tag_z_a1_bytes();
    let la2 = crate::tags::tag_z_a2_bytes();
    let z0 = tr.challenge(&la0);
    let z1 = tr.challenge(&la1);
    let z2 = tr.challenge(&la2);
    let z_fp3 = Fp3 { a0: z0, a1: z1, a2: z2 };
    let seed_label = crate::tags::tag_fri_seed_bytes();
    let roots_seed = tr.challenge(&seed_label);
    let trace_hash = field_to_seed32(roots_seed);
    proof {
        lemma_tv_bind_poseidon(
            crate::transcript::pb_init(pparams, crate::tags::tag_fri_fs()),
            pparams,
            eff,
            proof.n0 as u64,
            params.seed_z,
        );
        let c = statement_challenges(pparams, eff, proof.n0 as u64, params.seed_z);
        assert(z0@ == c.0 && z1@ == c.1 && z2@ == c.2 && roots_seed@ == c.3);
        assert forall|pp: crate::poseidon::PoseidonParams| #[trigger] crate::poseidon::params_from_seed(
            pp,
            crate::tags::tag_poseidon_transcript_seed(),
        ) implies challenges_match(
            pp,
            eff,
            proof.n0 as u64,
            params.seed_z,
            z_fp3,
            trace_hash@,
        ) by {
            lemma_statement_challenges_agree(
                pparams,
                pp,
                crate::tags::tag_poseidon_transcript_seed(),
                eff,
                proof.n0 as u64,
                params.seed_z,
            );
            let cp = statement_challenges(pp, eff, proof.n0 as u64, params.seed_z);
            assert(Goldilocks { v: cp.3 as u64 } == roots_seed);
        }
    }

    let mut q: usize = 0;
    while q < params.r
        invariant
            q <= params.r,
            params.r >= 1,
            params.schedule@.len() >= 1,
            eff == effective_schedule(proof.n0 as int, params.schedule@),
            l_count == eff.len(),
            schedule_divides(proof.n0 as int, params.schedule@),
            final_size(proof.n0 as int, params.schedule@) <= 1 || pow2_size(
                final_size(proof.n0 as int, params.schedule@) as nat,
            ),
            schedule_divides(proof.n0 as int, eff),
            proof.queries@.len() == params.r,
            proof.layer_proofs.layers@.len() == l_count,
            proof.roots@.len() == l_count,
            sizes@.len() == l_count + 1,
            z_fp3.wf(),
            trace_hash@.len() == 32,
            forall|l: int|
                0 <= l <= l_count as int ==> (#[trigger] sizes@[l]) as int == layer_width(
                    proof.n0 as int,
                    eff,
                    l,
                ),
            forall|pp: crate::poseidon::PoseidonParams| #[trigger] crate::poseidon::params_from_seed(
                pp,
                crate::tags::tag_poseidon_transcript_seed(),
            ) ==> challenges_match(
                pp,
                eff,
                proof.n0 as u64,
                params.seed_z,
                z_fp3,
                trace_hash@,
            ),
            norm_schedule@ == eff,
            forall|p: int| 0 <= p < q as int ==> query_struct_ok(l_count as int, *proof, p),
            forall|p: int, e: int|
                0 <= p < q as int && 0 <= e < l_count as int ==> layer_check_ok(
                    eff,
                    params.r as int,
                    *proof,
                    z_fp3.a0@,
                    z_fp3.a1@,
                    z_fp3.a2@,
                    trace_hash@,
                    p,
                    e,
                ),
        decreases params.r - q,
    {
        let qp = &proof.queries[q];
        if qp.per_layer_refs.len() != l_count || qp.per_layer_payloads.len() != l_count {
            proof {
                assert(!query_struct_ok(l_count as int, *proof, q as int));
            }
            return false;
        }
        let mut ell: usize = 0;
        while ell < l_count
            invariant
                ell <= l_count,
                q < params.r,
                eff == effective_schedule(proof.n0 as int, params.schedule@),
                norm_schedule@ == eff,
                l_count == eff.len(),
                proof.queries@.len() == params.r,
                proof.layer_proofs.layers@.len() == l_count,
                proof.roots@.len() == l_count,
                sizes@.len() == l_count + 1,
                z_fp3.wf(),
                trace_hash@.len() == 32,
                forall|l: int|
                    0 <= l <= l_count as int ==> (#[trigger] sizes@[l]) as int == layer_width(
                        proof.n0 as int,
                        eff,
                        l,
                    ),
                forall|pp: crate::poseidon::PoseidonParams| #[trigger] crate::poseidon::params_from_seed(
                    pp,
                    crate::tags::tag_poseidon_transcript_seed(),
                ) ==> challenges_match(
                    pp,
                    eff,
                    proof.n0 as u64,
                    params.seed_z,
                    z_fp3,
                    trace_hash@,
                ),
                qp == &proof.queries@[q as int],
                qp.per_layer_refs@.len() == l_count,
                qp.per_layer_payloads@.len() == l_count,
                forall|e: int|
                    0 <= e < ell as int ==> layer_check_ok(
                        eff,
                        params.r as int,
                        *proof,
                        z_fp3.a0@,
                        z_fp3.a1@,
                        z_fp3.a2@,
                        trace_hash@,
                        q as int,
                        e,
                    ),
            decreases l_count - ell,
        {
            let ghost gq: int = q as int;
            let ghost gl: int = ell as int;
            let layer_openings = &proof.layer_proofs.layers[ell].openings;
            if layer_openings.len() != params.r {
                proof {
                    assert(!layer_check_ok(
                        eff,
                        params.r as int,
                        *proof,
                        z_fp3.a0@,
                        z_fp3.a1@,
                        z_fp3.a2@,
                        trace_hash@,
                        gq,
                        gl,
                    ));
                    lemma_verify_fails_at(*params, *proof, z_fp3, trace_hash@, gq, gl);
                }
                return false;
            }
            let opening = &layer_openings[q];
            let n_l = sizes[ell];
            let m_l = norm_schedule[ell];
            if m_l < 1 || n_l < 1 {
                proof {
                    assert(!layer_check_ok(
                        eff,
                        params.r as int,
                        *proof,
                        z_fp3.a0@,
                        z_fp3.a1@,
                        z_fp3.a2@,
                        trace_hash@,
                        gq,
                        gl,
                    ));
                    lemma_verify_fails_at(*params, *proof, z_fp3, trace_hash@, gq, gl);
                }
                return false;
            }
            let mut arity = pick_arity_for_layer(n_l, m_l);
            if arity < 2 {
                arity = 2;
            }
            let depth = merkle_depth(n_l, arity);
            let mut arities: Vec<usize> = Vec::new();
            let mut d: usize = 0;
            while d < depth
                invariant
                    d <= depth,
                    arities@.len() == d,
                    forall|j: int| 0 <= j < d as int ==> (#[trigger] arities@[j]) == arity,
                decreases depth - d,
            {
                arities.push(arity);
                d = d + 1;
            }
            proof {
                assert(arity as int == layer_arity_spec(n_l as int, m_l as int));
                assert(arities@ =~= uniform_arities_spec(depth as int, arity));
            }
            let cfg = crate::merkle::MerkleChannelCfg::new(arities, ell as u64);
            let root = proof.roots[ell];
            let ghost merkle_ok = crate::merkle::opening_ok(cfg, trace_hash@, root@, *opening);
            proof {
                assert(merkle_ok == crate::merkle::verify_from(
                    uniform_arities_spec(
                        merkle_depth_spec(
                            layer_width(proof.n0 as int, eff, gl),
                            layer_arity_spec(
                                layer_width(proof.n0 as int, eff, gl),
                                eff[gl] as int,
                            ),
                        ),
                        arity,
                    ),
                    gl as u64,
                    trace_hash@,
                    proof.roots@[gl]@,
                    opening.leaf@,
                    opening.index as int,
                    opening_pathmap(*opening),
                    0,
                ));
            }
            if !crate::merkle::MerkleTreeChannel::verify_opening(&cfg, root, opening, &trace_hash) {
                proof {
                    assert(!layer_check_ok(
                        eff,
                        params.r as int,
                        *proof,
                        z_fp3.a0@,
                        z_fp3.a1@,
                        z_fp3.a2@,
                        trace_hash@,
                        gq,
                        gl,
                    ));
                    lemma_verify_fails_at(*params, *proof, z_fp3, trace_hash@, gq, gl);
                }
                return false;
            }
            let rref = &qp.per_layer_refs[ell];
            let pay = &qp.per_layer_payloads[ell];
            if opening.index != rref.i {
                proof {
                    assert(!layer_check_ok(
                        eff,
                        params.r as int,
                        *proof,
                        z_fp3.a0@,
                        z_fp3.a1@,
                        z_fp3.a2@,
                        trace_hash@,
                        gq,
                        gl,
                    ));
                    lemma_verify_fails_at(*params, *proof, z_fp3, trace_hash@, gq, gl);
                }
                return false;
            }
            // the DEEP quotient equation over the product ring
            let q_fp3 = Fp3 { a0: pay.q_a0, a1: pay.q_a1, a2: pay.q_a2 };
            if !q_fp3.a0.is_canonical() || !q_fp3.a1.is_canonical() || !q_fp3.a2.is_canonical()
                || !pay.f_i.is_canonical() || !pay.f_0.is_canonical() || !pay.x_i.is_canonical() {
                proof {
                    assert(!layer_check_ok(
                        eff,
                        params.r as int,
                        *proof,
                        z_fp3.a0@,
                        z_fp3.a1@,
                        z_fp3.a2@,
                        trace_hash@,
                        gq,
                        gl,
                    ));
                    lemma_verify_fails_at(*params, *proof, z_fp3, trace_hash@, gq, gl);
                }
                return false;
            }
            let num = Fp3::from_base(pay.f_i.sub(pay.f_0));
            let denom = Fp3::from_base(pay.x_i).sub(z_fp3);
            let lhs = q_fp3.mul(denom);
            if lhs.a0.to_u64() != num.a0.to_u64() || lhs.a1.to_u64() != num.a1.to_u64()
                || lhs.a2.to_u64() != num.a2.to_u64() {
                proof {
                    assert(!deep_payload_eq(
                        qp.per_layer_payloads@[gl],
                        z_fp3.a0@,
                        z_fp3.a1@,
                        z_fp3.a2@,
                    ));
                    assert(!layer_check_ok(
                        eff,
                        params.r as int,
                        *proof,
                        z_fp3.a0@,
                        z_fp3.a1@,
                        z_fp3.a2@,
                        trace_hash@,
                        gq,
                        gl,
                    ));
                    lemma_verify_fails_at(*params, *proof, z_fp3, trace_hash@, gq, gl);
                }
                return false;
            }
            // fold consistency against the committed parent
            if pay.s_i.to_u64() != pay.f_parent_b.to_u64() {
                proof {
                    assert(!layer_check_ok(
                        eff,
                        params.r as int,
                        *proof,
                        z_fp3.a0@,
                        z_fp3.a1@,
                        z_fp3.a2@,
                        trace_hash@,
                        gq,
                        gl,
                    ));
                    lemma_verify_fails_at(*params, *proof, z_fp3, trace_hash@, gq, gl);
                }
                return false;
            }
            proof {
                assert(pay.s_i.v == pay.f_parent_b.v);
                assert(qp.per_layer_payloads@[gl].s_i == qp.per_layer_payloads@[gl].f_parent_b);
                assert(lhs.a0@ == num.a0@ && lhs.a1@ == num.a1@ && lhs.a2@ == num.a2@);
                assert(deep_payload_eq(qp.per_layer_payloads@[gl], z_fp3.a0@, z_fp3.a1@, z_fp3.a2@));
                assert(layer_check_ok(
                    eff,
                    params.r as int,
                    *proof,
                    z_fp3.a0@,
                    z_fp3.a1@,
                    z_fp3.a2@,
                    trace_hash@,
                    gq,
                    gl,
                ));
            }
            ell = ell + 1;
        }
        // final-layer constancy
        if qp.final_pair.0.to_u64() != qp.final_pair.1.to_u64() {
            proof {
                assert(!query_struct_ok(l_count as int, *proof, q as int));
            }
            return false;
        }
        proof {
            assert(qp.final_pair.0.v == qp.final_pair.1.v);
            assert(query_struct_ok(l_count as int, *proof, q as int));
        }
        q = q + 1;
    }
    proof {
        assert forall|pp: crate::poseidon::PoseidonParams| #[trigger] crate::poseidon::params_from_seed(
            pp,
            crate::tags::tag_poseidon_transcript_seed(),
        ) implies verify_ok(pp, *params, *proof) by {
            let c = statement_challenges(pp, eff, proof.n0 as u64, params.seed_z);
            assert(challenges_match(
                pp,
                eff,
                proof.n0 as u64,
                params.seed_z,
                z_fp3,
                trace_hash@,
            ));
            assert(trace_hash@ == crate::hash::seed32_of(Goldilocks { v: c.3 as u64 }));
            assert forall|q2: int, l: int|
                #![trigger layer_check_ok(eff, params.r as int, *proof, c.0, c.1, c.2, crate::hash::seed32_of(Goldilocks { v: c.3 as u64 }), q2, l)]
                0 <= q2 < params.r as int && 0 <= l < eff.len() implies layer_check_ok(
                eff,
                params.r as int,
                *proof,
                c.0,
                c.1,
                c.2,
                crate::hash::seed32_of(Goldilocks { v: c.3 as u64 }),
                q2,
                l,
            ) by {
                assert(layer_check_ok(
                    eff,
                    params.r as int,
                    *proof,
                    z_fp3.a0@,
                    z_fp3.a1@,
                    z_fp3.a2@,
                    trace_hash@,
                    q2,
                    l,
                ));
            }
        }
    }
    true
}


/// The schedule the protocol runs: the given one, with any residual above
/// one appended as a last fold so the final layer has size one.
pub open spec fn effective_schedule(n0: int, sched: Seq<usize>) -> Seq<usize> {
    if final_size(n0, sched) > 1 {
        sched.push(final_size(n0, sched) as usize)
    } else {
        sched
    }
}

/// Along a division chain of layer sizes the last entry is the final size
/// of the remaining schedule.
proof fn lemma_final_size_of_chain(sched: Seq<usize>, sizes: Seq<usize>, l: int)
    requires
        sizes.len() == sched.len() + 1,
        0 <= l <= sched.len(),
        forall|q: int|
            0 <= q < sched.len() ==> (#[trigger] sched[q]) >= 1 && sizes[q] as int % (
            sched[q] as int) == 0 && sizes[q + 1] as int == sizes[q] as int / (sched[q] as int),
    ensures
        final_size(sizes[l] as int, sched.subrange(l, sched.len() as int)) == sizes[
            sched.len() as int
        ] as int,
    decreases sched.len() - l,
{
    let len = sched.len() as int;
    if l == len {
        assert(sched.subrange(len, len).len() == 0);
    } else {
        lemma_final_size_of_chain(sched, sizes, l + 1);
        assert(sched.subrange(l, len)[0] == sched[l]);
        assert(sched.subrange(l, len).subrange(1, len - l) =~= sched.subrange(l + 1, len));
    }
}

/// Appending a factor divides the final size by it.
proof fn lemma_final_size_push(n0: int, sched: Seq<usize>, m: usize)
    ensures
        final_size(n0, sched.push(m)) == final_size(n0, sched) / (m as int),
    decreases sched.len(),
{
    if sched.len() == 0 {
        assert(sched.push(m)[0] == m);
        assert(sched.push(m).subrange(1, 1).len() == 0);
        assert(final_size(n0, sched.push(m)) == final_size(
            n0 / (m as int),
            sched.push(m).subrange(1, 1),
        ));
        assert(final_size(n0 / (m as int), sched.push(m).subrange(1, 1)) == n0 / (m as int));
        assert(final_size(n0, sched) == n0);
    } else {
        lemma_final_size_push(n0 / (sched[0] as int), sched.subrange(1, sched.len() as int), m);
        assert(sched.push(m)[0] == sched[0]);
        assert(sched.push(m).subrange(1, sched.len() as int + 1) =~= sched.subrange(
            1,
            sched.len() as int,
        ).push(m));
        assert(final_size(n0, sched.push(m)) == final_size(
            n0 / (sched[0] as int),
            sched.subrange(1, sched.len() as int).push(m),
        ));
        assert(final_size(n0, sched) == final_size(
            n0 / (sched[0] as int),
            sched.subrange(1, sched.len() as int),
        ));
    }
}

/// Normalizes a schedule so that the final layer has size one: when the
/// factors leave a residual, it is appended as one more fold.  It succeeds
/// exactly when the schedule divides through and any residual above one is
/// a power of two; the appended factor is that residual, and the
/// normalized schedule then reaches final size one.
pub fn normalize_fri_schedule(n0: usize, schedule: &Vec<usize>) -> (r: Result<
    Vec<usize>,
    ProtocolError,
>)
    ensures
        r matches Ok(ns) ==> ns@.subrange(0, schedule@.len() as int) == schedule@
            && ns@.len() >= schedule@.len(),
        r matches Ok(ns) ==> ns@ == effective_schedule(n0 as int, schedule@),
        r is Ok <==> (schedule_divides(n0 as int, schedule@) && (final_size(
            n0 as int,
            schedule@,
        ) <= 1 || pow2_size(final_size(n0 as int, schedule@) as nat))),
        r matches Ok(ns) ==> {
            let fs = final_size(n0 as int, schedule@);
            &&& (fs <= 1 ==> ns@ == schedule@)
            &&& (fs > 1 ==> ns@.len() == schedule@.len() + 1 && ns@[schedule@.len() as int] as int
                == fs && final_size(n0 as int, ns@) == 1)
        },
        r matches Err(e) ==> e == ProtocolError::ConfigError,
{
    let sizes = match layer_sizes_from_schedule(n0, schedule) {
        Ok(v) => v,
        Err(e) => {
            return Err(e);
        },
    };
    proof {
        lemma_final_size_of_chain(schedule@, sizes@, 0);
        assert(schedule@.subrange(0, schedule@.len() as int) =~= schedule@);
    }
    let residual = sizes[sizes.len() - 1];
    let mut out = copy_usizes(schedule);
    if residual > 1 {
        if !pow2_size_check(residual) {
            return Err(ProtocolError::ConfigError);
        }
        out.push(residual);
        proof {
            assert(out@ =~= schedule@.push(residual));
            lemma_final_size_push(n0 as int, schedule@, residual);
            assert((residual as int) / (residual as int) == 1) by (nonlinear_arith)
                requires
                    residual >= 1;
        }
    } else {
        proof {
            assert(out@ =~= schedule@);
        }
    }
    proof {
        assert(out@.subrange(0, schedule@.len() as int) =~= schedule@);
    }
    Ok(out)
}

} // verus!
