//! Radix-2 number-theoretic transform over the Goldilocks field.
//!
//! The forward transform maps a coefficient vector to its evaluations on
//! the cyclic subgroup generated by a root of unity of matching order; the
//! inverse transform runs the same recursion with the inverse root and
//! scales by the inverse of the length.

use vstd::prelude::*;
use vstd::arithmetic::power::{
    pow, lemma_pow0, lemma_pow1, lemma_pow_adds, lemma_pow_multiplies, lemma_pow_mod_noop,
    lemma1_pow,
};
use vstd::arithmetic::div_mod::{
    lemma_add_mod_noop_right, lemma_mod_bound, lemma_mod_multiples_vanish,
    lemma_mul_mod_noop_left, lemma_mul_mod_noop_right, lemma_small_mod, lemma_sub_mod_noop_right,
};
use crate::field::{
    fadd, fsub, fmul, fpow, field_p, seq_wf, vals, Goldilocks, MODULUS,
};

verus! {

/// A positive power of two, by repeated halving.
pub open spec fn pow2_size(n: nat) -> bool
    decreases n,
{
    if n == 0 {
        false
    } else if n == 1 {
        true
    } else {
        n % 2 == 0 && pow2_size(n / 2)
    }
}

/// w generates a cyclic group of order n: its n-th power is one and, when
/// n exceeds one, its (n/2)-th power is p - 1 (the residue of minus one).
pub open spec fn is_radix2_root(w: int, n: nat) -> bool {
    &&& 0 <= w < field_p()
    &&& fpow(w, n) == 1
    &&& (n > 1 ==> fpow(w, n / 2) == field_p() - 1)
}

/// The even-index entries of a sequence.
pub open spec fn even_elems(s: Seq<int>) -> Seq<int> {
    Seq::new(s.len() / 2, |i: int| s[2 * i])
}

/// The odd-index entries of a sequence.
pub open spec fn odd_elems(s: Seq<int>) -> Seq<int> {
    Seq::new(s.len() / 2, |i: int| s[2 * i + 1])
}

/// The radix-2 decimation-in-time transform: entry i of the result is
/// E[i mod h] + w^i * O[i mod h], where E and O are the transforms of the
/// even and odd halves under w^2 and h is half the length.
pub open spec fn ntt_spec(v: Seq<int>, w: int) -> Seq<int>
    decreases v.len(),
{
    if v.len() <= 1 {
        v
    } else {
        let h = (v.len() / 2) as int;
        let e = ntt_spec(even_elems(v), fmul(w, w));
        let o = ntt_spec(odd_elems(v), fmul(w, w));
        Seq::new(v.len(), |i: int| fadd(e[i % h], fmul(fpow(w, i as nat), o[i % h])))
    }
}

/// Every entry multiplied by a constant.
pub open spec fn scale_spec(s: Seq<int>, c: int) -> Seq<int> {
    s.map_values(|x: int| fmul(c, x))
}

/// The inverse transform: the forward recursion under the inverse root,
/// scaled by the inverse of the length.
pub open spec fn intt_spec(v: Seq<int>, w_inv: int, n_inv: int) -> Seq<int> {
    scale_spec(ntt_spec(v, w_inv), n_inv)
}

/// Squaring the base halves the needed exponent.
proof fn lemma_fpow_square_base(w: int, m: nat)
    ensures
        fpow(fmul(w, w), m) == fpow(w, 2 * m),
{
    lemma_pow_mod_noop(w * w, m, field_p());
    lemma_pow_multiplies(w, 2, m);
    assert(pow(w, 2) == w * w) by {
        lemma_pow1(w);
        lemma_pow_adds(w, 1, 1);
    };
}

/// fpow splits over addition of exponents (re-export from the field).
proof fn lemma_fpow_adds_local(b: int, e1: nat, e2: nat)
    ensures
        fmul(fpow(b, e1), fpow(b, e2)) == fpow(b, e1 + e2),
{
    crate::field::lemma_fpow_adds(b, e1, e2);
}

/// The square of a root of order n is a root of order n/2.
pub proof fn lemma_radix2_root_square(w: int, n: nat)
    requires
        n >= 2,
        pow2_size(n),
        is_radix2_root(w, n),
    ensures
        is_radix2_root(fmul(w, w), n / 2),
{
    let p = field_p();
    lemma_mod_bound(w * w, p);
    lemma_fpow_square_base(w, n / 2);
    assert(2 * (n / 2) == n);
    if n / 2 > 1 {
        lemma_fpow_square_base(w, (n / 2) / 2);
        assert(pow2_size(n / 2));
        assert((n / 2) % 2 == 0);
        assert(2 * ((n / 2) / 2) == n / 2);
    }
}

/// Powers of the residue of minus one alternate between one and minus one.
proof fn lemma_fpow_minus_one(e: nat)
    ensures
        fpow(field_p() - 1, e) == if e % 2 == 0 { 1int } else { field_p() - 1 },
    decreases e,
{
    let p = field_p();
    if e == 0 {
        lemma_pow0(p - 1);
        lemma_small_mod(1nat, MODULUS as nat);
    } else {
        lemma_fpow_minus_one((e - 1) as nat);
        lemma_fpow_adds_local(p - 1, (e - 1) as nat, 1);
        assert(fpow(p - 1, 1) == p - 1) by {
            lemma_pow1(p - 1);
            lemma_small_mod((MODULUS - 1) as nat, MODULUS as nat);
        };
        if (e - 1) % 2 == 0 {
            assert(fmul(1, p - 1) == p - 1) by {
                lemma_small_mod((MODULUS - 1) as nat, MODULUS as nat);
            };
        } else {
            assert(fmul(p - 1, p - 1) == 1) by {
                assert((p - 1) * (p - 1) == p * (p - 2) + 1) by (nonlinear_arith);
                lemma_mod_multiples_vanish(p - 2, 1, p);
                lemma_small_mod(1nat, MODULUS as nat);
            };
        }
    }
}

/// Adding half an order to the exponent negates the power.
proof fn lemma_half_turn(w: int, e: int, o: int, i: nat, h: nat)
    requires
        fpow(w, h) == field_p() - 1,
    ensures
        fadd(e, fmul(fpow(w, i + h), o)) == fsub(e, fmul(fpow(w, i), o)),
{
    let p = field_p();
    let x = fpow(w, i);
    lemma_fpow_adds_local(w, i, h);
    assert(fpow(w, i + h) == fmul(x, p - 1));
    assert(fmul(fmul(x, p - 1), o) == (x * (p - 1) * o) % p) by {
        lemma_mul_mod_noop_left(x * (p - 1), o, p);
    };
    assert(x * (p - 1) * o == p * (x * o) + (0 - x * o)) by (nonlinear_arith);
    assert((p * (x * o) + (0 - x * o)) % p == (0 - x * o) % p) by {
        lemma_mod_multiples_vanish(x * o, 0 - x * o, p);
    };
    lemma_add_mod_noop_right(e, 0 - x * o, p);
    lemma_sub_mod_noop_right(e, x * o, p);
}

/// The (n-1)-th power of a root of order n is its inverse, and itself a
/// root of order n.
proof fn lemma_root_inverse(w: int, n: nat)
    requires
        n >= 1,
        pow2_size(n),
        is_radix2_root(w, n),
    ensures
        fmul(w, fpow(w, (n - 1) as nat)) == 1,
        is_radix2_root(fpow(w, (n - 1) as nat), n),
{
    let p = field_p();
    let u = fpow(w, (n - 1) as nat);
    lemma_mod_bound(pow(w, (n - 1) as nat), p);
    assert(fmul(w, u) == 1) by {
        lemma_mul_mod_noop_right(w, pow(w, (n - 1) as nat), p);
        lemma_pow1(w);
        lemma_pow_adds(w, 1, (n - 1) as nat);
    };
    assert(fpow(u, n) == 1) by {
        lemma_pow_mod_noop(pow(w, (n - 1) as nat), n, p);
        lemma_pow_multiplies(w, (n - 1) as nat, n);
        lemma_pow_multiplies(w, n, (n - 1) as nat);
        assert(((n - 1) as nat) * n == n * ((n - 1) as nat));
        lemma_pow_mod_noop(pow(w, n), (n - 1) as nat, p);
        lemma1_pow((n - 1) as nat);
        lemma_small_mod(1nat, MODULUS as nat);
    };
    if n > 1 {
        assert(fpow(u, n / 2) == p - 1) by {
            lemma_pow_mod_noop(pow(w, (n - 1) as nat), n / 2, p);
            lemma_pow_multiplies(w, (n - 1) as nat, n / 2);
            lemma_pow_multiplies(w, n / 2, (n - 1) as nat);
            assert(((n - 1) as nat) * (n / 2) == (n / 2) * ((n - 1) as nat));
            lemma_pow_mod_noop(pow(w, n / 2), (n - 1) as nat, p);
            lemma_fpow_minus_one((n - 1) as nat);
            assert(n % 2 == 0);
            assert((n - 1) % 2 == 1int);
        };
    }
}

/// Computes the inverse of a root of unity as its (n-1)-th power.
pub fn radix2_root_inverse(w: Goldilocks, n: u64) -> (r: Goldilocks)
    requires
        w.wf(),
        n >= 1,
        pow2_size(n as nat),
        is_radix2_root(w@, n as nat),
    ensures
        r.wf(),
        r@ == fpow(w@, (n - 1) as nat),
        fmul(w@, r@) == 1,
        is_radix2_root(r@, n as nat),
{
    proof {
        lemma_root_inverse(w@, n as nat);
    }
    w.pow(n - 1)
}

/// The forward transform, by recursive decimation in time.
pub fn ntt(v: &Vec<Goldilocks>, w: Goldilocks) -> (r: Vec<Goldilocks>)
    requires
        w.wf(),
        seq_wf(v@),
        pow2_size(v@.len()),
        is_radix2_root(w@, v@.len()),
    ensures
        r@.len() == v@.len(),
        seq_wf(r@),
        vals(r@) == ntt_spec(vals(v@), w@),
    decreases v@.len(),
{
    let n = v.len();
    if n <= 1 {
        let mut out: Vec<Goldilocks> = Vec::new();
        let mut i: usize = 0;
        while i < n
            invariant
                i <= n,
                n == v@.len(),
                seq_wf(v@),
                out@.len() == i,
                forall|j: int| 0 <= j < i as int ==> out@[j] == v@[j],
            decreases n - i,
        {
            let x = v[i];
            out.push(x);
            i = i + 1;
        }
        proof {
            assert(vals(out@) =~= ntt_spec(vals(v@), w@));
        }
        return out;
    }
    let h = n / 2;
    let mut ev: Vec<Goldilocks> = Vec::new();
    let mut od: Vec<Goldilocks> = Vec::new();
    let mut i: usize = 0;
    while i < h
        invariant
            i <= h,
            h == n / 2,
            n == v@.len(),
            n >= 2,
            n % 2 == 0,
            seq_wf(v@),
            ev@.len() == i,
            od@.len() == i,
            forall|j: int| 0 <= j < i as int ==> ev@[j] == v@[2 * j],
            forall|j: int| 0 <= j < i as int ==> od@[j] == v@[2 * j + 1],
        decreases h - i,
    {
        let a = v[2 * i];
        let b = v[2 * i + 1];
        ev.push(a);
        od.push(b);
        i = i + 1;
    }
    proof {
        assert(vals(ev@) =~= even_elems(vals(v@)));
        assert(vals(od@) =~= odd_elems(vals(v@)));
        lemma_radix2_root_square(w@, n as nat);
    }
    let w2 = w.mul(w);
    let e = ntt(&ev, w2);
    let o = ntt(&od, w2);
    let ghost res = ntt_spec(vals(v@), w@);
    proof {
        assert(res.len() == n as int);
        assert(res == Seq::new(
            v@.len(),
            |i: int|
                fadd(
                    ntt_spec(even_elems(vals(v@)), fmul(w@, w@))[i % (h as int)],
                    fmul(
                        fpow(w@, i as nat),
                        ntt_spec(odd_elems(vals(v@)), fmul(w@, w@))[i % (h as int)],
                    ),
                ),
        ));
    }
    let mut out: Vec<Goldilocks> = Vec::new();
    let mut i: usize = 0;
    while i < n
        invariant
            i <= n,
            out@.len() == i,
            forall|j: int| 0 <= j < i as int ==> (#[trigger] out@[j])@ == 0,
            forall|j: int| 0 <= j < i as int ==> (#[trigger] out@[j]).wf(),
        decreases n - i,
    {
        out.push(Goldilocks::zero());
        i = i + 1;
    }
    let mut x = Goldilocks::one();
    proof {
        lemma_pow0(w@);
        lemma_small_mod(1nat, MODULUS as nat);
    }
    let mut i: usize = 0;
    while i < h
        invariant
            i <= h,
            h == n / 2,
            n == v@.len(),
            n >= 2,
            n % 2 == 0,
            seq_wf(v@),
            w.wf(),
            is_radix2_root(w@, n as nat),
            x.wf(),
            x@ == fpow(w@, i as nat),
            out@.len() == n,
            e@.len() == h,
            o@.len() == h,
            seq_wf(e@),
            seq_wf(o@),
            vals(e@) == ntt_spec(even_elems(vals(v@)), fmul(w@, w@)),
            vals(o@) == ntt_spec(odd_elems(vals(v@)), fmul(w@, w@)),
            res == ntt_spec(vals(v@), w@),
            res.len() == n as int,
            forall|j: int| 0 <= j < n as int ==> (#[trigger] out@[j]).wf(),
            forall|j: int| 0 <= j < i as int ==> (#[trigger] out@[j])@ == res[j],
            forall|j: int|
                0 <= j < i as int ==> (#[trigger] out@[h as int + j])@ == res[h as int + j],
        decreases h - i,
    {
        let ei = e[i];
        let oi = o[i];
        let t = x.mul(oi);
        let lo = ei.add(t);
        let hi = ei.sub(t);
        proof {
            assert(vals(e@)[i as int] == ei@);
            assert(vals(o@)[i as int] == oi@);
            lemma_small_mod(i as nat, h as nat);
            assert((i as int) % (h as int) == i as int);
            assert(res[i as int] == fadd(ei@, fmul(fpow(w@, i as nat), oi@)));
            assert(lo@ == res[i as int]);
            // the upper half: index h + i reduces to i, and the power gains h
            lemma_mod_multiples_vanish(1, i as int, h as int);
            assert((h as int + i as int) % (h as int) == i as int);
            assert(res[h as int + i as int] == fadd(
                ei@,
                fmul(fpow(w@, (h + i) as nat), oi@),
            ));
            lemma_half_turn(w@, ei@, oi@, i as nat, h as nat);
            assert(hi@ == res[h as int + i as int]);
        }
        out.set(i, lo);
        out.set(h + i, hi);
        let ghost xprev = x@;
        x = x.mul(w);
        proof {
            lemma_fpow_adds_local(w@, i as nat, 1);
            assert(fpow(w@, 1) == w@) by {
                lemma_pow1(w@);
                lemma_small_mod(w.v as nat, MODULUS as nat);
            };
            assert(x@ == fpow(w@, (i + 1) as nat));
        }
        i = i + 1;
    }
    proof {
        assert forall|j: int| 0 <= j < n as int implies vals(out@)[j] == res[j] by {
            if j < h as int {
                assert(out@[j]@ == res[j]);
            } else {
                let k = j - h as int;
                assert(out@[h as int + k]@ == res[h as int + k]);
            }
        }
        assert(vals(out@) =~= res);
    }
    out
}

/// The inverse transform: the forward recursion under the inverse root,
/// scaled by the inverse of the length.
pub fn intt(v: &Vec<Goldilocks>, w_inv: Goldilocks, n_inv: Goldilocks) -> (r: Vec<Goldilocks>)
    requires
        w_inv.wf(),
        n_inv.wf(),
        seq_wf(v@),
        pow2_size(v@.len()),
        is_radix2_root(w_inv@, v@.len()),
    ensures
        r@.len() == v@.len(),
        seq_wf(r@),
        vals(r@) == intt_spec(vals(v@), w_inv@, n_inv@),
{
    let u = ntt(v, w_inv);
    let n = u.len();
    let mut out: Vec<Goldilocks> = Vec::new();
    let mut i: usize = 0;
    while i < n
        invariant
            i <= n,
            n == u@.len(),
            seq_wf(u@),
            n_inv.wf(),
            out@.len() == i,
            forall|j: int| 0 <= j < i as int ==> (#[trigger] out@[j]).wf(),
            forall|j: int|
                0 <= j < i as int ==> (#[trigger] out@[j])@ == fmul(n_inv@, vals(u@)[j]),
        decreases n - i,
    {
        let c = n_inv.mul(u[i]);
        proof {
            assert(vals(u@)[i as int] == u@[i as int]@);
        }
        out.push(c);
        i = i + 1;
    }
    proof {
        assert(vals(out@) =~= scale_spec(vals(u@), n_inv@));
    }
    out
}

} // verus!
