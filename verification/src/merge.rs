//! The DEEP-ALI merge: four evaluation vectors over a radix-2 domain
//! become one low-rate codeword through an out-of-domain quotient.
//!
//! The constraint combination is Phi(w^j) = a_j * s_j + e_j - t_j (plus an
//! optional blinding term), the barycentric sum evaluates Phi at the
//! out-of-domain point z over the product ring, the codeword is the
//! quotient Phi(w^j) / (w^j - z) projected to the base field, and the rate
//! is enforced by interpolating, truncating to degree n/32 - 1, and
//! re-evaluating.

use vstd::prelude::*;
use crate::field::{
    fadd, fsub, fmul, finv, fpow, field_p, inv_ok, lemma_fsub_zero_symmetric, seq_wf, vals,
    Goldilocks,
};
use crate::fp3::Fp3;
use crate::ntt::{intt, intt_spec, is_radix2_root, ntt, ntt_spec, pow2_size, radix2_root_inverse};

verus! {

/// The failures the core surfaces.
#[derive(Clone, Copy, Debug, PartialEq, Eq, Structural)]
pub enum ProtocolError {
    /// An invalid schedule, query count or domain size.
    ConfigError,
    /// A sampled out-of-domain point collides with the domain.
    DomainCollision,
    /// An inversion failed: a domain collision or a malformed input.
    ArithmeticError,
}

/// The successive powers of a domain generator.
pub open spec fn omega_pows_spec(w: int, n: nat) -> Seq<int> {
    Seq::new(n, |j: int| fpow(w, j as nat))
}

/// The combined constraint value at each domain point.
pub open spec fn phi_spec(a: Seq<int>, s: Seq<int>, e: Seq<int>, t: Seq<int>) -> Seq<int> {
    Seq::new(a.len(), |i: int| fsub(fadd(fmul(a[i], s[i]), e[i]), t[i]))
}

/// The blinded combination: the plain one plus beta times the mask.
pub open spec fn phi_blinded_spec(
    a: Seq<int>,
    s: Seq<int>,
    e: Seq<int>,
    t: Seq<int>,
    r: Seq<int>,
    beta: int,
) -> Seq<int> {
    Seq::new(a.len(), |i: int| fadd(fsub(fadd(fmul(a[i], s[i]), e[i]), t[i]), fmul(beta, r[i])))
}

/// The partial barycentric sum over one coordinate of the ring:
/// sum over j < k of phi_j * w^j / (zk - w^j).
pub open spec fn bary_partial(phi: Seq<int>, pows: Seq<int>, zk: int, k: nat) -> int
    decreases k,
{
    if k == 0 {
        0
    } else {
        fadd(
            bary_partial(phi, pows, zk, (k - 1) as nat),
            fmul(fmul(phi[k - 1], pows[k - 1]), finv(fsub(zk, pows[k - 1]))),
        )
    }
}

/// The raw quotient codeword over one coordinate:
/// phi_j / (w^j - zk) at every domain point.
pub open spec fn quotient_spec(phi: Seq<int>, pows: Seq<int>, zk: int) -> Seq<int> {
    Seq::new(phi.len(), |j: int| fmul(phi[j], finv(fsub(pows[j], zk))))
}

/// The first d entries followed by zeros, up to length n: the coefficient
/// vector truncated to degree d - 1.
pub open spec fn truncate_spec(c: Seq<int>, d: int, n: int) -> Seq<int> {
    Seq::new(n as nat, |i: int| if i < d { c[i] } else { 0int })
}

/// The rate-enforced codeword: interpolate, truncate to n/32 coefficients,
/// re-evaluate.
pub open spec fn rate_enforced_spec(f: Seq<int>, w: int, w_inv: int, n_inv: int) -> Seq<int> {
    ntt_spec(
        truncate_spec(intt_spec(f, w_inv, n_inv), f.len() as int / 32, f.len() as int),
        w,
    )
}

/// Every inversion the merge performs passes the run-time Fermat check:
/// the domain size, and each coordinate of each off-domain denominator,
/// in both orientations.  On these inputs the merge is owed success.
pub open spec fn merge_denoms_invertible(z: Fp3, pows: Seq<int>, n: nat) -> bool {
    &&& inv_ok((n as int) % field_p())
    &&& forall|j: int|
        0 <= j < pows.len() ==> {
            &&& inv_ok(fsub(z.a0@, #[trigger] pows[j]))
            &&& inv_ok(fsub(z.a1@, pows[j]))
            &&& inv_ok(fsub(z.a2@, pows[j]))
            &&& inv_ok(fsub(pows[j], z.a0@))
            &&& inv_ok(fsub(pows[j], z.a1@))
            &&& inv_ok(fsub(pows[j], z.a2@))
        }
}

/// Every nonzero merge denominator passes the run-time inversion check,
/// coordinate by coordinate and in both orientations: under this and an
/// invertible size, a collision with the domain is reported as such.
pub open spec fn nonzero_denoms_invertible(z: Fp3, pows: Seq<int>) -> bool {
    forall|j: int|
        0 <= j < pows.len() ==> {
            &&& (fsub(z.a0@, #[trigger] pows[j]) != 0 ==> inv_ok(fsub(z.a0@, pows[j])))
            &&& (fsub(z.a1@, pows[j]) != 0 ==> inv_ok(fsub(z.a1@, pows[j])))
            &&& (fsub(z.a2@, pows[j]) != 0 ==> inv_ok(fsub(z.a2@, pows[j])))
            &&& (fsub(pows[j], z.a0@) != 0 ==> inv_ok(fsub(pows[j], z.a0@)))
            &&& (fsub(pows[j], z.a1@) != 0 ==> inv_ok(fsub(pows[j], z.a1@)))
            &&& (fsub(pows[j], z.a2@) != 0 ==> inv_ok(fsub(pows[j], z.a2@)))
        }
}

/// No coordinate of z lies on the domain: every denominator is nonzero.
pub open spec fn z_off_domain(z: Fp3, pows: Seq<int>) -> bool {
    forall|j: int|
        0 <= j < pows.len() ==> fsub(z.a0@, #[trigger] pows[j]) != 0 && fsub(z.a1@, pows[j]) != 0
            && fsub(z.a2@, pows[j]) != 0
}

/// Merges the four evaluation vectors into the base codeword, with an
/// optional blinding mask.  The returned triple holds the rate-enforced
/// codeword, the challenge it answered, and the recorded constant c*.
#[verifier::rlimit(30)]
pub fn deep_ali_merge_evals_blinded(
    a_eval: &Vec<Goldilocks>,
    s_eval: &Vec<Goldilocks>,
    e_eval: &Vec<Goldilocks>,
    t_eval: &Vec<Goldilocks>,
    r_eval_opt: Option<&Vec<Goldilocks>>,
    beta: Goldilocks,
    omega: Goldilocks,
    z_fp3: Fp3,
) -> (r: Result<(Vec<Goldilocks>, Fp3, Goldilocks), ProtocolError>)
    requires
        seq_wf(a_eval@),
        seq_wf(s_eval@),
        seq_wf(e_eval@),
        seq_wf(t_eval@),
        s_eval@.len() == a_eval@.len(),
        e_eval@.len() == a_eval@.len(),
        t_eval@.len() == a_eval@.len(),
        r_eval_opt matches Some(rv) ==> rv@.len() == a_eval@.len() && seq_wf(rv@),
        beta.wf(),
        omega.wf(),
        z_fp3.wf(),
        a_eval@.len() > 1,
        a_eval@.len() <= 0x1_0000_0000,
        a_eval@.len() % 32 == 0,
        pow2_size(a_eval@.len()),
        is_radix2_root(omega@, a_eval@.len()),
    ensures
        ({
            let n = a_eval@.len();
            let pows = omega_pows_spec(omega@, n);
            let phi = match r_eval_opt {
                Some(rv) => phi_blinded_spec(
                    vals(a_eval@),
                    vals(s_eval@),
                    vals(e_eval@),
                    vals(t_eval@),
                    vals(rv@),
                    beta@,
                ),
                None => phi_spec(vals(a_eval@), vals(s_eval@), vals(e_eval@), vals(t_eval@)),
            };
            &&& (r matches Ok(out) ==> {
                &&& out.1 == z_fp3
                &&& z_off_domain(z_fp3, pows)
                &&& out.2.wf()
                &&& out.2@ == fmul(
                    finv((n as int) % field_p()),
                    bary_partial(phi, pows, z_fp3.a0@, n),
                )
                &&& out.0@.len() == n
                &&& seq_wf(out.0@)
                &&& vals(out.0@) == rate_enforced_spec(
                    quotient_spec(phi, pows, z_fp3.a0@),
                    omega@,
                    fpow(omega@, (n - 1) as nat),
                    finv((n as int) % field_p()),
                )
            })
            &&& (!z_off_domain(z_fp3, pows) ==> r is Err)
            &&& (merge_denoms_invertible(z_fp3, pows, n) ==> r is Ok)
            &&& (r matches Err(e) ==> {
                &&& (e == ProtocolError::DomainCollision ==> !z_off_domain(z_fp3, pows))
                &&& (e == ProtocolError::DomainCollision || e == ProtocolError::ArithmeticError)
            })
            &&& ((!z_off_domain(z_fp3, pows) && inv_ok((n as int) % field_p())
                && nonzero_denoms_invertible(z_fp3, pows)) ==> (r matches Err(e) && e
                == ProtocolError::DomainCollision))
        }),
{
    let n = a_eval.len();
    let ghost pows_s = omega_pows_spec(omega@, n as nat);

    // powers of the generator
    let mut pows: Vec<Goldilocks> = Vec::new();
    let mut x = Goldilocks::one();
    proof {
        vstd::arithmetic::power::lemma_pow0(omega@);
        vstd::arithmetic::div_mod::lemma_small_mod(1nat, crate::field::MODULUS as nat);
    }
    let mut j: usize = 0;
    while j < n
        invariant
            j <= n,
            omega.wf(),
            x.wf(),
            x@ == fpow(omega@, j as nat),
            pows@.len() == j,
            seq_wf(pows@),
            forall|q: int| 0 <= q < j as int ==> (#[trigger] pows@[q])@ == fpow(omega@, q as nat),
        decreases n - j,
    {
        pows.push(x);
        x = x.mul(omega);
        proof {
            crate::field::lemma_fpow_adds(omega@, j as nat, 1);
            assert(fpow(omega@, 1) == omega@) by {
                vstd::arithmetic::power::lemma_pow1(omega@);
                vstd::arithmetic::div_mod::lemma_small_mod(
                    omega.v as nat,
                    crate::field::MODULUS as nat,
                );
            };
        }
        j = j + 1;
    }
    proof {
        assert(vals(pows@) =~= pows_s);
    }

    // the combined constraint values
    let ghost phi_s = match r_eval_opt {
        Some(rv) => phi_blinded_spec(
            vals(a_eval@),
            vals(s_eval@),
            vals(e_eval@),
            vals(t_eval@),
            vals(rv@),
            beta@,
        ),
        None => phi_spec(vals(a_eval@), vals(s_eval@), vals(e_eval@), vals(t_eval@)),
    };
    let mut phi: Vec<Goldilocks> = Vec::new();
    let mut i: usize = 0;
    while i < n
        invariant
            i <= n,
            n == a_eval@.len(),
            seq_wf(a_eval@),
            seq_wf(s_eval@),
            seq_wf(e_eval@),
            seq_wf(t_eval@),
            s_eval@.len() == n,
            e_eval@.len() == n,
            t_eval@.len() == n,
            r_eval_opt matches Some(rv) ==> rv@.len() == n && seq_wf(rv@),
            beta.wf(),
            phi_s == match r_eval_opt {
                Some(rv) => phi_blinded_spec(
                    vals(a_eval@),
                    vals(s_eval@),
                    vals(e_eval@),
                    vals(t_eval@),
                    vals(rv@),
                    beta@,
                ),
                None => phi_spec(vals(a_eval@), vals(s_eval@), vals(e_eval@), vals(t_eval@)),
            },
            phi@.len() == i,
            seq_wf(phi@),
            forall|q: int| 0 <= q < i as int ==> (#[trigger] phi@[q])@ == phi_s[q],
        decreases n - i,
    {
        let base = a_eval[i].mul(s_eval[i]).add(e_eval[i]).sub(t_eval[i]);
        let v = match r_eval_opt {
            Some(rv) => base.add(beta.mul(rv[i])),
            None => base,
        };
        phi.push(v);
        i = i + 1;
    }

    // n is invertible: it is a power of two below p
    let n_inv = match Goldilocks::from_u64(n as u64).inv() {
        Some(v) => v,
        None => {
            proof {
                assert(!inv_ok((n as int) % field_p()));
            }
            return Err(ProtocolError::ArithmeticError);
        },
    };

    // barycentric sum over the product ring
    let mut bary = Fp3::zero();
    let mut j: usize = 0;
    while j < n
        invariant
            j <= n,
            n == phi@.len(),
            n == pows@.len(),
            seq_wf(phi@),
            seq_wf(pows@),
            z_fp3.wf(),
            n == a_eval@.len(),
            pows_s == omega_pows_spec(omega@, a_eval@.len()),
            vals(phi@) == phi_s,
            vals(pows@) == pows_s,
            bary.wf(),
            bary.a0@ == bary_partial(phi_s, pows_s, z_fp3.a0@, j as nat),
            forall|q: int|
                0 <= q < j as int ==> fsub(z_fp3.a0@, #[trigger] pows_s[q]) != 0 && fsub(
                    z_fp3.a1@,
                    pows_s[q],
                ) != 0 && fsub(z_fp3.a2@, pows_s[q]) != 0,
        decreases n - j,
    {
        let wj = Fp3::from_base(pows[j]);
        let denom = z_fp3.sub(wj);
        let inv = match denom.inv() {
            Some(v) => v,
            None => {
                proof {
                    assert(denom.a0@ == fsub(z_fp3.a0@, pows_s[j as int]));
                    assert(denom.a1@ == fsub(z_fp3.a1@, pows_s[j as int]));
                    assert(denom.a2@ == fsub(z_fp3.a2@, pows_s[j as int]));
                    if merge_denoms_invertible(z_fp3, pows_s, n as nat) {
                        assert(inv_ok(fsub(z_fp3.a0@, pows_s[j as int])));
                        assert(inv_ok(fsub(z_fp3.a1@, pows_s[j as int])));
                        assert(inv_ok(fsub(z_fp3.a2@, pows_s[j as int])));
                        assert(false);
                    }
                }
                if denom.a0.is_zero() || denom.a1.is_zero() || denom.a2.is_zero() {
                    proof {
                        if z_off_domain(z_fp3, pows_s) {
                            assert(fsub(z_fp3.a0@, pows_s[j as int]) != 0 && fsub(
                                z_fp3.a1@,
                                pows_s[j as int],
                            ) != 0 && fsub(z_fp3.a2@, pows_s[j as int]) != 0);
                            assert(false);
                        }
                    }
                    return Err(ProtocolError::DomainCollision);
                }
                proof {
                    if nonzero_denoms_invertible(z_fp3, pows_s) {
                        assert(fsub(z_fp3.a0@, pows_s[j as int]) != 0 ==> inv_ok(
                            fsub(z_fp3.a0@, pows_s[j as int]),
                        ));
                        assert(fsub(z_fp3.a1@, pows_s[j as int]) != 0 ==> inv_ok(
                            fsub(z_fp3.a1@, pows_s[j as int]),
                        ));
                        assert(fsub(z_fp3.a2@, pows_s[j as int]) != 0 ==> inv_ok(
                            fsub(z_fp3.a2@, pows_s[j as int]),
                        ));
                        assert(false);
                    }
                }
                return Err(ProtocolError::ArithmeticError);
            },
        };
        let term = Fp3::from_base(phi[j]).mul(wj).mul(inv);
        bary = bary.add(term);
        j = j + 1;
    }
    let c_star = n_inv.mul(bary.a0);
    proof {
        assert(z_off_domain(z_fp3, pows_s));
    }

    // the raw quotient codeword
    let ghost q_s = quotient_spec(phi_s, pows_s, z_fp3.a0@);
    let mut f0: Vec<Goldilocks> = Vec::new();
    let mut j: usize = 0;
    while j < n
        invariant
            j <= n,
            n == phi@.len(),
            n == pows@.len(),
            seq_wf(phi@),
            seq_wf(pows@),
            z_fp3.wf(),
            n == a_eval@.len(),
            pows_s == omega_pows_spec(omega@, a_eval@.len()),
            vals(phi@) == phi_s,
            vals(pows@) == pows_s,
            z_off_domain(z_fp3, pows_s),
            q_s == quotient_spec(phi_s, pows_s, z_fp3.a0@),
            f0@.len() == j,
            seq_wf(f0@),
            forall|q: int| 0 <= q < j as int ==> (#[trigger] f0@[q])@ == q_s[q],
        decreases n - j,
    {
        let wj = Fp3::from_base(pows[j]);
        let denom = wj.sub(z_fp3);
        let inv = match denom.inv() {
            Some(v) => v,
            None => {
                proof {
                    assert(denom.a0@ == fsub(pows_s[j as int], z_fp3.a0@));
                    assert(denom.a1@ == fsub(pows_s[j as int], z_fp3.a1@));
                    assert(denom.a2@ == fsub(pows_s[j as int], z_fp3.a2@));
                    if merge_denoms_invertible(z_fp3, pows_s, n as nat) {
                        assert(inv_ok(fsub(pows_s[j as int], z_fp3.a0@)));
                        assert(inv_ok(fsub(pows_s[j as int], z_fp3.a1@)));
                        assert(inv_ok(fsub(pows_s[j as int], z_fp3.a2@)));
                        assert(false);
                    }
                }
                if denom.a0.is_zero() || denom.a1.is_zero() || denom.a2.is_zero() {
                    proof {
                        assert(pows@[j as int].wf());
                        assert(pows_s[j as int] == pows@[j as int]@);
                        lemma_fsub_zero_symmetric(z_fp3.a0@, pows_s[j as int]);
                        lemma_fsub_zero_symmetric(z_fp3.a1@, pows_s[j as int]);
                        lemma_fsub_zero_symmetric(z_fp3.a2@, pows_s[j as int]);
                        if z_off_domain(z_fp3, pows_s) {
                            assert(fsub(z_fp3.a0@, pows_s[j as int]) != 0 && fsub(
                                z_fp3.a1@,
                                pows_s[j as int],
                            ) != 0 && fsub(z_fp3.a2@, pows_s[j as int]) != 0);
                            assert(false);
                        }
                    }
                    return Err(ProtocolError::DomainCollision);
                }
                return Err(ProtocolError::ArithmeticError);
            },
        };
        let v = Fp3::from_base(phi[j]).mul(inv);
        f0.push(v.a0);
        j = j + 1;
    }

    proof {
        assert(vals(f0@) =~= q_s);
    }
    // rate enforcement: interpolate, truncate to n/32, re-evaluate
    let w_inv = radix2_root_inverse(omega, n as u64);
    let coeffs = intt(&f0, w_inv, n_inv);
    let d0 = n / 32;
    let mut trunc: Vec<Goldilocks> = Vec::new();
    let mut i: usize = 0;
    while i < n
        invariant
            i <= n,
            n == coeffs@.len(),
            seq_wf(coeffs@),
            d0 == n / 32,
            trunc@.len() == i,
            seq_wf(trunc@),
            forall|q: int|
                0 <= q < i as int ==> (#[trigger] trunc@[q])@ == (if q < d0 as int {
                    vals(coeffs@)[q]
                } else {
                    0int
                }),
        decreases n - i,
    {
        if i < d0 {
            let c = coeffs[i];
            trunc.push(c);
        } else {
            trunc.push(Goldilocks::zero());
        }
        i = i + 1;
    }
    proof {
        assert(vals(trunc@) =~= truncate_spec(vals(coeffs@), n as int / 32, n as int));
    }
    let f0_low = ntt(&trunc, omega);
    proof {
        assert(fsub(z_fp3.a0@, pows_s[0]) != 0);
    }
    Ok((f0_low, z_fp3, c_star))
}

/// Merges the four evaluation vectors into the base codeword.
pub fn deep_ali_merge_evals(
    a_eval: &Vec<Goldilocks>,
    s_eval: &Vec<Goldilocks>,
    e_eval: &Vec<Goldilocks>,
    t_eval: &Vec<Goldilocks>,
    omega: Goldilocks,
    z_fp3: Fp3,
) -> (r: Result<(Vec<Goldilocks>, Fp3, Goldilocks), ProtocolError>)
    requires
        seq_wf(a_eval@),
        seq_wf(s_eval@),
        seq_wf(e_eval@),
        seq_wf(t_eval@),
        s_eval@.len() == a_eval@.len(),
        e_eval@.len() == a_eval@.len(),
        t_eval@.len() == a_eval@.len(),
        omega.wf(),
        z_fp3.wf(),
        a_eval@.len() > 1,
        a_eval@.len() <= 0x1_0000_0000,
        a_eval@.len() % 32 == 0,
        pow2_size(a_eval@.len()),
        is_radix2_root(omega@, a_eval@.len()),
    ensures
        ({
            let n = a_eval@.len();
            let pows = omega_pows_spec(omega@, n);
            let phi = phi_spec(vals(a_eval@), vals(s_eval@), vals(e_eval@), vals(t_eval@));
            &&& (r matches Ok(out) ==> {
                &&& out.1 == z_fp3
                &&& z_off_domain(z_fp3, pows)
                &&& out.2.wf()
                &&& out.2@ == fmul(
                    finv((n as int) % field_p()),
                    bary_partial(phi, pows, z_fp3.a0@, n),
                )
                &&& out.0@.len() == n
                &&& seq_wf(out.0@)
                &&& vals(out.0@) == rate_enforced_spec(
                    quotient_spec(phi, pows, z_fp3.a0@),
                    omega@,
                    fpow(omega@, (n - 1) as nat),
                    finv((n as int) % field_p()),
                )
            })
            &&& (!z_off_domain(z_fp3, pows) ==> r is Err)
            &&& (merge_denoms_invertible(z_fp3, pows, n) ==> r is Ok)
            &&& (r matches Err(e) ==> {
                &&& (e == ProtocolError::DomainCollision ==> !z_off_domain(z_fp3, pows))
                &&& (e == ProtocolError::DomainCollision || e == ProtocolError::ArithmeticError)
            })
            &&& ((!z_off_domain(z_fp3, pows) && inv_ok((n as int) % field_p())
                && nonzero_denoms_invertible(z_fp3, pows)) ==> (r matches Err(e) && e
                == ProtocolError::DomainCollision))
        }),
{
    deep_ali_merge_evals_blinded(
        a_eval,
        s_eval,
        e_eval,
        t_eval,
        None,
        Goldilocks::zero(),
        omega,
        z_fp3,
    )
}

/// Whether z lies in the subgroup of order n: z^n = 1.
pub fn is_in_domain(z: Goldilocks, n: u64) -> (r: bool)
    requires
        z.wf(),
    ensures
        r <==> fpow(z@, n as nat) == 1,
{
    let p = z.pow(n);
    p.to_u64() == 1
}

/// The vanishing polynomial of the subgroup of order n at z: z^n - 1.
pub fn zh_at(z: Goldilocks, n: u64) -> (r: Goldilocks)
    requires
        z.wf(),
    ensures
        r.wf(),
        r@ == fsub(fpow(z@, n as nat), 1),
{
    let p = z.pow(n);
    p.sub(Goldilocks::one())
}

/// Builds the successive powers of a generator.
pub fn build_omega_pows(omega: Goldilocks, n: usize) -> (r: Vec<Goldilocks>)
    requires
        omega.wf(),
    ensures
        r@.len() == n,
        seq_wf(r@),
        vals(r@) == omega_pows_spec(omega@, n as nat),
{
    let mut pows: Vec<Goldilocks> = Vec::new();
    let mut x = Goldilocks::one();
    proof {
        vstd::arithmetic::power::lemma_pow0(omega@);
        vstd::arithmetic::div_mod::lemma_small_mod(1nat, crate::field::MODULUS as nat);
    }
    let mut j: usize = 0;
    while j < n
        invariant
            j <= n,
            omega.wf(),
            x.wf(),
            x@ == fpow(omega@, j as nat),
            pows@.len() == j,
            seq_wf(pows@),
            forall|q: int| 0 <= q < j as int ==> (#[trigger] pows@[q])@ == fpow(omega@, q as nat),
        decreases n - j,
    {
        pows.push(x);
        x = x.mul(omega);
        proof {
            crate::field::lemma_fpow_adds(omega@, j as nat, 1);
            assert(fpow(omega@, 1) == omega@) by {
                vstd::arithmetic::power::lemma_pow1(omega@);
                vstd::arithmetic::div_mod::lemma_small_mod(
                    omega.v as nat,
                    crate::field::MODULUS as nat,
                );
            };
        }
        j = j + 1;
    }
    proof {
        assert(vals(pows@) =~= omega_pows_spec(omega@, n as nat));
    }
    pows
}

} // verus!
