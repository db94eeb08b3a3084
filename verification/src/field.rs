//! The Goldilocks prime field: arithmetic modulo p = 2^64 - 2^32 + 1.
//!
//! A field element is an equivalence class modulo p, held as its canonical
//! representative in [0, p).  The modulus has two-adicity 32, so the group
//! of units contains a cyclic subgroup of order 2^32 generated by a fixed
//! primitive root of unity; subgroup generators of order 2^k are obtained
//! as powers of that root.

use vstd::prelude::*;
use vstd::arithmetic::power::{
    pow, lemma_pow0, lemma_pow1, lemma_pow_adds, lemma_pow_multiplies, lemma_pow_mod_noop,
};
use vstd::arithmetic::power2::{pow2, lemma2_to64, lemma_pow2_adds};
use vstd::arithmetic::div_mod::{
    lemma_add_mod_noop, lemma_add_mod_noop_right, lemma_mod_bound, lemma_mul_mod_noop,
    lemma_mul_mod_noop_right, lemma_small_mod, lemma_mod_twice,
};
use vstd::arithmetic::mul::{lemma_mul_is_associative, lemma_mul_is_distributive_add};

verus! {

/// Prime modulus p = 2^64 - 2^32 + 1.
pub const MODULUS: u64 = 18446744069414584321;

/// Two-adicity of p - 1: the largest k with 2^k dividing p - 1.
pub const TWO_ADICITY: u32 = 32;

/// Odd part of p - 1, that is (p - 1) / 2^32.
pub const T: u64 = 4294967295;

/// A multiplicative generator of the full group of units.
pub const GENERATOR: u64 = 7;

/// Canonical value of the primitive 2^32-th root of unity, GENERATOR^T mod p.
pub const TWO_ADIC_ROOT_OF_UNITY_NATIVE_VALUE: u64 = 1753635133440165772;

/// (p - 1) / 2, the exponent of the Euler criterion.
pub const MODULUS_MINUS_ONE_DIV_TWO: u64 = 9223372034707292160;

/// (T - 1) / 2, used by the Tonelli-Shanks square root.
pub const T_MINUS_ONE_DIV_TWO: u64 = 2147483647;

/// Marker type carrying the compile-time parameters of the field.
pub struct GoldilocksConfig;

/// The modulus as a mathematical integer.
pub open spec fn field_p() -> int {
    MODULUS as int
}

/// Addition of canonical representatives.
pub open spec fn fadd(a: int, b: int) -> int {
    (a + b) % field_p()
}

/// Subtraction of canonical representatives.
pub open spec fn fsub(a: int, b: int) -> int {
    (a - b) % field_p()
}

/// Multiplication of canonical representatives.
pub open spec fn fmul(a: int, b: int) -> int {
    (a * b) % field_p()
}

/// Negation of a canonical representative.
pub open spec fn fneg(a: int) -> int {
    (0 - a) % field_p()
}

/// Exponentiation of a canonical representative.
pub open spec fn fpow(a: int, e: nat) -> int {
    pow(a, e) % field_p()
}

/// The inverse of a unit, defined through the Fermat exponent p - 2.
pub open spec fn finv(a: int) -> int {
    fpow(a, (MODULUS - 2) as nat)
}

/// The run-time check behind every inversion: the residue is nonzero and
/// its Fermat-exponent product comes out one.  `inv` succeeds exactly on
/// residues with this property.
pub open spec fn inv_ok(a: int) -> bool {
    a != 0 && fmul(finv(a), a) == 1
}

/// For canonical residues the difference vanishes in one orientation
/// exactly when it vanishes in the other, and exactly on equal arguments.
pub proof fn lemma_fsub_zero_symmetric(a: int, b: int)
    requires
        0 <= a < field_p(),
        0 <= b < field_p(),
    ensures
        (fsub(a, b) == 0) <==> (a == b),
        (fsub(b, a) == 0) <==> (a == b),
{
    let p = field_p();
    if a == b {
        lemma_small_mod(0nat, p as nat);
    } else if a > b {
        lemma_small_mod((a - b) as nat, p as nat);
        vstd::arithmetic::div_mod::lemma_mod_multiples_vanish(1, b - a, p);
        lemma_small_mod((b - a + p) as nat, p as nat);
    } else {
        lemma_small_mod((b - a) as nat, p as nat);
        vstd::arithmetic::div_mod::lemma_mod_multiples_vanish(1, a - b, p);
        lemma_small_mod((a - b + p) as nat, p as nat);
    }
}

/// A field element in canonical form.
#[derive(Clone, Copy, PartialEq, Eq, Structural, Debug)]
pub struct Goldilocks {
    pub v: u64,
}

/// The canonical element a machine word reduces to.
pub open spec fn from_u64_spec(x: u64) -> Goldilocks {
    if x >= MODULUS {
        Goldilocks { v: (x - MODULUS) as u64 }
    } else {
        Goldilocks { v: x }
    }
}

/// The reduced word is canonical and carries the word's residue.
pub proof fn lemma_from_u64_spec(x: u64)
    ensures
        from_u64_spec(x).wf(),
        from_u64_spec(x)@ == (x as int) % field_p(),
{
    if x >= MODULUS {
        assert((x as int) % field_p() == (x - MODULUS) as int % field_p()) by {
            lemma_add_mod_noop_right((x - MODULUS) as int, field_p(), field_p());
            lemma_small_mod(0nat, MODULUS as nat);
        };
        lemma_small_mod((x - MODULUS) as nat, MODULUS as nat);
    } else {
        lemma_small_mod(x as nat, MODULUS as nat);
    }
}

/// The canonical values of a sequence of field elements.
pub open spec fn vals(s: Seq<Goldilocks>) -> Seq<int> {
    s.map_values(|x: Goldilocks| x@)
}

/// Every element of the sequence is in canonical form.
pub open spec fn seq_wf(s: Seq<Goldilocks>) -> bool {
    forall|i: int| 0 <= i < s.len() ==> (#[trigger] s[i]).wf()
}

impl View for Goldilocks {
    type V = int;

    open spec fn view(&self) -> int {
        self.v as int
    }
}

impl Goldilocks {
    /// The canonical-form invariant: the representative lies in [0, p).
    pub open spec fn wf(self) -> bool {
        self.v < MODULUS
    }

    /// The additive identity.
    pub fn zero() -> (r: Self)
        ensures
            r.wf(),
            r@ == 0,
    {
        Goldilocks { v: 0 }
    }

    /// The multiplicative identity.
    pub fn one() -> (r: Self)
        ensures
            r.wf(),
            r@ == 1,
    {
        Goldilocks { v: 1 }
    }

    /// Embeds a machine word, reducing it modulo p.
    pub fn from_u64(x: u64) -> (r: Self)
        ensures
            r.wf(),
            r@ == (x as int) % field_p(),
            r == from_u64_spec(x),
    {
        if x >= MODULUS {
            proof {
                assert((x as int) % field_p() == (x - MODULUS) as int % field_p()) by {
                    lemma_add_mod_noop_right((x - MODULUS) as int, field_p(), field_p());
                    lemma_small_mod(0nat, MODULUS as nat);
                };
                lemma_small_mod((x - MODULUS) as nat, MODULUS as nat);
            }
            Goldilocks { v: x - MODULUS }
        } else {
            proof {
                lemma_small_mod(x as nat, MODULUS as nat);
            }
            Goldilocks { v: x }
        }
    }

    /// The canonical representative as a machine word.
    pub fn to_u64(self) -> (r: u64)
        ensures
            r as int == self@,
    {
        self.v
    }

    /// Whether the representative is canonical, below the modulus.
    pub fn is_canonical(self) -> (r: bool)
        ensures
            r == self.wf(),
    {
        self.v < MODULUS
    }

    /// Tests for the additive identity.
    pub fn is_zero(self) -> (r: bool)
        ensures
            r <==> self@ == 0,
    {
        self.v == 0
    }

    /// Field addition.
    pub fn add(self, other: Self) -> (r: Self)
        requires
            self.wf(),
            other.wf(),
        ensures
            r.wf(),
            r@ == fadd(self@, other@),
    {
        let s: u128 = self.v as u128 + other.v as u128;
        let m: u128 = MODULUS as u128;
        let r: u64 = (s % m) as u64;
        proof {
            lemma_mod_bound(s as int, m as int);
        }
        Goldilocks { v: r }
    }

    /// Field subtraction.
    pub fn sub(self, other: Self) -> (r: Self)
        requires
            self.wf(),
            other.wf(),
        ensures
            r.wf(),
            r@ == fsub(self@, other@),
    {
        let s: u128 = self.v as u128 + MODULUS as u128 - other.v as u128;
        let m: u128 = MODULUS as u128;
        let r: u64 = (s % m) as u64;
        proof {
            lemma_mod_bound(s as int, m as int);
            assert((self@ - other@ + field_p()) % field_p() == (self@ - other@) % field_p()) by {
                lemma_add_mod_noop_right(self@ - other@, field_p(), field_p());
                lemma_small_mod(0nat, MODULUS as nat);
            };
        }
        Goldilocks { v: r }
    }

    /// Field negation.
    pub fn neg(self) -> (r: Self)
        requires
            self.wf(),
        ensures
            r.wf(),
            r@ == fneg(self@),
    {
        Self::zero().sub(self)
    }

    /// Field multiplication.
    pub fn mul(self, other: Self) -> (r: Self)
        requires
            self.wf(),
            other.wf(),
        ensures
            r.wf(),
            r@ == fmul(self@, other@),
    {
        proof {
            vstd::arithmetic::mul::lemma_mul_upper_bound(
                self.v as int, 0xffff_ffff_ffff_ffff, other.v as int, 0xffff_ffff_ffff_ffff);
        }
        let s: u128 = self.v as u128 * other.v as u128;
        let m: u128 = MODULUS as u128;
        let r: u64 = (s % m) as u64;
        proof {
            lemma_mod_bound(s as int, m as int);
        }
        Goldilocks { v: r }
    }

    /// Field squaring.
    pub fn square(self) -> (r: Self)
        requires
            self.wf(),
        ensures
            r.wf(),
            r@ == fmul(self@, self@),
    {
        self.mul(self)
    }

    /// Exponentiation by square-and-multiply over the exponent's bits.
    pub fn pow(self, e: u64) -> (r: Self)
        requires
            self.wf(),
        ensures
            r.wf(),
            r@ == fpow(self@, e as nat),
    {
        let mut base = self;
        let mut acc = Self::one();
        let mut exp: u64 = e;
        proof {
            lemma_mod_twice(pow(self@, e as nat), field_p());
        }
        while exp > 0
            invariant
                base.wf(),
                acc.wf(),
                fmul(acc@, fpow(base@, exp as nat)) == fpow(self@, e as nat),
            decreases exp,
        {
            let ghost b0: int = base@;
            let ghost a0: int = acc@;
            let ghost e0: nat = exp as nat;
            if exp % 2 == 1 {
                acc = acc.mul(base);
            }
            base = base.mul(base);
            exp = exp / 2;
            proof {
                lemma_step_square_multiply(a0, b0, e0);
            }
        }
        proof {
            lemma_pow0(base@);
            lemma_small_mod(1nat, MODULUS as nat);
            lemma_small_mod(acc.v as nat, MODULUS as nat);
        }
        acc
    }

    /// Multiplicative inverse through the Fermat exponent, with the product
    /// checked at run time; the inverse of zero does not exist.
    pub fn inv(self) -> (r: Option<Self>)
        requires
            self.wf(),
        ensures
            r matches Some(y) ==> y.wf() && y@ == finv(self@) && fmul(y@, self@) == 1,
            r is Some <==> (self@ != 0 && fmul(finv(self@), self@) == 1),
    {
        if self.v == 0 {
            None
        } else {
            let c = self.pow(MODULUS - 2);
            let check = c.mul(self);
            if check.v == 1 {
                Some(c)
            } else {
                None
            }
        }
    }

    /// The Euler criterion: whether the element is a nonzero square.
    pub fn is_quadratic_residue(self) -> (r: bool)
        requires
            self.wf(),
        ensures
            r <==> fpow(self@, MODULUS_MINUS_ONE_DIV_TWO as nat) == 1,
    {
        let c = self.pow(MODULUS_MINUS_ONE_DIV_TWO);
        c.v == 1
    }

    /// A square root by Tonelli-Shanks over the two-adic structure, with
    /// the square checked at run time: a returned root always squares back
    /// to the argument, and zero returns zero.
    pub fn sqrt(self) -> (r: Option<Self>)
        requires
            self.wf(),
        ensures
            r matches Some(y) ==> y.wf() && fmul(y@, y@) == self@,
            self@ == 0 ==> r == Some(Goldilocks { v: 0 }),
    {
        if self.v == 0 {
            proof {
                lemma_small_mod(0nat, MODULUS as nat);
                assert(fmul(0, 0) == 0) by {
                    lemma_small_mod(0nat, MODULUS as nat);
                };
            }
            return Some(Goldilocks { v: 0 });
        }
        let mut c = Goldilocks::two_adic_root_of_unity();
        let mut t = self.pow(T);
        let mut rr = self.pow(2147483648);
        let mut m: u32 = 32;
        loop
            invariant
                self.wf(),
                self.v != 0,
                c.wf(),
                t.wf(),
                rr.wf(),
                m >= 1,
            decreases m,
        {
            if t.v == 1 {
                let check = rr.mul(rr);
                if check.v == self.v {
                    return Some(rr);
                }
                return None;
            }
            // find the least i with t^(2^i) == 1
            let mut i: u32 = 1;
            let mut probe = t.mul(t);
            let mut found: bool = false;
            while i < m
                invariant
                    1 <= i <= m,
                    probe.wf(),
                    t.wf(),
                decreases m - i,
            {
                if probe.v == 1 {
                    found = true;
                    break;
                }
                probe = probe.mul(probe);
                i = i + 1;
            }
            if !found {
                return None;
            }
            if i >= m {
                return None;
            }
            // b = c^(2^(m - i - 1))
            let mut b = c;
            let mut k: u32 = 0;
            while k < m - i - 1
                invariant
                    i < m,
                    b.wf(),
                decreases m - i - 1 - k,
            {
                b = b.mul(b);
                k = k + 1;
            }
            m = i;
            c = b.mul(b);
            t = t.mul(c);
            rr = rr.mul(b);
        }
    }

    /// The fixed multiplicative generator.
    pub fn generator() -> (r: Self)
        ensures
            r.wf(),
            r@ == GENERATOR as int,
    {
        Goldilocks { v: GENERATOR }
    }

    /// The primitive root of unity of order 2^32.
    pub fn two_adic_root_of_unity() -> (r: Self)
        ensures
            r.wf(),
            r@ == TWO_ADIC_ROOT_OF_UNITY_NATIVE_VALUE as int,
    {
        Goldilocks { v: TWO_ADIC_ROOT_OF_UNITY_NATIVE_VALUE }
    }
}

/// One square-and-multiply step preserves the partial-product identity.
proof fn lemma_step_square_multiply(a: int, b: int, e: nat)
    requires
        e > 0,
    ensures
        e % 2 == 1 ==> fmul(fmul(a, b), fpow(fmul(b, b), (e / 2) as nat)) == fmul(a, fpow(b, e)),
        e % 2 == 0 ==> fmul(a, fpow(fmul(b, b), (e / 2) as nat)) == fmul(a, fpow(b, e)),
{
    let p = field_p();
    let h = (e / 2) as nat;
    // pow(b*b, h) == pow(b, 2*h)
    lemma_pow_multiplies(b, 2, h);
    assert(pow(b, 2) == b * b) by {
        lemma_pow1(b);
        lemma_pow_adds(b, 1, 1);
    };
    // fpow(fmul(b,b), h) == pow(b, 2*h) % p
    lemma_pow_mod_noop(b * b, h, p);
    assert(fpow(fmul(b, b), h) == pow(b, 2 * h) % p);
    if e % 2 == 1 {
        // pow(b, e) == pow(b, 2*h) * b
        assert(e == 2 * h + 1);
        lemma_pow_adds(b, (2 * h) as nat, 1);
        lemma_pow1(b);
        // fmul(fmul(a,b), pow(b,2h) % p) == fmul(a, (pow(b,2h) * b) % p)
        assert(((a * b) % p * (pow(b, 2 * h) % p)) % p == ((a * b) * pow(b, 2 * h)) % p) by {
            lemma_mul_mod_noop(a * b, pow(b, 2 * h), p);
        };
        assert((a * (pow(b, 2 * h) * b)) % p == ((a * b) * pow(b, 2 * h)) % p) by {
            lemma_mul_is_associative(a, pow(b, 2 * h), b);
            lemma_mul_is_associative(a, b, pow(b, 2 * h));
            assert(pow(b, 2 * h) * b == b * pow(b, 2 * h));
        };
        assert((a * ((pow(b, 2 * h) * b) % p)) % p == (a * (pow(b, 2 * h) * b)) % p) by {
            lemma_mul_mod_noop_right(a, pow(b, 2 * h) * b, p);
        };
    } else {
        assert(e == 2 * h);
        assert((a * (pow(b, 2 * h) % p)) % p == (a * pow(b, 2 * h)) % p) by {
            lemma_mul_mod_noop_right(a, pow(b, 2 * h), p);
        };
    }
}

/// Addition of residues is associative.
pub proof fn lemma_fadd_associative(x: int, y: int, z: int)
    ensures
        fadd(fadd(x, y), z) == fadd(x, fadd(y, z)),
{
    let p = field_p();
    lemma_add_mod_noop(x + y, z, p);
    lemma_add_mod_noop_right(x + y, z, p);
    lemma_add_mod_noop_right(x, y + z, p);
    lemma_add_mod_noop(x, y + z, p);
    assert(((x + y) % p + z) % p == (x + y + z) % p) by {
        lemma_add_mod_noop((x + y) % p, z, p);
        lemma_mod_twice(x + y, p);
        lemma_add_mod_noop(x + y, z, p);
    };
    assert((x + (y + z) % p) % p == (x + (y + z)) % p) by {
        lemma_add_mod_noop_right(x, y + z, p);
    };
}

/// Addition of residues is commutative.
pub proof fn lemma_fadd_commutative(x: int, y: int)
    ensures
        fadd(x, y) == fadd(y, x),
{
}

/// Multiplication of residues is commutative.
pub proof fn lemma_fmul_commutative(x: int, y: int)
    ensures
        fmul(x, y) == fmul(y, x),
{
}

/// Multiplication of residues is associative.
pub proof fn lemma_fmul_associative(x: int, y: int, z: int)
    ensures
        fmul(fmul(x, y), z) == fmul(x, fmul(y, z)),
{
    let p = field_p();
    assert(((x * y) % p * z) % p == ((x * y) * z) % p) by {
        vstd::arithmetic::div_mod::lemma_mul_mod_noop_left(x * y, z, p);
    };
    assert((x * ((y * z) % p)) % p == (x * (y * z)) % p) by {
        lemma_mul_mod_noop_right(x, y * z, p);
    };
    lemma_mul_is_associative(x, y, z);
}

/// Multiplication distributes over addition of residues.
pub proof fn lemma_fmul_distributive(x: int, y: int, z: int)
    ensures
        fmul(x, fadd(y, z)) == fadd(fmul(x, y), fmul(x, z)),
{
    let p = field_p();
    assert((x * ((y + z) % p)) % p == (x * (y + z)) % p) by {
        lemma_mul_mod_noop_right(x, y + z, p);
    };
    lemma_mul_is_distributive_add(x, y, z);
    assert((x * y + x * z) % p == ((x * y) % p + (x * z) % p) % p) by {
        lemma_add_mod_noop(x * y, x * z, p);
    };
}

/// fpow splits over addition of exponents.
pub proof fn lemma_fpow_adds(b: int, e1: nat, e2: nat)
    ensures
        fmul(fpow(b, e1), fpow(b, e2)) == fpow(b, e1 + e2),
{
    let p = field_p();
    lemma_pow_adds(b, e1, e2);
    lemma_mul_mod_noop(pow(b, e1), pow(b, e2), p);
}

/// Doubling the exponent squares the power.
pub proof fn lemma_fpow_double(b: int, e: nat)
    ensures
        fpow(b, 2 * e) == fmul(fpow(b, e), fpow(b, e)),
{
    lemma_fpow_adds(b, e, e);
}

/// The two-adic root has order exactly 2^32: its 2^31-th power is p - 1
/// and its 2^32-th power is 1.
pub proof fn lemma_two_adic_root_order()
    ensures
        fpow(TWO_ADIC_ROOT_OF_UNITY_NATIVE_VALUE as int, pow2(31)) == (MODULUS - 1) as int,
        fpow(TWO_ADIC_ROOT_OF_UNITY_NATIVE_VALUE as int, pow2(32)) == 1,
{
    lemma_two_adic_root_ladder();
}

/// Thirty-two successive squarings of the two-adic root, on concrete
/// representatives.
#[verifier::rlimit(100)]
proof fn lemma_two_adic_root_ladder()
    ensures
        fpow(TWO_ADIC_ROOT_OF_UNITY_NATIVE_VALUE as int, pow2(31)) == (MODULUS - 1) as int,
        fpow(TWO_ADIC_ROOT_OF_UNITY_NATIVE_VALUE as int, pow2(32)) == 1,
{
    lemma2_to64();
    let r: int = TWO_ADIC_ROOT_OF_UNITY_NATIVE_VALUE as int;
    assert(fpow(r, pow2(0)) == 1753635133440165772int) by {
        lemma_pow1(r);
        lemma_small_mod(1753635133440165772nat, MODULUS as nat);
    };
    assert(fpow(r, pow2(1)) == 4614640910117430873int) by {
        lemma_fpow_double(r, pow2(0));
        lemma_pow2_adds(1, 0);
        assert((1753635133440165772int * 1753635133440165772int) % field_p() == 4614640910117430873int);
    };
    assert(fpow(r, pow2(2)) == 9123114210336311365int) by {
        lemma_fpow_double(r, pow2(1));
        lemma_pow2_adds(1, 1);
        assert((4614640910117430873int * 4614640910117430873int) % field_p() == 9123114210336311365int);
    };
    assert(fpow(r, pow2(3)) == 16116352524544190054int) by {
        lemma_fpow_double(r, pow2(2));
        lemma_pow2_adds(1, 2);
        assert((9123114210336311365int * 9123114210336311365int) % field_p() == 16116352524544190054int);
    };
    assert(fpow(r, pow2(4)) == 6414415596519834757int) by {
        lemma_fpow_double(r, pow2(3));
        lemma_pow2_adds(1, 3);
        assert((16116352524544190054int * 16116352524544190054int) % field_p() == 6414415596519834757int);
    };
    assert(fpow(r, pow2(5)) == 1213594585890690845int) by {
        lemma_fpow_double(r, pow2(4));
        lemma_pow2_adds(1, 4);
        assert((6414415596519834757int * 6414415596519834757int) % field_p() == 1213594585890690845int);
    };
    assert(fpow(r, pow2(6)) == 17096174751763063430int) by {
        lemma_fpow_double(r, pow2(5));
        lemma_pow2_adds(1, 5);
        assert((1213594585890690845int * 1213594585890690845int) % field_p() == 17096174751763063430int);
    };
    assert(fpow(r, pow2(7)) == 5456943929260765144int) by {
        lemma_fpow_double(r, pow2(6));
        lemma_pow2_adds(1, 6);
        assert((17096174751763063430int * 17096174751763063430int) % field_p() == 5456943929260765144int);
    };
    assert(fpow(r, pow2(8)) == 9713644485405565297int) by {
        lemma_fpow_double(r, pow2(7));
        lemma_pow2_adds(1, 7);
        assert((5456943929260765144int * 5456943929260765144int) % field_p() == 9713644485405565297int);
    };
    assert(fpow(r, pow2(9)) == 16905767614792059275int) by {
        lemma_fpow_double(r, pow2(8));
        lemma_pow2_adds(1, 8);
        assert((9713644485405565297int * 9713644485405565297int) % field_p() == 16905767614792059275int);
    };
    assert(fpow(r, pow2(10)) == 5416168637041100469int) by {
        lemma_fpow_double(r, pow2(9));
        lemma_pow2_adds(1, 9);
        assert((16905767614792059275int * 16905767614792059275int) % field_p() == 5416168637041100469int);
    };
    assert(fpow(r, pow2(11)) == 17654865857378133588int) by {
        lemma_fpow_double(r, pow2(10));
        lemma_pow2_adds(1, 10);
        assert((5416168637041100469int * 5416168637041100469int) % field_p() == 17654865857378133588int);
    };
    assert(fpow(r, pow2(12)) == 3511170319078647661int) by {
        lemma_fpow_double(r, pow2(11));
        lemma_pow2_adds(1, 11);
        assert((17654865857378133588int * 17654865857378133588int) % field_p() == 3511170319078647661int);
    };
    assert(fpow(r, pow2(13)) == 18146160046829613826int) by {
        lemma_fpow_double(r, pow2(12));
        lemma_pow2_adds(1, 12);
        assert((3511170319078647661int * 3511170319078647661int) % field_p() == 18146160046829613826int);
    };
    assert(fpow(r, pow2(14)) == 9306717745644682924int) by {
        lemma_fpow_double(r, pow2(13));
        lemma_pow2_adds(1, 13);
        assert((18146160046829613826int * 18146160046829613826int) % field_p() == 9306717745644682924int);
    };
    assert(fpow(r, pow2(15)) == 12380578893860276750int) by {
        lemma_fpow_double(r, pow2(14));
        lemma_pow2_adds(1, 14);
        assert((9306717745644682924int * 9306717745644682924int) % field_p() == 12380578893860276750int);
    };
    assert(fpow(r, pow2(16)) == 6115771955107415310int) by {
        lemma_fpow_double(r, pow2(15));
        lemma_pow2_adds(1, 15);
        assert((12380578893860276750int * 12380578893860276750int) % field_p() == 6115771955107415310int);
    };
    assert(fpow(r, pow2(17)) == 17776499369601055404int) by {
        lemma_fpow_double(r, pow2(16));
        lemma_pow2_adds(1, 16);
        assert((6115771955107415310int * 6115771955107415310int) % field_p() == 17776499369601055404int);
    };
    assert(fpow(r, pow2(18)) == 16207902636198568418int) by {
        lemma_fpow_double(r, pow2(17));
        lemma_pow2_adds(1, 17);
        assert((17776499369601055404int * 17776499369601055404int) % field_p() == 16207902636198568418int);
    };
    assert(fpow(r, pow2(19)) == 1532612707718625687int) by {
        lemma_fpow_double(r, pow2(18));
        lemma_pow2_adds(1, 18);
        assert((16207902636198568418int * 16207902636198568418int) % field_p() == 1532612707718625687int);
    };
    assert(fpow(r, pow2(20)) == 17492915097719143606int) by {
        lemma_fpow_double(r, pow2(19));
        lemma_pow2_adds(1, 19);
        assert((1532612707718625687int * 1532612707718625687int) % field_p() == 17492915097719143606int);
    };
    assert(fpow(r, pow2(21)) == 455906449640507599int) by {
        lemma_fpow_double(r, pow2(20));
        lemma_pow2_adds(1, 20);
        assert((17492915097719143606int * 17492915097719143606int) % field_p() == 455906449640507599int);
    };
    assert(fpow(r, pow2(22)) == 11353340290879379826int) by {
        lemma_fpow_double(r, pow2(21));
        lemma_pow2_adds(1, 21);
        assert((455906449640507599int * 455906449640507599int) % field_p() == 11353340290879379826int);
    };
    assert(fpow(r, pow2(23)) == 1803076106186727246int) by {
        lemma_fpow_double(r, pow2(22));
        lemma_pow2_adds(1, 22);
        assert((11353340290879379826int * 11353340290879379826int) % field_p() == 1803076106186727246int);
    };
    assert(fpow(r, pow2(24)) == 13797081185216407910int) by {
        lemma_fpow_double(r, pow2(23));
        lemma_pow2_adds(1, 23);
        assert((1803076106186727246int * 1803076106186727246int) % field_p() == 13797081185216407910int);
    };
    assert(fpow(r, pow2(25)) == 17870292113338400769int) by {
        lemma_fpow_double(r, pow2(24));
        lemma_pow2_adds(1, 24);
        assert((13797081185216407910int * 13797081185216407910int) % field_p() == 17870292113338400769int);
    };
    assert(fpow(r, pow2(26)) == 549755813888int) by {
        lemma_fpow_double(r, pow2(25));
        lemma_pow2_adds(1, 25);
        assert((17870292113338400769int * 17870292113338400769int) % field_p() == 549755813888int);
    };
    assert(fpow(r, pow2(27)) == 70368744161280int) by {
        lemma_fpow_double(r, pow2(26));
        lemma_pow2_adds(1, 26);
        assert((549755813888int * 549755813888int) % field_p() == 70368744161280int);
    };
    assert(fpow(r, pow2(28)) == 17293822564807737345int) by {
        lemma_fpow_double(r, pow2(27));
        lemma_pow2_adds(1, 27);
        assert((70368744161280int * 70368744161280int) % field_p() == 17293822564807737345int);
    };
    assert(fpow(r, pow2(29)) == 18446744069397807105int) by {
        lemma_fpow_double(r, pow2(28));
        lemma_pow2_adds(1, 28);
        assert((17293822564807737345int * 17293822564807737345int) % field_p() == 18446744069397807105int);
    };
    assert(fpow(r, pow2(30)) == 281474976710656int) by {
        lemma_fpow_double(r, pow2(29));
        lemma_pow2_adds(1, 29);
        assert((18446744069397807105int * 18446744069397807105int) % field_p() == 281474976710656int);
    };
    assert(fpow(r, pow2(31)) == 18446744069414584320int) by {
        lemma_fpow_double(r, pow2(30));
        lemma_pow2_adds(1, 30);
        assert((281474976710656int * 281474976710656int) % field_p() == 18446744069414584320int);
    };
    assert(fpow(r, pow2(32)) == 1int) by {
        lemma_fpow_double(r, pow2(31));
        lemma_pow2_adds(1, 31);
        assert((18446744069414584320int * 18446744069414584320int) % field_p() == 1int);
    };
}

} // verus!
