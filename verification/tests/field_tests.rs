use deep_fri::field::{
    Goldilocks, GENERATOR, MODULUS, MODULUS_MINUS_ONE_DIV_TWO, T, TWO_ADICITY,
    TWO_ADIC_ROOT_OF_UNITY_NATIVE_VALUE,
};
use rand::rngs::StdRng;
use rand::{Rng, SeedableRng};

#[test]
fn basic_arithmetic() {
    let zero = Goldilocks::zero();
    let one = Goldilocks::one();
    assert_eq!(zero.add(one), one);
    assert_eq!(
        Goldilocks::from_u64(2).mul(Goldilocks::from_u64(3)),
        Goldilocks::from_u64(6)
    );
    assert_eq!(
        Goldilocks::from_u64(5).neg(),
        Goldilocks::from_u64(MODULUS - 5)
    );
}

#[test]
fn generator_order() {
    let gen = Goldilocks::from_u64(GENERATOR);
    let order_minus_one = MODULUS - 1;
    assert_eq!(gen.pow(order_minus_one), Goldilocks::one());
    assert_ne!(gen.pow(order_minus_one / 2), Goldilocks::one());
}

#[test]
fn inverses() {
    let a = Goldilocks::from_u64(123456789);
    let inv = a.inv().unwrap();
    assert_eq!(a.mul(inv), Goldilocks::one());
}

#[test]
fn legendre_symbols() {
    let residue = Goldilocks::from_u64(25);
    let non_residue = Goldilocks::from_u64(11);
    assert!(residue.is_quadratic_residue());
    assert!(!non_residue.is_quadratic_residue());
}

#[test]
fn serialization_roundtrip() {
    let a = Goldilocks::from_u64(42);
    let canonical = a.to_u64();
    let b = Goldilocks::from_u64(canonical);
    assert_eq!(a, b, "canonical roundtrip failed");
    assert!(canonical < MODULUS, "canonical value out of range");
}

#[test]
fn uniform_sampling() {
    let mut rng = StdRng::seed_from_u64(0);
    let sample = Goldilocks::from_u64(rng.gen::<u64>());
    assert!(sample.to_u64() < MODULUS);
}

#[test]
fn sqrt_roundtrip() {
    let val = Goldilocks::from_u64(25);
    let sqrt = val.sqrt().unwrap();
    assert_eq!(sqrt.square(), val);
}

#[test]
fn two_adic_root_checks() {
    let root = Goldilocks::two_adic_root_of_unity();
    assert_eq!(root.pow(1u64 << TWO_ADICITY), Goldilocks::one());
    assert_ne!(root.pow(1u64 << (TWO_ADICITY - 1)), Goldilocks::one());
    assert_eq!(root.to_u64(), TWO_ADIC_ROOT_OF_UNITY_NATIVE_VALUE);
}

#[test]
fn decomposition_constants() {
    assert_eq!((MODULUS - 1) >> TWO_ADICITY, T);
}

#[test]
fn field_laws_on_sampled_values() {
    let mut rng = StdRng::seed_from_u64(7);
    for _ in 0..200 {
        let x = Goldilocks::from_u64(rng.gen::<u64>());
        let y = Goldilocks::from_u64(rng.gen::<u64>());
        let z = Goldilocks::from_u64(rng.gen::<u64>());
        // associativity and commutativity
        assert_eq!(x.add(y).add(z), x.add(y.add(z)));
        assert_eq!(x.add(y), y.add(x));
        assert_eq!(x.mul(y).mul(z), x.mul(y.mul(z)));
        assert_eq!(x.mul(y), y.mul(x));
        // distributivity
        assert_eq!(x.mul(y.add(z)), x.mul(y).add(x.mul(z)));
        // inverses
        if !x.is_zero() {
            assert_eq!(x.mul(x.inv().unwrap()), Goldilocks::one());
        }
        // a square root of a square is the value or its negation
        let sq = x.square();
        let r = sq.sqrt().unwrap();
        assert!(r == x || r == x.neg());
    }
}

#[test]
fn euler_criterion_matches_squares() {
    let mut rng = StdRng::seed_from_u64(8);
    for _ in 0..100 {
        let x = Goldilocks::from_u64(rng.gen::<u64>());
        if x.is_zero() {
            continue;
        }
        let sq = x.square();
        assert!(sq.is_quadratic_residue());
        assert!(MODULUS_MINUS_ONE_DIV_TWO == (MODULUS - 1) / 2);
    }
}
