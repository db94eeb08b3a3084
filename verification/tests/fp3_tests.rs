use deep_fri::field::Goldilocks;
use deep_fri::fp3::Fp3;
use rand::rngs::StdRng;
use rand::{Rng, SeedableRng};

fn random_fp3(rng: &mut impl Rng) -> Fp3 {
    Fp3 {
        a0: Goldilocks::from_u64(rng.gen::<u64>()),
        a1: Goldilocks::from_u64(rng.gen::<u64>()),
        a2: Goldilocks::from_u64(rng.gen::<u64>()),
    }
}

#[test]
fn test_add_sub_roundtrip() {
    let mut rng = StdRng::seed_from_u64(1);
    for _ in 0..1000 {
        let x = random_fp3(&mut rng);
        let y = random_fp3(&mut rng);
        let z = x.add(y).sub(y);
        assert_eq!(z, x);
    }
}

#[test]
fn test_mul_identity() {
    let mut rng = StdRng::seed_from_u64(2);
    for _ in 0..1000 {
        let x = random_fp3(&mut rng);
        assert_eq!(x.mul(Fp3::one()), x);
        assert_eq!(Fp3::one().mul(x), x);
    }
}

#[test]
fn test_inverse_correctness() {
    let mut rng = StdRng::seed_from_u64(4);
    for _ in 0..1000 {
        let x = random_fp3(&mut rng);
        if x == Fp3::zero() {
            continue;
        }
        if x.a0.is_zero() || x.a1.is_zero() || x.a2.is_zero() {
            continue;
        }
        let one = x.mul(x.inv().unwrap());
        assert_eq!(one, Fp3::one());
    }
}

#[test]
fn test_deep_identity_equation() {
    let mut rng = StdRng::seed_from_u64(6);
    for _ in 0..100 {
        let f_i = Goldilocks::from_u64(rng.gen::<u64>());
        let f_0 = Goldilocks::from_u64(rng.gen::<u64>());
        let x = Goldilocks::from_u64(rng.gen::<u64>());
        let z = random_fp3(&mut rng);

        let num = Fp3::from_base(f_i.sub(f_0));
        let denom = Fp3::from_base(x).sub(z);

        if denom == Fp3::zero() {
            continue;
        }
        if denom.a0.is_zero() || denom.a1.is_zero() || denom.a2.is_zero() {
            continue;
        }
        let q = num.mul(denom.inv().unwrap());
        assert_eq!(q.mul(denom), num);
    }
}
