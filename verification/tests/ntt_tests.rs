use deep_fri::field::Goldilocks;
use deep_fri::fri::FriDomain;
use deep_fri::ntt::{intt, ntt, radix2_root_inverse};
use rand::rngs::StdRng;
use rand::{Rng, SeedableRng};

fn domain_inverses(n: usize) -> (Goldilocks, Goldilocks, Goldilocks) {
    let dom = FriDomain::new_radix2(n);
    let w = dom.omega;
    let w_inv = radix2_root_inverse(w, n as u64);
    let n_inv = Goldilocks::from_u64(n as u64).inv().unwrap();
    (w, w_inv, n_inv)
}

#[test]
fn roundtrip_fft_ifft() {
    let n = 8usize;
    let (w, w_inv, n_inv) = domain_inverses(n);
    let coeffs: Vec<Goldilocks> = vec![Goldilocks::one(); n];

    let evals = ntt(&coeffs, w);
    let back = intt(&evals, w_inv, n_inv);
    assert_eq!(coeffs, back);
}

#[test]
fn ntt_roundtrip_all_sizes() {
    let mut rng = StdRng::seed_from_u64(99);
    let mut n = 8usize;
    while n <= 1 << 16 {
        let (w, w_inv, n_inv) = domain_inverses(n);
        let v: Vec<Goldilocks> = (0..n).map(|_| Goldilocks::from_u64(rng.gen())).collect();
        let evals = ntt(&v, w);
        let back = intt(&evals, w_inv, n_inv);
        assert_eq!(v, back, "round trip failed at length {}", n);
        n *= 2;
    }
}

#[test]
fn ntt_evaluates_constants_and_linears() {
    // a constant polynomial evaluates to the constant everywhere
    let n = 16usize;
    let (w, _, _) = domain_inverses(n);
    let mut coeffs = vec![Goldilocks::zero(); n];
    coeffs[0] = Goldilocks::from_u64(5);
    let evals = ntt(&coeffs, w);
    for e in &evals {
        assert_eq!(*e, Goldilocks::from_u64(5));
    }
    // the identity polynomial evaluates to the domain points
    let mut coeffs = vec![Goldilocks::zero(); n];
    coeffs[1] = Goldilocks::one();
    let evals = ntt(&coeffs, w);
    let mut x = Goldilocks::one();
    for e in &evals {
        assert_eq!(*e, x);
        x = x.mul(w);
    }
}
