use deep_fri::field::Goldilocks;
use deep_fri::fp3::Fp3;
use deep_fri::fri::{
    deep_fri_proof_size_bytes, deep_fri_prove, deep_fri_verify, merkle_depth,
    normalize_fri_schedule, pick_arity_for_layer, DeepFriParams, FriDomain,
};
use deep_fri::merge::deep_ali_merge_evals;
use deep_fri::ntt::{intt, ntt, radix2_root_inverse};
use rand::rngs::StdRng;
use rand::{Rng, SeedableRng};

fn random_vec(rng: &mut StdRng, n: usize) -> Vec<Goldilocks> {
    (0..n).map(|_| Goldilocks::from_u64(rng.gen())).collect()
}

fn sample_z_off_domain(rng: &mut StdRng, n: usize) -> Fp3 {
    loop {
        let z = Fp3 {
            a0: Goldilocks::from_u64(rng.gen()),
            a1: Goldilocks::from_u64(rng.gen()),
            a2: Goldilocks::from_u64(rng.gen()),
        };
        let ok = [z.a0, z.a1, z.a2]
            .iter()
            .all(|c| !c.is_zero() && c.pow(n as u64).to_u64() != 1);
        if ok {
            return z;
        }
    }
}

fn merged_codeword(seed: u64, n0: usize) -> (Vec<Goldilocks>, FriDomain) {
    let mut rng = StdRng::seed_from_u64(seed);
    let a: Vec<Goldilocks> = random_vec(&mut rng, n0);
    let s: Vec<Goldilocks> = random_vec(&mut rng, n0);
    let e: Vec<Goldilocks> = random_vec(&mut rng, n0);
    let t: Vec<Goldilocks> = random_vec(&mut rng, n0);
    let domain0 = FriDomain::new_radix2(n0);
    let z = sample_z_off_domain(&mut rng, n0);
    let (f0, _z, _c_star) =
        deep_ali_merge_evals(&a, &s, &e, &t, domain0.omega, z).expect("merge");
    (f0, domain0)
}

fn expected_proof_size(n0: usize, schedule: &[usize], r: usize) -> usize {
    let l = schedule.len();
    let mut bytes = l * 8; // roots
    bytes += r * (l * 9 * 8 + 2 * 8); // payloads and final pairs
    let mut n = n0;
    for &m in schedule {
        let arity = pick_arity_for_layer(n, m).max(2);
        let depth = merkle_depth(n, arity);
        // leaf, index, and the siblings of every level
        bytes += r * (8 + 8 + depth * (arity - 1) * 8);
        n /= m;
    }
    bytes
}

#[test]
fn scenario_small_domain_proves_and_verifies() {
    // n0 = 2^11, schedule [16,16,8], r = 32, inputs sampled from seed 1337
    let n0 = 1usize << 11;
    let (f0, domain0) = merged_codeword(1337, n0);
    let schedule = normalize_fri_schedule(n0, &vec![16, 16, 8]).expect("schedule");
    assert_eq!(schedule, vec![16, 16, 8]);
    let params = DeepFriParams {
        schedule,
        r: 32,
        seed_z: 0xDEEF_BAAD,
    };
    let proof = deep_fri_prove(f0, domain0, &params).expect("prove");
    assert!(deep_fri_verify(&params, &proof));
    assert_eq!(
        deep_fri_proof_size_bytes(&proof),
        expected_proof_size(n0, &params.schedule, params.r)
    );
}

#[test]
fn scenario_tampered_proof_rejects() {
    // as the small-domain scenario, but with a flipped bit in a payload,
    // in an opening, and in a final pair
    let n0 = 1usize << 11;
    let (f0, domain0) = merged_codeword(1337, n0);
    let params = DeepFriParams {
        schedule: vec![16, 16, 8],
        r: 32,
        seed_z: 0xDEEF_BAAD,
    };
    let mut proof = deep_fri_prove(f0, domain0, &params).expect("prove");
    assert!(deep_fri_verify(&params, &proof));

    // flip the low bit of a revealed codeword value: the quotient equation breaks
    let old = proof.queries[0].per_layer_payloads[0].f_i;
    proof.queries[0].per_layer_payloads[0].f_i = Goldilocks::from_u64(old.to_u64() ^ 1);
    assert!(!deep_fri_verify(&params, &proof));
    proof.queries[0].per_layer_payloads[0].f_i = old;
    assert!(deep_fri_verify(&params, &proof));

    // flip a Merkle leaf hash: the opening breaks
    let old = proof.layer_proofs.layers[1].openings[3].leaf;
    proof.layer_proofs.layers[1].openings[3].leaf = Goldilocks::from_u64(old.to_u64() ^ 1);
    assert!(!deep_fri_verify(&params, &proof));
    proof.layer_proofs.layers[1].openings[3].leaf = old;

    // break a final pair: constancy fails
    let old = proof.queries[5].final_pair.0;
    proof.queries[5].final_pair.0 = Goldilocks::from_u64(old.to_u64() ^ 1);
    assert!(!deep_fri_verify(&params, &proof));
}

#[test]
fn scenario_schedule_normalization() {
    // n0 = 2^13 under [16,16,8] leaves a residual 4, appended by
    // normalization; the proof then verifies
    let n0 = 1usize << 13;
    let schedule = normalize_fri_schedule(n0, &vec![16, 16, 8]).expect("schedule");
    assert_eq!(schedule, vec![16, 16, 8, 4]);
    let (f0, domain0) = merged_codeword(2024, n0);
    let params = DeepFriParams {
        schedule,
        r: 32,
        seed_z: 0xDEEF_BAAD,
    };
    let proof = deep_fri_prove(f0, domain0, &params).expect("prove");
    assert!(deep_fri_verify(&params, &proof));
}

#[test]
fn prover_normalizes_residual_schedule() {
    // the prover itself appends the residual: handing it the unnormalized
    // [16,16,8] at n0 = 2^13 yields a four-layer proof that verifies
    let n0 = 1usize << 13;
    let (f0, domain0) = merged_codeword(2024, n0);
    let params = DeepFriParams {
        schedule: vec![16, 16, 8],
        r: 32,
        seed_z: 0xDEEF_BAAD,
    };
    let proof = deep_fri_prove(f0.clone(), domain0, &params).expect("prove");
    assert_eq!(proof.roots.len(), 4);
    assert!(deep_fri_verify(&params, &proof));
    // and it agrees with proving under the explicitly normalized schedule
    let norm = normalize_fri_schedule(n0, &params.schedule).expect("schedule");
    let norm_params = DeepFriParams {
        schedule: norm,
        r: 32,
        seed_z: 0xDEEF_BAAD,
    };
    let norm_proof = deep_fri_prove(f0, domain0, &norm_params).expect("prove");
    assert_eq!(proof.roots, norm_proof.roots);
    assert!(deep_fri_verify(&norm_params, &proof));
}

#[test]
fn scenario_large_domain() {
    // n0 = 2^16, r = 64; the residual 2 is appended by normalization
    let n0 = 1usize << 16;
    let schedule = normalize_fri_schedule(n0, &vec![32, 32, 32]).expect("schedule");
    assert_eq!(schedule, vec![32, 32, 32, 2]);
    let (f0, domain0) = merged_codeword(4242, n0);
    let params = DeepFriParams {
        schedule,
        r: 64,
        seed_z: 0xDEEF_BAAD,
    };
    let proof = deep_fri_prove(f0, domain0, &params).expect("prove");
    assert!(deep_fri_verify(&params, &proof));
    // all roots distinct
    for i in 0..proof.roots.len() {
        for j in 0..i {
            assert_ne!(proof.roots[i].to_u64(), proof.roots[j].to_u64());
        }
    }
}

#[test]
fn merge_output_is_low_rate() {
    // the merged codeword interpolates to degree below n/32
    let n0 = 1usize << 11;
    let (f0, domain0) = merged_codeword(555, n0);
    let w_inv = radix2_root_inverse(domain0.omega, n0 as u64);
    let n_inv = Goldilocks::from_u64(n0 as u64).inv().unwrap();
    let coeffs = intt(&f0, w_inv, n_inv);
    for i in n0 / 32..n0 {
        assert!(coeffs[i].is_zero(), "coefficient {} nonzero", i);
    }
}

#[test]
fn completeness_across_query_counts() {
    // an honestly built low-degree codeword verifies for r in {32, 64, 128}
    let n0 = 1usize << 11;
    let mut rng = StdRng::seed_from_u64(31415);
    let d0 = n0 / 32;
    let mut coeffs = vec![Goldilocks::zero(); n0];
    for c in coeffs.iter_mut().take(d0) {
        *c = Goldilocks::from_u64(rng.gen());
    }
    let domain0 = FriDomain::new_radix2(n0);
    let f0 = ntt(&coeffs, domain0.omega);
    for r in [32usize, 64, 128] {
        let params = DeepFriParams {
            schedule: vec![16, 16, 8],
            r,
            seed_z: 7,
        };
        let proof = deep_fri_prove(f0.clone(), domain0, &params).expect("prove");
        assert!(deep_fri_verify(&params, &proof), "r = {} failed", r);
    }
}

#[test]
fn config_errors_reject() {
    let n0 = 1usize << 11;
    let (f0, domain0) = merged_codeword(777, n0);
    // a zero query count is refused
    let params = DeepFriParams {
        schedule: vec![16, 16, 8],
        r: 0,
        seed_z: 7,
    };
    assert!(deep_fri_prove(f0.clone(), domain0, &params).is_err());
    // an empty schedule is refused
    let params = DeepFriParams {
        schedule: vec![],
        r: 32,
        seed_z: 7,
    };
    assert!(deep_fri_prove(f0.clone(), domain0, &params).is_err());
    // a schedule that does not divide the domain is refused
    let params = DeepFriParams {
        schedule: vec![16, 16, 16],
        r: 32,
        seed_z: 7,
    };
    assert!(deep_fri_prove(f0.clone(), domain0, &params).is_err());
    // a non power-of-two factor is refused
    let params = DeepFriParams {
        schedule: vec![3],
        r: 32,
        seed_z: 7,
    };
    assert!(deep_fri_prove(f0, domain0, &params).is_err());
}

#[test]
fn merge_rejects_domain_collision() {
    let n0 = 64usize;
    let mut rng = StdRng::seed_from_u64(9);
    let a: Vec<Goldilocks> = random_vec(&mut rng, n0);
    let s: Vec<Goldilocks> = random_vec(&mut rng, n0);
    let e: Vec<Goldilocks> = random_vec(&mut rng, n0);
    let t: Vec<Goldilocks> = random_vec(&mut rng, n0);
    let domain0 = FriDomain::new_radix2(n0);
    // a challenge whose first coordinate lies on the domain is rejected
    let z = Fp3 {
        a0: domain0.omega,
        a1: Goldilocks::from_u64(rng.gen()),
        a2: Goldilocks::from_u64(rng.gen()),
    };
    assert!(deep_ali_merge_evals(&a, &s, &e, &t, domain0.omega, z).is_err());
}
