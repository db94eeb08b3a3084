use deep_fri::field::Goldilocks;
use deep_fri::fri::{fri_fold_layer, FriDomain};
use deep_fri::ntt::{intt, ntt, radix2_root_inverse};
use rand::rngs::StdRng;
use rand::{Rng, SeedableRng};
use std::collections::HashSet;

fn random_polynomial(degree: usize, rng: &mut impl Rng) -> Vec<Goldilocks> {
    (0..=degree).map(|_| Goldilocks::from_u64(rng.gen())).collect()
}

fn evaluate(coeffs: &[Goldilocks], x: Goldilocks) -> Goldilocks {
    let mut acc = Goldilocks::zero();
    for c in coeffs.iter().rev() {
        acc = acc.mul(x).add(*c);
    }
    acc
}

fn fft_over(coeffs: &[Goldilocks], n: usize) -> Vec<Goldilocks> {
    let dom = FriDomain::new_radix2(n);
    let mut padded = coeffs.to_vec();
    padded.resize(n, Goldilocks::zero());
    ntt(&padded, dom.omega)
}

/// Interpolates a coset of values over the folding domain and evaluates
/// the interpolant at alpha over the coset generator.
fn fold_one_coset(
    coset_values: &[Goldilocks],
    alpha: Goldilocks,
    coset_generator: Goldilocks,
    folding_factor: usize,
) -> Goldilocks {
    let dom = FriDomain::new_radix2(folding_factor);
    let w_inv = radix2_root_inverse(dom.omega, folding_factor as u64);
    let n_inv = Goldilocks::from_u64(folding_factor as u64).inv().unwrap();
    let p_coeffs = intt(&coset_values.to_vec(), w_inv, n_inv);
    let evaluation_point = alpha.mul(coset_generator.inv().unwrap());
    evaluate(&p_coeffs, evaluation_point)
}

#[test]
fn test_fri_local_consistency_check_soundness() {
    const DOMAIN_SIZE: usize = 1024;
    const FOLDING_FACTOR: usize = 4;
    const NUM_TRIALS: usize = 1000000;

    let mut rng = rand::thread_rng();
    let mut detections = 0usize;

    let z_l = Goldilocks::from_u64(5);
    let f: Vec<Goldilocks> = (0..DOMAIN_SIZE)
        .map(|_| Goldilocks::from_u64(rng.gen()))
        .collect();
    let f_next_claimed: Vec<Goldilocks> =
        vec![Goldilocks::zero(); DOMAIN_SIZE / FOLDING_FACTOR];

    let domain = FriDomain::new_radix2(DOMAIN_SIZE);
    let generator = domain.omega;

    for _ in 0..NUM_TRIALS {
        let query_index = rng.gen_range(0..f_next_claimed.len());

        let coset_values: Vec<Goldilocks> = (0..FOLDING_FACTOR)
            .map(|j| f[query_index + j * (DOMAIN_SIZE / FOLDING_FACTOR)])
            .collect();

        let coset_generator = generator.pow(query_index as u64);
        let s_reconstructed =
            fold_one_coset(&coset_values, z_l, coset_generator, FOLDING_FACTOR);

        let s_claimed = f_next_claimed[query_index];

        if s_reconstructed != s_claimed {
            detections += 1;
        }
    }
    let measured_rate = detections as f64 / NUM_TRIALS as f64;

    println!(
        "[Consistency Check] Detections: {}/{}, Measured Rate: {:.4}",
        detections, NUM_TRIALS, measured_rate
    );

    assert!(
        (measured_rate - 1.0).abs() < 0.01,
        "Detection rate should be close to 100%"
    );
}

#[test]
fn test_fri_distance_amplification() {
    const DOMAIN_SIZE: usize = 1024;
    const FOLDING_FACTOR: usize = 4;
    const NUM_TRIALS: usize = 100_000;
    const INITIAL_CORRUPTION_FRACTION: f64 = 0.05;

    let mut rng = rand::thread_rng();
    let z_l = Goldilocks::from_u64(5);

    let degree_bound = DOMAIN_SIZE / FOLDING_FACTOR;
    let p_coeffs = random_polynomial(degree_bound - 2, &mut rng);
    let p_evals = fft_over(&p_coeffs, DOMAIN_SIZE);

    // corrupt the evaluations
    let mut f_evals = p_evals.clone();
    let num_corruptions = (DOMAIN_SIZE as f64 * INITIAL_CORRUPTION_FRACTION) as usize;
    let mut corrupted_indices = HashSet::new();
    while corrupted_indices.len() < num_corruptions {
        corrupted_indices.insert(rng.gen_range(0..DOMAIN_SIZE));
    }
    for &idx in &corrupted_indices {
        f_evals[idx] = Goldilocks::from_u64(rng.gen());
    }

    // fold honest and corrupted codewords with the production fold
    let folded_honest = fri_fold_layer(&p_evals, z_l, FOLDING_FACTOR);
    let folded_corrupted = fri_fold_layer(&f_evals, z_l, FOLDING_FACTOR);

    let mut detections = 0usize;
    for _ in 0..NUM_TRIALS {
        let query_index = rng.gen_range(0..folded_honest.len());
        if folded_honest[query_index] != folded_corrupted[query_index] {
            detections += 1;
        }
    }

    let measured_rate = detections as f64 / NUM_TRIALS as f64;
    let theoretical_rate = (FOLDING_FACTOR as f64 * INITIAL_CORRUPTION_FRACTION).min(1.0);

    println!("\n[Distance Amplification Test (Single Layer)]");
    println!(
        "  - Initial Corruption: {:.2}% ({} points)",
        INITIAL_CORRUPTION_FRACTION * 100.0,
        num_corruptions
    );
    println!("  - Detections: {}/{}", detections, NUM_TRIALS);
    println!("  - Measured Detection Rate: {:.4}", measured_rate);
    println!("  - Theoretical Detection Rate: {:.4}", theoretical_rate);

    let tolerance = 0.05;
    assert!(
        (measured_rate - theoretical_rate).abs() < tolerance,
        "Measured detection rate should be close to the theoretical rate."
    );
}

#[test]
fn test_intermediate_layer_fraud_soundness() {
    const INITIAL_DOMAIN_SIZE: usize = 4096;
    const FOLDING_SCHEDULE: [usize; 3] = [4, 4, 4];
    const NUM_TRIALS: usize = 20000;
    const FRAUD_LAYER_INDEX: usize = 1;

    let mut rng = rand::thread_rng();
    let mut detections = 0usize;

    // challenges
    let alphas: Vec<Goldilocks> = (0..FOLDING_SCHEDULE.len())
        .map(|_| Goldilocks::from_u64(rng.gen()))
        .collect();

    // honest proof
    let final_layer_size =
        INITIAL_DOMAIN_SIZE / FOLDING_SCHEDULE.iter().product::<usize>();
    let degree_bound = final_layer_size - 1;

    let p_coeffs = random_polynomial(degree_bound, &mut rng);
    let honest_f0 = fft_over(&p_coeffs, INITIAL_DOMAIN_SIZE);

    let mut honest_layers = vec![honest_f0];
    let mut current = honest_layers[0].clone();
    for (l, &factor) in FOLDING_SCHEDULE.iter().enumerate() {
        let next = fri_fold_layer(&current, alphas[l], factor);
        honest_layers.push(next.clone());
        current = next;
    }

    // one fraudulent prover at a fixed fraud location
    let mut prover_layers = honest_layers.clone();
    let fraud_layer_size = INITIAL_DOMAIN_SIZE
        / FOLDING_SCHEDULE[0..FRAUD_LAYER_INDEX].iter().product::<usize>();
    let fraud_index = rng.gen_range(0..fraud_layer_size);
    let honest = prover_layers[FRAUD_LAYER_INDEX][fraud_index];
    let mut corrupted = Goldilocks::from_u64(rng.gen());
    while corrupted == honest {
        corrupted = Goldilocks::from_u64(rng.gen());
    }
    prover_layers[FRAUD_LAYER_INDEX][fraud_index] = corrupted;

    // verifier parameters
    let l = FRAUD_LAYER_INDEX - 1;
    let folding_factor = FOLDING_SCHEDULE[l];
    let current_domain_size =
        INITIAL_DOMAIN_SIZE / FOLDING_SCHEDULE[0..l].iter().product::<usize>();
    let next_domain_size = current_domain_size / folding_factor;

    // Monte Carlo verifier simulation
    for _ in 0..NUM_TRIALS {
        let query_index = rng.gen_range(0..next_domain_size);

        let coset_values: Vec<Goldilocks> = (0..folding_factor)
            .map(|j| prover_layers[l][query_index + j * next_domain_size])
            .collect();

        let mut lhs = Goldilocks::zero();
        let mut alpha_pow = Goldilocks::one();
        for j in 0..folding_factor {
            lhs = lhs.add(coset_values[j].mul(alpha_pow));
            alpha_pow = alpha_pow.mul(alphas[l]);
        }
        let reconstructed = lhs;
        let claimed = prover_layers[l + 1][query_index];

        if reconstructed != claimed {
            detections += 1;
        }
    }

    let measured_rate = detections as f64 / NUM_TRIALS as f64;
    let theoretical_rate = 1.0 / fraud_layer_size as f64;

    println!("\n[Intermediate Layer Fraud Soundness]");
    println!("  Fraud layer size: {}", fraud_layer_size);
    println!("  Fraud index: {}", fraud_index);
    println!("  Detections: {}/{}", detections, NUM_TRIALS);
    println!("  Measured detection rate: {:.6}", measured_rate);
    println!("  Theoretical rate: {:.6}", theoretical_rate);

    let tolerance = theoretical_rate * 5.0;
    assert!(
        (measured_rate - theoretical_rate).abs() < tolerance,
        "Measured detection rate deviates from theory"
    );
}

#[test]
fn debug_single_fold_distance_amplification() {
    let log_domain_size = 12; // 4096
    let initial_domain_size = 1usize << log_domain_size;
    let folding_factor = 4usize;
    let initial_corruption_rate = 0.06f64;

    let mut rng = StdRng::seed_from_u64(0);

    // a valid low-degree polynomial and its codeword
    let degree = (initial_domain_size / folding_factor) - 1;
    let poly = random_polynomial(degree, &mut rng);
    let codeword_c0_evals = fft_over(&poly, initial_domain_size);

    // a corrupted copy with a fixed fraction of points replaced
    let mut corrupted_evals = codeword_c0_evals.clone();
    let num_corruptions =
        (initial_domain_size as f64 * initial_corruption_rate).ceil() as usize;
    let mut corrupted_indices = HashSet::new();
    while corrupted_indices.len() < num_corruptions {
        let idx = (rng.gen::<u64>() as usize) % initial_domain_size;
        if corrupted_indices.contains(&idx) {
            continue;
        }
        let original = corrupted_evals[idx];
        let mut new_value = Goldilocks::from_u64(rng.gen());
        while new_value == original {
            new_value = Goldilocks::from_u64(rng.gen());
        }
        corrupted_evals[idx] = new_value;
        corrupted_indices.insert(idx);
    }

    // one fold of both codewords
    let alpha = Goldilocks::from_u64(rng.gen());
    let folded_corrupted = fri_fold_layer(&corrupted_evals, alpha, folding_factor);
    let folded_true = fri_fold_layer(&codeword_c0_evals, alpha, folding_factor);

    let differing_points = folded_corrupted
        .iter()
        .zip(folded_true.iter())
        .filter(|(a, b)| a != b)
        .count();
    let measured_rho_1 = differing_points as f64 / folded_true.len() as f64;
    let theoretical_rho_1 =
        1.0_f64 - (1.0_f64 - initial_corruption_rate).powf(folding_factor as f64);

    println!("--- Debugging Single Fold (Goldilocks Field) ---");
    println!("Initial rho_0:       {}", initial_corruption_rate);
    println!("Measured rho_1:      {}", measured_rho_1);
    println!("Theoretical rho_1:   {}", theoretical_rho_1);

    let tolerance = 0.01;
    assert!(
        (measured_rho_1 - theoretical_rho_1).abs() < tolerance,
        "Single fold amplification measured rate {} is not close to precise theoretical rate {}",
        measured_rho_1,
        theoretical_rho_1
    );
}
