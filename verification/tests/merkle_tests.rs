use deep_fri::channel::{MerkleProver, MerkleVerifier, ProverChannel, VerifierChannel};
use deep_fri::field::Goldilocks;
use deep_fri::merkle::{MerkleChannelCfg, MerkleTreeChannel};
use deep_fri::poseidon::default_params;
use deep_fri::transcript::Transcript;
use rand::rngs::StdRng;
use rand::{Rng, SeedableRng};

#[test]
fn merkle_channel_roundtrip() {
    let params = default_params();

    let p_tr = Transcript::new(&b"CHAN-TEST".to_vec(), params.clone());
    let v_tr = Transcript::new(&b"CHAN-TEST".to_vec(), params.clone());

    let pchan = ProverChannel::new(p_tr);
    let vchan = VerifierChannel::new(v_tr);

    // binary tree (arity = 2), fixed tree label
    let cfg = MerkleChannelCfg::new(vec![2, 2, 2, 2], 12345u64);
    let cfg2 = MerkleChannelCfg::new(vec![2, 2, 2, 2], 12345u64);
    let trace_hash = vec![0u8; 32];

    let mut rng = StdRng::seed_from_u64(42);
    let values: Vec<Goldilocks> = (0..16).map(|_| Goldilocks::from_u64(rng.gen())).collect();

    let mut prover = MerkleProver::new(pchan, cfg, trace_hash.clone());
    let root = prover.commit(&values).expect("commit");

    let mut verifier = MerkleVerifier::new(vchan, cfg2);
    verifier.receive_root(&root);

    // transcript consistency check
    let alpha_p = prover.challenge(&b"alpha".to_vec());
    let alpha_v = verifier.challenge(&b"alpha".to_vec());
    assert_eq!(alpha_p, alpha_v);

    // Merkle opening check
    let idx = 7usize;
    let opening = prover.open(idx);

    assert!(
        verifier.verify_opening(&opening, &trace_hash),
        "Merkle opening failed"
    );
}

fn build_tree(leaves: usize, arities: Vec<usize>, label: u64) -> (MerkleTreeChannel, Goldilocks) {
    let cfg = MerkleChannelCfg::new(arities, label);
    let mut tree = MerkleTreeChannel::new(cfg, vec![7u8; 32]);
    for i in 0..leaves {
        let vals: Vec<Goldilocks> = vec![
            Goldilocks::from_u64(i as u64),
            Goldilocks::from_u64(2 * i as u64 + 1),
            Goldilocks::from_u64(3 * i as u64 + 2),
        ];
        tree.push_leaf(&vals);
    }
    let root = tree.finalize().expect("finalize");
    (tree, root)
}

#[test]
fn thousand_leaves_every_opening_verifies() {
    // a quaternary tree over 1000 leaves needs padding at level zero
    let (tree, root) = build_tree(1000, vec![4, 4, 4, 4, 4], 99);
    let cfg = MerkleChannelCfg::new(vec![4, 4, 4, 4, 4], 99);
    let trace = vec![7u8; 32];
    for i in 0..1000 {
        let opening = tree.open(i);
        assert!(
            MerkleTreeChannel::verify_opening(&cfg, root, &opening, &trace),
            "opening {} failed",
            i
        );
    }
}

#[test]
fn swapped_siblings_fail_verification() {
    let (tree, root) = build_tree(1000, vec![4, 4, 4, 4, 4], 99);
    let cfg = MerkleChannelCfg::new(vec![4, 4, 4, 4, 4], 99);
    let trace = vec![7u8; 32];
    for i in [0usize, 5, 123, 999] {
        for level in 0..5 {
            let mut opening = tree.open(i);
            if opening.path[level][0] != opening.path[level][1] {
                opening.path[level].swap(0, 1);
                assert!(
                    !MerkleTreeChannel::verify_opening(&cfg, root, &opening, &trace),
                    "swap at index {} level {} accepted",
                    i,
                    level
                );
            }
        }
    }
}

#[test]
fn mutated_openings_fail_verification() {
    let (tree, root) = build_tree(64, vec![4, 4, 4], 5);
    let cfg = MerkleChannelCfg::new(vec![4, 4, 4], 5);
    let trace = vec![7u8; 32];

    // a mutated leaf hash fails
    let mut opening = tree.open(9);
    opening.leaf = Goldilocks::from_u64(opening.leaf.to_u64() ^ 1);
    assert!(!MerkleTreeChannel::verify_opening(
        &cfg, root, &opening, &trace
    ));

    // a mutated sibling fails
    let mut opening = tree.open(9);
    let old = opening.path[0][0].to_u64();
    opening.path[0][0] = Goldilocks::from_u64(old ^ 1);
    assert!(!MerkleTreeChannel::verify_opening(
        &cfg, root, &opening, &trace
    ));

    // a mutated index fails
    let mut opening = tree.open(9);
    opening.index = 10;
    assert!(!MerkleTreeChannel::verify_opening(
        &cfg, root, &opening, &trace
    ));

    // a mutated trace hash fails
    let opening = tree.open(9);
    let mut other_trace = vec![7u8; 32];
    other_trace[0] = 8;
    assert!(!MerkleTreeChannel::verify_opening(
        &cfg,
        root,
        &opening,
        &other_trace
    ));
}
