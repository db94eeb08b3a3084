use deep_fri::field::Goldilocks;
use deep_fri::poseidon::default_params;
use deep_fri::transcript::{FsHash, Transcript};

fn run_trace(tr: &mut Transcript) -> Vec<Goldilocks> {
    tr.absorb_bytes(&b"statement".to_vec());
    tr.absorb_field(Goldilocks::from_u64(17));
    tr.absorb_field(Goldilocks::from_u64(4096));
    let c1 = tr.challenge(&b"alpha".to_vec());
    tr.absorb_field(c1);
    let c2 = tr.challenge(&b"beta".to_vec());
    vec![c1, c2]
}

#[test]
fn transcript_determinism_per_backend() {
    for hash in [FsHash::Poseidon, FsHash::Sha3_256, FsHash::Blake3] {
        let mut t1 = Transcript::with_backend(hash, &b"DET-TEST".to_vec(), default_params());
        let mut t2 = Transcript::with_backend(hash, &b"DET-TEST".to_vec(), default_params());
        assert_eq!(run_trace(&mut t1), run_trace(&mut t2));
    }
}

#[test]
fn transcript_diverges_on_different_traces() {
    let mut t1 = Transcript::new(&b"DET-TEST".to_vec(), default_params());
    let mut t2 = Transcript::new(&b"DET-TEST".to_vec(), default_params());
    t1.absorb_field(Goldilocks::from_u64(1));
    t2.absorb_field(Goldilocks::from_u64(2));
    assert_ne!(
        t1.challenge(&b"alpha".to_vec()),
        t2.challenge(&b"alpha".to_vec())
    );
}

#[test]
fn cross_backend_independence() {
    // the same absorb trace under Poseidon and SHA3 gives different challenges
    let mut tp = Transcript::with_backend(FsHash::Poseidon, &b"XB-TEST".to_vec(), default_params());
    let mut ts = Transcript::with_backend(FsHash::Sha3_256, &b"XB-TEST".to_vec(), default_params());
    let cp = run_trace(&mut tp);
    let cs = run_trace(&mut ts);
    assert_ne!(cp, cs);

    let mut tb = Transcript::with_backend(FsHash::Blake3, &b"XB-TEST".to_vec(), default_params());
    let cb = run_trace(&mut tb);
    assert_ne!(cs, cb);
}
