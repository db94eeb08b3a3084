//! Domain-separation labels, as byte strings.
//!
//! Each label exists twice: a specification-level byte sequence, which
//! the contracts mention, and an executable constructor proved to build
//! exactly that sequence.

use vstd::prelude::*;

verus! {

/// The ASCII bytes of "FSv1-TRANSCRIPT-INIT", the label of transcript initialisation.
pub open spec fn tag_transcript_init() -> Seq<u8> {
    seq![70u8, 83u8, 118u8, 49u8, 45u8, 84u8, 82u8, 65u8, 78u8, 83u8, 67u8, 82u8, 73u8, 80u8, 84u8, 45u8, 73u8, 78u8, 73u8, 84u8]
}

/// Builds the "FSv1-TRANSCRIPT-INIT" label.
pub fn tag_transcript_init_bytes() -> (r: Vec<u8>)
    ensures
        r@ == tag_transcript_init(),
{
    let v: Vec<u8> = vec![70u8, 83u8, 118u8, 49u8, 45u8, 84u8, 82u8, 65u8, 78u8, 83u8, 67u8, 82u8, 73u8, 80u8, 84u8, 45u8, 73u8, 78u8, 73u8, 84u8];
    proof {
        assert(v@ =~= tag_transcript_init());
    }
    v
}

/// The ASCII bytes of "FSv1-ABSORB-BYTES", the label of byte absorption.
pub open spec fn tag_absorb_bytes() -> Seq<u8> {
    seq![70u8, 83u8, 118u8, 49u8, 45u8, 65u8, 66u8, 83u8, 79u8, 82u8, 66u8, 45u8, 66u8, 89u8, 84u8, 69u8, 83u8]
}

/// Builds the "FSv1-ABSORB-BYTES" label.
pub fn tag_absorb_bytes_bytes() -> (r: Vec<u8>)
    ensures
        r@ == tag_absorb_bytes(),
{
    let v: Vec<u8> = vec![70u8, 83u8, 118u8, 49u8, 45u8, 65u8, 66u8, 83u8, 79u8, 82u8, 66u8, 45u8, 66u8, 89u8, 84u8, 69u8, 83u8];
    proof {
        assert(v@ =~= tag_absorb_bytes());
    }
    v
}

/// The ASCII bytes of "FSv1-CHALLENGE", the label of challenge extraction.
pub open spec fn tag_challenge() -> Seq<u8> {
    seq![70u8, 83u8, 118u8, 49u8, 45u8, 67u8, 72u8, 65u8, 76u8, 76u8, 69u8, 78u8, 71u8, 69u8]
}

/// Builds the "FSv1-CHALLENGE" label.
pub fn tag_challenge_bytes() -> (r: Vec<u8>)
    ensures
        r@ == tag_challenge(),
{
    let v: Vec<u8> = vec![70u8, 83u8, 118u8, 49u8, 45u8, 67u8, 72u8, 65u8, 76u8, 76u8, 69u8, 78u8, 71u8, 69u8];
    proof {
        assert(v@ =~= tag_challenge());
    }
    v
}

/// The ASCII bytes of "POSEIDON-MDS", the label of MDS matrix derivation.
pub open spec fn tag_poseidon_mds() -> Seq<u8> {
    seq![80u8, 79u8, 83u8, 69u8, 73u8, 68u8, 79u8, 78u8, 45u8, 77u8, 68u8, 83u8]
}

/// Builds the "POSEIDON-MDS" label.
pub fn tag_poseidon_mds_bytes() -> (r: Vec<u8>)
    ensures
        r@ == tag_poseidon_mds(),
{
    let v: Vec<u8> = vec![80u8, 79u8, 83u8, 69u8, 73u8, 68u8, 79u8, 78u8, 45u8, 77u8, 68u8, 83u8];
    proof {
        assert(v@ =~= tag_poseidon_mds());
    }
    v
}

/// The ASCII bytes of "POSEIDON-RC-FULL", the label of full-round constant derivation.
pub open spec fn tag_poseidon_rc_full() -> Seq<u8> {
    seq![80u8, 79u8, 83u8, 69u8, 73u8, 68u8, 79u8, 78u8, 45u8, 82u8, 67u8, 45u8, 70u8, 85u8, 76u8, 76u8]
}

/// Builds the "POSEIDON-RC-FULL" label.
pub fn tag_poseidon_rc_full_bytes() -> (r: Vec<u8>)
    ensures
        r@ == tag_poseidon_rc_full(),
{
    let v: Vec<u8> = vec![80u8, 79u8, 83u8, 69u8, 73u8, 68u8, 79u8, 78u8, 45u8, 82u8, 67u8, 45u8, 70u8, 85u8, 76u8, 76u8];
    proof {
        assert(v@ =~= tag_poseidon_rc_full());
    }
    v
}

/// The ASCII bytes of "POSEIDON-RC-PART", the label of partial-round constant derivation.
pub open spec fn tag_poseidon_rc_part() -> Seq<u8> {
    seq![80u8, 79u8, 83u8, 69u8, 73u8, 68u8, 79u8, 78u8, 45u8, 82u8, 67u8, 45u8, 80u8, 65u8, 82u8, 84u8]
}

/// Builds the "POSEIDON-RC-PART" label.
pub fn tag_poseidon_rc_part_bytes() -> (r: Vec<u8>)
    ensures
        r@ == tag_poseidon_rc_part(),
{
    let v: Vec<u8> = vec![80u8, 79u8, 83u8, 69u8, 73u8, 68u8, 79u8, 78u8, 45u8, 82u8, 67u8, 45u8, 80u8, 65u8, 82u8, 84u8];
    proof {
        assert(v@ =~= tag_poseidon_rc_part());
    }
    v
}

/// The ASCII bytes of "POSEIDON-T17-X5-TRANSCRIPT", the label of the transcript permutation seed.
pub open spec fn tag_poseidon_transcript_seed() -> Seq<u8> {
    seq![80u8, 79u8, 83u8, 69u8, 73u8, 68u8, 79u8, 78u8, 45u8, 84u8, 49u8, 55u8, 45u8, 88u8, 53u8, 45u8, 84u8, 82u8, 65u8, 78u8, 83u8, 67u8, 82u8, 73u8, 80u8, 84u8]
}

/// Builds the "POSEIDON-T17-X5-TRANSCRIPT" label.
pub fn tag_poseidon_transcript_seed_bytes() -> (r: Vec<u8>)
    ensures
        r@ == tag_poseidon_transcript_seed(),
{
    let v: Vec<u8> = vec![80u8, 79u8, 83u8, 69u8, 73u8, 68u8, 79u8, 78u8, 45u8, 84u8, 49u8, 55u8, 45u8, 88u8, 53u8, 45u8, 84u8, 82u8, 65u8, 78u8, 83u8, 67u8, 82u8, 73u8, 80u8, 84u8];
    proof {
        assert(v@ =~= tag_poseidon_transcript_seed());
    }
    v
}

/// The ASCII bytes of "POSEIDON-T17-X5-SEED", the label of the commitment permutation seed.
pub open spec fn tag_poseidon_commit_seed() -> Seq<u8> {
    seq![80u8, 79u8, 83u8, 69u8, 73u8, 68u8, 79u8, 78u8, 45u8, 84u8, 49u8, 55u8, 45u8, 88u8, 53u8, 45u8, 83u8, 69u8, 69u8, 68u8]
}

/// Builds the "POSEIDON-T17-X5-SEED" label.
pub fn tag_poseidon_commit_seed_bytes() -> (r: Vec<u8>)
    ensures
        r@ == tag_poseidon_commit_seed(),
{
    let v: Vec<u8> = vec![80u8, 79u8, 83u8, 69u8, 73u8, 68u8, 79u8, 78u8, 45u8, 84u8, 49u8, 55u8, 45u8, 88u8, 53u8, 45u8, 83u8, 69u8, 69u8, 68u8];
    proof {
        assert(v@ =~= tag_poseidon_commit_seed());
    }
    v
}

/// The ASCII bytes of "FRI/FS", the label of the Fiat-Shamir transcript of the protocol.
pub open spec fn tag_fri_fs() -> Seq<u8> {
    seq![70u8, 82u8, 73u8, 47u8, 70u8, 83u8]
}

/// Builds the "FRI/FS" label.
pub fn tag_fri_fs_bytes() -> (r: Vec<u8>)
    ensures
        r@ == tag_fri_fs(),
{
    let v: Vec<u8> = vec![70u8, 82u8, 73u8, 47u8, 70u8, 83u8];
    proof {
        assert(v@ =~= tag_fri_fs());
    }
    v
}

/// The ASCII bytes of "FRI/seed", the label of query-seed derivation.
pub open spec fn tag_fri_seed() -> Seq<u8> {
    seq![70u8, 82u8, 73u8, 47u8, 115u8, 101u8, 101u8, 100u8]
}

/// Builds the "FRI/seed" label.
pub fn tag_fri_seed_bytes() -> (r: Vec<u8>)
    ensures
        r@ == tag_fri_seed(),
{
    let v: Vec<u8> = vec![70u8, 82u8, 73u8, 47u8, 115u8, 101u8, 101u8, 100u8];
    proof {
        assert(v@ =~= tag_fri_seed());
    }
    v
}

/// The ASCII bytes of "FRI/index", the label of query-index derivation.
pub open spec fn tag_fri_index() -> Seq<u8> {
    seq![70u8, 82u8, 73u8, 47u8, 105u8, 110u8, 100u8, 101u8, 120u8]
}

/// Builds the "FRI/index" label.
pub fn tag_fri_index_bytes() -> (r: Vec<u8>)
    ensures
        r@ == tag_fri_index(),
{
    let v: Vec<u8> = vec![70u8, 82u8, 73u8, 47u8, 105u8, 110u8, 100u8, 101u8, 120u8];
    proof {
        assert(v@ =~= tag_fri_index());
    }
    v
}

/// The ASCII bytes of "FRI/z/l", the label of layer-challenge sampling.
pub open spec fn tag_fri_z_l() -> Seq<u8> {
    seq![70u8, 82u8, 73u8, 47u8, 122u8, 47u8, 108u8]
}

/// Builds the "FRI/z/l" label.
pub fn tag_fri_z_l_bytes() -> (r: Vec<u8>)
    ensures
        r@ == tag_fri_z_l(),
{
    let v: Vec<u8> = vec![70u8, 82u8, 73u8, 47u8, 122u8, 47u8, 108u8];
    proof {
        assert(v@ =~= tag_fri_z_l());
    }
    v
}

/// The ASCII bytes of "z_fp3/a0", the label of the first DEEP challenge coordinate.
pub open spec fn tag_z_a0() -> Seq<u8> {
    seq![122u8, 95u8, 102u8, 112u8, 51u8, 47u8, 97u8, 48u8]
}

/// Builds the "z_fp3/a0" label.
pub fn tag_z_a0_bytes() -> (r: Vec<u8>)
    ensures
        r@ == tag_z_a0(),
{
    let v: Vec<u8> = vec![122u8, 95u8, 102u8, 112u8, 51u8, 47u8, 97u8, 48u8];
    proof {
        assert(v@ =~= tag_z_a0());
    }
    v
}

/// The ASCII bytes of "z_fp3/a1", the label of the second DEEP challenge coordinate.
pub open spec fn tag_z_a1() -> Seq<u8> {
    seq![122u8, 95u8, 102u8, 112u8, 51u8, 47u8, 97u8, 49u8]
}

/// Builds the "z_fp3/a1" label.
pub fn tag_z_a1_bytes() -> (r: Vec<u8>)
    ensures
        r@ == tag_z_a1(),
{
    let v: Vec<u8> = vec![122u8, 95u8, 102u8, 112u8, 51u8, 47u8, 97u8, 49u8];
    proof {
        assert(v@ =~= tag_z_a1());
    }
    v
}

/// The ASCII bytes of "z_fp3/a2", the label of the third DEEP challenge coordinate.
pub open spec fn tag_z_a2() -> Seq<u8> {
    seq![122u8, 95u8, 102u8, 112u8, 51u8, 47u8, 97u8, 50u8]
}

/// Builds the "z_fp3/a2" label.
pub fn tag_z_a2_bytes() -> (r: Vec<u8>)
    ensures
        r@ == tag_z_a2(),
{
    let v: Vec<u8> = vec![122u8, 95u8, 102u8, 112u8, 51u8, 47u8, 97u8, 50u8];
    proof {
        assert(v@ =~= tag_z_a2());
    }
    v
}

/// The ASCII bytes of "out", the label of hash-to-field output.
pub open spec fn tag_out() -> Seq<u8> {
    seq![111u8, 117u8, 116u8]
}

/// Builds the "out" label.
pub fn tag_out_bytes() -> (r: Vec<u8>)
    ensures
        r@ == tag_out(),
{
    let v: Vec<u8> = vec![111u8, 117u8, 116u8];
    proof {
        assert(v@ =~= tag_out());
    }
    v
}

/// The ASCII bytes of "DEEP-FRI-STATEMENT", the label of statement binding.
pub open spec fn tag_deep_fri_statement() -> Seq<u8> {
    seq![68u8, 69u8, 69u8, 80u8, 45u8, 70u8, 82u8, 73u8, 45u8, 83u8, 84u8, 65u8, 84u8, 69u8, 77u8, 69u8, 78u8, 84u8]
}

/// Builds the "DEEP-FRI-STATEMENT" label.
pub fn tag_deep_fri_statement_bytes() -> (r: Vec<u8>)
    ensures
        r@ == tag_deep_fri_statement(),
{
    let v: Vec<u8> = vec![68u8, 69u8, 69u8, 80u8, 45u8, 70u8, 82u8, 73u8, 45u8, 83u8, 84u8, 65u8, 84u8, 69u8, 77u8, 69u8, 78u8, 84u8];
    proof {
        assert(v@ =~= tag_deep_fri_statement());
    }
    v
}

/// The ASCII bytes of "merkle/root", the label of root absorption on a channel.
pub open spec fn tag_merkle_root() -> Seq<u8> {
    seq![109u8, 101u8, 114u8, 107u8, 108u8, 101u8, 47u8, 114u8, 111u8, 111u8, 116u8]
}

/// Builds the "merkle/root" label.
pub fn tag_merkle_root_bytes() -> (r: Vec<u8>)
    ensures
        r@ == tag_merkle_root(),
{
    let v: Vec<u8> = vec![109u8, 101u8, 114u8, 107u8, 108u8, 101u8, 47u8, 114u8, 111u8, 111u8, 116u8];
    proof {
        assert(v@ =~= tag_merkle_root());
    }
    v
}

/// The ASCII bytes of "TRACE_HASH_V1", the label of trace hashing.
pub open spec fn tag_trace_hash_v1() -> Seq<u8> {
    seq![84u8, 82u8, 65u8, 67u8, 69u8, 95u8, 72u8, 65u8, 83u8, 72u8, 95u8, 86u8, 49u8]
}

/// Builds the "TRACE_HASH_V1" label.
pub fn tag_trace_hash_v1_bytes() -> (r: Vec<u8>)
    ensures
        r@ == tag_trace_hash_v1(),
{
    let v: Vec<u8> = vec![84u8, 82u8, 65u8, 67u8, 69u8, 95u8, 72u8, 65u8, 83u8, 72u8, 95u8, 86u8, 49u8];
    proof {
        assert(v@ =~= tag_trace_hash_v1());
    }
    v
}

/// The ASCII bytes of "TRACE_BYTES_COMMIT_V1", the label of the byte-level trace commitment.
pub open spec fn tag_trace_bytes_commit_v1() -> Seq<u8> {
    seq![84u8, 82u8, 65u8, 67u8, 69u8, 95u8, 66u8, 89u8, 84u8, 69u8, 83u8, 95u8, 67u8, 79u8, 77u8, 77u8, 73u8, 84u8, 95u8, 86u8, 49u8]
}

/// Builds the "TRACE_BYTES_COMMIT_V1" label.
pub fn tag_trace_bytes_commit_v1_bytes() -> (r: Vec<u8>)
    ensures
        r@ == tag_trace_bytes_commit_v1(),
{
    let v: Vec<u8> = vec![84u8, 82u8, 65u8, 67u8, 69u8, 95u8, 66u8, 89u8, 84u8, 69u8, 83u8, 95u8, 67u8, 79u8, 77u8, 77u8, 73u8, 84u8, 95u8, 86u8, 49u8];
    proof {
        assert(v@ =~= tag_trace_bytes_commit_v1());
    }
    v
}

} // verus!
