//! The fixed-width sponge permutation used by the Poseidon transcript
//! backend and the Poseidon Merkle commitment.
//!
//! The state holds seventeen field elements.  Eight full rounds (four
//! before, four after) apply the x^5 S-box to every element; sixty-four
//! partial rounds apply it to element zero only.  Each round adds round
//! constants, applies the S-box, and multiplies by a fixed MDS matrix.
//! Constants and matrix are derived reproducibly from a seed through an
//! outside byte hash.

use vstd::prelude::*;
use vstd::bytes::spec_u64_to_le_bytes;
use crate::field::{fadd, fmul, seq_wf, vals, Goldilocks};
use crate::hash::{blake3_digest, blake3_of, field_from_bytes, field_of_bytes, push_bytes, push_u64_bytes};
use crate::tags::{
    tag_poseidon_mds, tag_poseidon_mds_bytes, tag_poseidon_rc_full, tag_poseidon_rc_full_bytes,
    tag_poseidon_rc_part, tag_poseidon_rc_part_bytes, tag_poseidon_transcript_seed,
    tag_poseidon_transcript_seed_bytes,
};

verus! {

/// The sponge width, in field elements.
pub const T: usize = 17;

/// The rate: state cells that absorb input.
pub const RATE: usize = 16;

/// The capacity: state cells reserved for domain separation.
pub const CAPACITY: usize = 1;

/// The number of full rounds.
pub const RF: usize = 8;

/// The number of partial rounds.
pub const RP: usize = 64;

/// The S-box exponent.
pub const ALPHA: u64 = 5;

/// Round constants and MDS matrix of one permutation instance.
#[derive(Clone)]
pub struct PoseidonParams {
    pub mds: Vec<Vec<Goldilocks>>,
    pub rc_full: Vec<Vec<Goldilocks>>,
    pub rc_partial: Vec<Goldilocks>,
}

impl PoseidonParams {
    /// Shape and canonical form of every constant.
    pub open spec fn wf(self) -> bool {
        &&& self.mds@.len() == 17
        &&& forall|i: int|
            0 <= i < 17 ==> (#[trigger] self.mds@[i])@.len() == 17 && seq_wf(self.mds@[i]@)
        &&& self.rc_full@.len() == 8
        &&& forall|i: int|
            0 <= i < 8 ==> (#[trigger] self.rc_full@[i])@.len() == 17 && seq_wf(self.rc_full@[i]@)
        &&& self.rc_partial@.len() == 64
        &&& seq_wf(self.rc_partial@)
    }

    /// The MDS matrix as residues.
    pub open spec fn mds_v(self) -> Seq<Seq<int>> {
        self.mds@.map_values(|row: Vec<Goldilocks>| vals(row@))
    }

    /// The full-round constants as residues.
    pub open spec fn rc_full_v(self) -> Seq<Seq<int>> {
        self.rc_full@.map_values(|row: Vec<Goldilocks>| vals(row@))
    }

    /// The partial-round constants as residues.
    pub open spec fn rc_partial_v(self) -> Seq<int> {
        vals(self.rc_partial@)
    }
}

/// The x^5 S-box on a residue.
pub open spec fn sbox5_spec(x: int) -> int {
    fmul(x, fmul(fmul(x, x), fmul(x, x)))
}

/// The partial dot product of a matrix row with the state.
pub open spec fn dot_spec(row: Seq<int>, st: Seq<int>, k: nat) -> int
    decreases k,
{
    if k == 0 {
        0
    } else {
        fadd(dot_spec(row, st, (k - 1) as nat), fmul(row[k - 1], st[k - 1]))
    }
}

/// Multiplication of the state by the MDS matrix.
pub open spec fn mds_apply_spec(mds: Seq<Seq<int>>, st: Seq<int>) -> Seq<int> {
    Seq::new(st.len(), |i: int| dot_spec(mds[i], st, st.len()))
}

/// One full round: add constants, S-box everywhere, then the matrix.
pub open spec fn full_round_spec(st: Seq<int>, rc: Seq<int>, mds: Seq<Seq<int>>) -> Seq<int> {
    mds_apply_spec(mds, Seq::new(st.len(), |i: int| sbox5_spec(fadd(st[i], rc[i]))))
}

/// One partial round: the S-box touches element zero only.
pub open spec fn partial_round_spec(st: Seq<int>, rc: int, mds: Seq<Seq<int>>) -> Seq<int> {
    mds_apply_spec(mds, st.update(0, sbox5_spec(fadd(st[0], rc))))
}

/// k full rounds with constants rcs[off], ..., rcs[off + k - 1].
pub open spec fn full_rounds_span(
    st: Seq<int>,
    rcs: Seq<Seq<int>>,
    off: nat,
    k: nat,
    mds: Seq<Seq<int>>,
) -> Seq<int>
    decreases k,
{
    if k == 0 {
        st
    } else {
        full_round_spec(full_rounds_span(st, rcs, off, (k - 1) as nat, mds), rcs[off + k - 1], mds)
    }
}

/// The first k partial rounds.
pub open spec fn partial_rounds_upto(
    st: Seq<int>,
    rcs: Seq<int>,
    k: nat,
    mds: Seq<Seq<int>>,
) -> Seq<int>
    decreases k,
{
    if k == 0 {
        st
    } else {
        partial_round_spec(partial_rounds_upto(st, rcs, (k - 1) as nat, mds), rcs[k - 1], mds)
    }
}

/// The whole permutation: four full rounds, sixty-four partial rounds,
/// four full rounds.
pub open spec fn permute_spec(st: Seq<int>, params: PoseidonParams) -> Seq<int> {
    let m = params.mds_v();
    let s1 = full_rounds_span(st, params.rc_full_v(), 0, 4, m);
    let s2 = partial_rounds_upto(s1, params.rc_partial_v(), 64, m);
    full_rounds_span(s2, params.rc_full_v(), 4, 4, m)
}

/// The x^5 S-box: two squarings and one multiplication.
pub fn sbox5(x: Goldilocks) -> (r: Goldilocks)
    requires
        x.wf(),
    ensures
        r.wf(),
        r@ == sbox5_spec(x@),
{
    let x2 = x.square();
    let x4 = x2.square();
    x.mul(x4)
}

/// Multiplies the state by the MDS matrix.
fn mds_mul_fixed(mds: &Vec<Vec<Goldilocks>>, st: &Vec<Goldilocks>) -> (r: Vec<Goldilocks>)
    requires
        mds@.len() == 17,
        forall|i: int| 0 <= i < 17 ==> (#[trigger] mds@[i])@.len() == 17 && seq_wf(mds@[i]@),
        st@.len() == 17,
        seq_wf(st@),
    ensures
        r@.len() == 17,
        seq_wf(r@),
        vals(r@) == mds_apply_spec(mds@.map_values(|row: Vec<Goldilocks>| vals(row@)), vals(st@)),
{
    let ghost mv = mds@.map_values(|row: Vec<Goldilocks>| vals(row@));
    let ghost sv = vals(st@);
    let mut out: Vec<Goldilocks> = Vec::new();
    let mut i: usize = 0;
    while i < 17
        invariant
            i <= 17,
            mds@.len() == 17,
            forall|q: int| 0 <= q < 17 ==> (#[trigger] mds@[q])@.len() == 17 && seq_wf(mds@[q]@),
            st@.len() == 17,
            seq_wf(st@),
            mv == mds@.map_values(|row: Vec<Goldilocks>| vals(row@)),
            sv == vals(st@),
            out@.len() == i,
            forall|q: int| 0 <= q < i as int ==> (#[trigger] out@[q]).wf(),
            forall|q: int| 0 <= q < i as int ==> (#[trigger] out@[q])@ == dot_spec(mv[q], sv, 17),
        decreases 17 - i,
    {
        let row = &mds[i];
        let mut acc = Goldilocks::zero();
        let mut j: usize = 0;
        while j < 17
            invariant
                j <= 17,
                i < 17,
                mds@.len() == 17,
                forall|q: int|
                    0 <= q < 17 ==> (#[trigger] mds@[q])@.len() == 17 && seq_wf(mds@[q]@),
                st@.len() == 17,
                seq_wf(st@),
                mv == mds@.map_values(|row: Vec<Goldilocks>| vals(row@)),
                sv == vals(st@),
                row == &mds@[i as int],
                acc.wf(),
                acc@ == dot_spec(mv[i as int], sv, j as nat),
            decreases 17 - j,
        {
            let a = row[j];
            let b = st[j];
            acc = acc.add(a.mul(b));
            j = j + 1;
        }
        out.push(acc);
        i = i + 1;
    }
    proof {
        assert(vals(out@) =~= mds_apply_spec(mv, sv));
    }
    out
}

/// One full round of the permutation.
fn full_round(st: Vec<Goldilocks>, rc: &Vec<Goldilocks>, mds: &Vec<Vec<Goldilocks>>) -> (r: Vec<
    Goldilocks,
>)
    requires
        st@.len() == 17,
        seq_wf(st@),
        rc@.len() == 17,
        seq_wf(rc@),
        mds@.len() == 17,
        forall|i: int| 0 <= i < 17 ==> (#[trigger] mds@[i])@.len() == 17 && seq_wf(mds@[i]@),
    ensures
        r@.len() == 17,
        seq_wf(r@),
        vals(r@) == full_round_spec(
            vals(st@),
            vals(rc@),
            mds@.map_values(|row: Vec<Goldilocks>| vals(row@)),
        ),
{
    let ghost st0 = vals(st@);
    let mut cur = st;
    let mut i: usize = 0;
    while i < 17
        invariant
            i <= 17,
            cur@.len() == 17,
            seq_wf(cur@),
            rc@.len() == 17,
            seq_wf(rc@),
            st0.len() == 17,
            forall|q: int|
                0 <= q < i as int ==> (#[trigger] cur@[q])@ == sbox5_spec(
                    fadd(st0[q], vals(rc@)[q]),
                ),
            forall|q: int| i as int <= q < 17 ==> (#[trigger] cur@[q])@ == st0[q],
        decreases 17 - i,
    {
        let a = cur[i];
        let b = rc[i];
        let v = sbox5(a.add(b));
        cur.set(i, v);
        i = i + 1;
    }
    proof {
        assert(vals(cur@) =~= Seq::new(
            st0.len(),
            |q: int| sbox5_spec(fadd(st0[q], vals(rc@)[q])),
        ));
    }
    mds_mul_fixed(mds, &cur)
}

/// One partial round of the permutation.
fn partial_round(st: Vec<Goldilocks>, rc: Goldilocks, mds: &Vec<Vec<Goldilocks>>) -> (r: Vec<
    Goldilocks,
>)
    requires
        st@.len() == 17,
        seq_wf(st@),
        rc.wf(),
        mds@.len() == 17,
        forall|i: int| 0 <= i < 17 ==> (#[trigger] mds@[i])@.len() == 17 && seq_wf(mds@[i]@),
    ensures
        r@.len() == 17,
        seq_wf(r@),
        vals(r@) == partial_round_spec(
            vals(st@),
            rc@,
            mds@.map_values(|row: Vec<Goldilocks>| vals(row@)),
        ),
{
    let ghost st0 = vals(st@);
    let mut cur = st;
    let a = cur[0];
    let v = sbox5(a.add(rc));
    cur.set(0, v);
    proof {
        assert(vals(cur@) =~= st0.update(0, sbox5_spec(fadd(st0[0], rc@))));
    }
    mds_mul_fixed(mds, &cur)
}

/// The full permutation applied to a seventeen-element state.
pub fn permute(state: Vec<Goldilocks>, params: &PoseidonParams) -> (r: Vec<Goldilocks>)
    requires
        state@.len() == 17,
        seq_wf(state@),
        params.wf(),
    ensures
        r@.len() == 17,
        seq_wf(r@),
        vals(r@) == permute_spec(vals(state@), *params),
{
    let ghost st0 = vals(state@);
    let ghost m = params.mds_v();
    let mut cur = state;
    let mut r: usize = 0;
    while r < 4
        invariant
            r <= 4,
            params.wf(),
            m == params.mds_v(),
            cur@.len() == 17,
            seq_wf(cur@),
            vals(cur@) == full_rounds_span(st0, params.rc_full_v(), 0, r as nat, m),
        decreases 4 - r,
    {
        cur = full_round(cur, &params.rc_full[r], &params.mds);
        r = r + 1;
    }
    let ghost s1 = vals(cur@);
    let mut r: usize = 0;
    while r < 64
        invariant
            r <= 64,
            params.wf(),
            m == params.mds_v(),
            cur@.len() == 17,
            seq_wf(cur@),
            vals(cur@) == partial_rounds_upto(s1, params.rc_partial_v(), r as nat, m),
        decreases 64 - r,
    {
        let c = params.rc_partial[r];
        cur = partial_round(cur, c, &params.mds);
        proof {
            assert(params.rc_partial_v()[r as int] == params.rc_partial@[r as int]@);
        }
        r = r + 1;
    }
    let ghost s2 = vals(cur@);
    let mut r: usize = 0;
    while r < 4
        invariant
            r <= 4,
            params.wf(),
            m == params.mds_v(),
            cur@.len() == 17,
            seq_wf(cur@),
            vals(cur@) == full_rounds_span(s2, params.rc_full_v(), 4, r as nat, m),
        decreases 4 - r,
    {
        cur = full_round(cur, &params.rc_full[4 + r], &params.mds);
        r = r + 1;
    }
    cur
}

/// Hash of a tagged byte string, mapped into the field: the leading eight
/// digest bytes, little-endian, reduced modulo p.
pub open spec fn fr_from_hash_spec(tag: Seq<u8>, data: Seq<u8>) -> int {
    field_of_bytes(blake3_of(tag + data))
}

/// Hash of a tagged byte string, mapped into the field.
pub fn poseidon_fr_from_hash(tag: &Vec<u8>, data: &Vec<u8>) -> (r: Goldilocks)
    ensures
        r.wf(),
        r@ == fr_from_hash_spec(tag@, data@),
{
    let mut buf: Vec<u8> = Vec::new();
    push_bytes(&mut buf, tag);
    push_bytes(&mut buf, data);
    proof {
        assert(Seq::<u8>::empty() + tag@ + data@ =~= tag@ + data@);
    }
    let d = blake3_digest(&buf);
    field_from_bytes(&d)
}

/// The derived MDS matrix entry at row i, column j.
pub open spec fn mds_entry_spec(seed: Seq<u8>, i: int, j: int) -> int {
    fr_from_hash_spec(
        tag_poseidon_mds(),
        spec_u64_to_le_bytes(i as u64) + spec_u64_to_le_bytes(j as u64) + seed,
    )
}

/// The derived full-round constant at round r, position i.
pub open spec fn rc_full_entry_spec(seed: Seq<u8>, r: int, i: int) -> int {
    fr_from_hash_spec(
        tag_poseidon_rc_full(),
        spec_u64_to_le_bytes(r as u64) + spec_u64_to_le_bytes(i as u64) + seed,
    )
}

/// The derived partial-round constant at round r.
pub open spec fn rc_partial_entry_spec(seed: Seq<u8>, r: int) -> int {
    fr_from_hash_spec(tag_poseidon_rc_part(), spec_u64_to_le_bytes(r as u64) + seed)
}

/// Whether a parameter set is exactly the one derived from a seed.
pub open spec fn params_from_seed(p: PoseidonParams, seed: Seq<u8>) -> bool {
    &&& p.wf()
    &&& forall|i: int, j: int|
        0 <= i < 17 && 0 <= j < 17 ==> #[trigger] p.mds_v()[i][j] == mds_entry_spec(seed, i, j)
    &&& forall|r: int, i: int|
        0 <= r < 8 && 0 <= i < 17 ==> #[trigger] p.rc_full_v()[r][i] == rc_full_entry_spec(
            seed,
            r,
            i,
        )
    &&& forall|r: int| 0 <= r < 64 ==> #[trigger] p.rc_partial_v()[r] == rc_partial_entry_spec(
        seed,
        r,
    )
}

/// Two parameter sets derived from one seed agree on every constant.
pub proof fn lemma_params_from_seed_agree(p1: PoseidonParams, p2: PoseidonParams, seed: Seq<u8>)
    requires
        params_from_seed(p1, seed),
        params_from_seed(p2, seed),
    ensures
        p1.mds_v() == p2.mds_v(),
        p1.rc_full_v() == p2.rc_full_v(),
        p1.rc_partial_v() == p2.rc_partial_v(),
{
    assert forall|i: int| 0 <= i < 17 implies p1.mds_v()[i] == p2.mds_v()[i] by {
        assert(p1.mds_v()[i].len() == 17);
        assert(p2.mds_v()[i].len() == 17);
        assert forall|j: int| 0 <= j < 17 implies p1.mds_v()[i][j] == p2.mds_v()[i][j] by {
            assert(p1.mds_v()[i][j] == mds_entry_spec(seed, i, j));
            assert(p2.mds_v()[i][j] == mds_entry_spec(seed, i, j));
        }
        assert(p1.mds_v()[i] =~= p2.mds_v()[i]);
    }
    assert(p1.mds_v() =~= p2.mds_v());
    assert forall|r: int| 0 <= r < 8 implies p1.rc_full_v()[r] == p2.rc_full_v()[r] by {
        assert(p1.rc_full_v()[r].len() == 17);
        assert(p2.rc_full_v()[r].len() == 17);
        assert forall|i: int| 0 <= i < 17 implies p1.rc_full_v()[r][i] == p2.rc_full_v()[r][i] by {
            assert(p1.rc_full_v()[r][i] == rc_full_entry_spec(seed, r, i));
            assert(p2.rc_full_v()[r][i] == rc_full_entry_spec(seed, r, i));
        }
        assert(p1.rc_full_v()[r] =~= p2.rc_full_v()[r]);
    }
    assert(p1.rc_full_v() =~= p2.rc_full_v());
    assert forall|r: int| 0 <= r < 64 implies p1.rc_partial_v()[r] == p2.rc_partial_v()[r] by {
        assert(p1.rc_partial_v()[r] == rc_partial_entry_spec(seed, r));
        assert(p2.rc_partial_v()[r] == rc_partial_entry_spec(seed, r));
    }
    assert(p1.rc_partial_v() =~= p2.rc_partial_v());
}

/// The permutation depends on the parameters only through their
/// constants.
pub proof fn lemma_permute_spec_congruence(st: Seq<int>, p1: PoseidonParams, p2: PoseidonParams)
    requires
        p1.mds_v() == p2.mds_v(),
        p1.rc_full_v() == p2.rc_full_v(),
        p1.rc_partial_v() == p2.rc_partial_v(),
    ensures
        permute_spec(st, p1) == permute_spec(st, p2),
{
}

/// Derives the full parameter set from a seed, reproducibly.
pub fn generate_params_t17_x5(seed: &Vec<u8>) -> (p: PoseidonParams)
    ensures
        params_from_seed(p, seed@),
{
    let tag_mds = tag_poseidon_mds_bytes();
    let mut mds: Vec<Vec<Goldilocks>> = Vec::new();
    let mut i: usize = 0;
    while i < 17
        invariant
            i <= 17,
            tag_mds@ == tag_poseidon_mds(),
            mds@.len() == i,
            forall|q: int|
                0 <= q < i as int ==> (#[trigger] mds@[q])@.len() == 17 && seq_wf(mds@[q]@),
            forall|q: int, j: int|
                0 <= q < i as int && 0 <= j < 17 ==> (#[trigger] mds@[q]@[j])@ == mds_entry_spec(
                    seed@,
                    q,
                    j,
                ),
        decreases 17 - i,
    {
        let mut row: Vec<Goldilocks> = Vec::new();
        let mut j: usize = 0;
        while j < 17
            invariant
                j <= 17,
                i < 17,
                tag_mds@ == tag_poseidon_mds(),
                row@.len() == j,
                seq_wf(row@),
                forall|q: int|
                    0 <= q < j as int ==> (#[trigger] row@[q])@ == mds_entry_spec(
                        seed@,
                        i as int,
                        q,
                    ),
            decreases 17 - j,
        {
            let mut data: Vec<u8> = Vec::new();
            push_u64_bytes(&mut data, i as u64);
            push_u64_bytes(&mut data, j as u64);
            push_bytes(&mut data, seed);
            proof {
                assert(Seq::<u8>::empty() + spec_u64_to_le_bytes(i as u64) + spec_u64_to_le_bytes(
                    j as u64,
                ) + seed@ =~= spec_u64_to_le_bytes(i as u64) + spec_u64_to_le_bytes(j as u64)
                    + seed@);
            }
            let x = poseidon_fr_from_hash(&tag_mds, &data);
            row.push(x);
            j = j + 1;
        }
        mds.push(row);
        i = i + 1;
    }
    let tag_rcf = tag_poseidon_rc_full_bytes();
    let mut rc_full: Vec<Vec<Goldilocks>> = Vec::new();
    let mut r: usize = 0;
    while r < 8
        invariant
            r <= 8,
            tag_rcf@ == tag_poseidon_rc_full(),
            rc_full@.len() == r,
            forall|q: int|
                0 <= q < r as int ==> (#[trigger] rc_full@[q])@.len() == 17 && seq_wf(
                    rc_full@[q]@,
                ),
            forall|q: int, j: int|
                0 <= q < r as int && 0 <= j < 17 ==> (#[trigger] rc_full@[q]@[j])@
                    == rc_full_entry_spec(seed@, q, j),
        decreases 8 - r,
    {
        let mut row: Vec<Goldilocks> = Vec::new();
        let mut j: usize = 0;
        while j < 17
            invariant
                j <= 17,
                r < 8,
                tag_rcf@ == tag_poseidon_rc_full(),
                row@.len() == j,
                seq_wf(row@),
                forall|q: int|
                    0 <= q < j as int ==> (#[trigger] row@[q])@ == rc_full_entry_spec(
                        seed@,
                        r as int,
                        q,
                    ),
            decreases 17 - j,
        {
            let mut data: Vec<u8> = Vec::new();
            push_u64_bytes(&mut data, r as u64);
            push_u64_bytes(&mut data, j as u64);
            push_bytes(&mut data, seed);
            proof {
                assert(Seq::<u8>::empty() + spec_u64_to_le_bytes(r as u64) + spec_u64_to_le_bytes(
                    j as u64,
                ) + seed@ =~= spec_u64_to_le_bytes(r as u64) + spec_u64_to_le_bytes(j as u64)
                    + seed@);
            }
            let x = poseidon_fr_from_hash(&tag_rcf, &data);
            row.push(x);
            j = j + 1;
        }
        rc_full.push(row);
        r = r + 1;
    }
    let tag_rcp = tag_poseidon_rc_part_bytes();
    let mut rc_partial: Vec<Goldilocks> = Vec::new();
    let mut r: usize = 0;
    while r < 64
        invariant
            r <= 64,
            tag_rcp@ == tag_poseidon_rc_part(),
            rc_partial@.len() == r,
            seq_wf(rc_partial@),
            forall|q: int|
                0 <= q < r as int ==> (#[trigger] rc_partial@[q])@ == rc_partial_entry_spec(
                    seed@,
                    q,
                ),
        decreases 64 - r,
    {
        let mut data: Vec<u8> = Vec::new();
        push_u64_bytes(&mut data, r as u64);
        push_bytes(&mut data, seed);
        proof {
            assert(Seq::<u8>::empty() + spec_u64_to_le_bytes(r as u64) + seed@
                =~= spec_u64_to_le_bytes(r as u64) + seed@);
        }
        let x = poseidon_fr_from_hash(&tag_rcp, &data);
        rc_partial.push(x);
        r = r + 1;
    }
    PoseidonParams { mds, rc_full, rc_partial }
}

/// The parameter set of the transcript's permutation.
pub fn default_params() -> (p: PoseidonParams)
    ensures
        params_from_seed(p, tag_poseidon_transcript_seed()),
{
    let seed = tag_poseidon_transcript_seed_bytes();
    generate_params_t17_x5(&seed)
}

} // verus!
