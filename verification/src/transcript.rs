//! The Fiat-Shamir transcript: a sponge absorbing labeled byte strings and
//! field elements and emitting challenge field elements.
//!
//! Three hash backends are selectable at construction: the Poseidon sponge
//! over the field, SHA3-256, and BLAKE3.  Every operation is a function of
//! the transcript state and its arguments alone, so two transcripts seeded
//! identically and fed identical sequences produce identical challenges.

use vstd::prelude::*;
use vstd::bytes::spec_u64_to_le_bytes;
use crate::field::{fadd, seq_wf, vals, Goldilocks};
use crate::hash::{
    blake3_of, field_from_bytes, field_of_bytes, push_bytes, push_field_bytes, sha3_256_digest,
    blake3_digest, sha3_256_of, word_at,
};
use crate::poseidon::{permute, permute_spec, PoseidonParams};
use crate::tags::{
    tag_absorb_bytes, tag_absorb_bytes_bytes, tag_challenge, tag_challenge_bytes,
    tag_transcript_init, tag_transcript_init_bytes,
};

verus! {

/// How many eight-byte words a byte string splits into.
pub open spec fn word_count(n: nat) -> nat {
    (n / 8 + if n % 8 == 0 { 0int } else { 1int }) as nat
}

/// The field elements carried by a byte string, eight bytes at a time,
/// little-endian, the last word zero-padded.
pub open spec fn byte_words(s: Seq<u8>) -> Seq<int> {
    Seq::new(word_count(s.len()), |i: int| field_of_bytes(s.skip(8 * i)))
}

/// Reads the first eight little-endian bytes of a label as one field element.
pub fn bytes_to_field_u64(bytes: &Vec<u8>) -> (r: Goldilocks)
    ensures
        r.wf(),
        r@ == field_of_bytes(bytes@),
{
    field_from_bytes(bytes)
}

/// Reads a domain-separation tag as one field element.
pub fn domain_tag_to_field(tag: &Vec<u8>) -> (r: Goldilocks)
    ensures
        r.wf(),
        r@ == field_of_bytes(tag@),
{
    bytes_to_field_u64(tag)
}

/// Splits a byte string into eight-byte little-endian field words.
pub fn bytes_to_field_words(bytes: &Vec<u8>) -> (r: Vec<Goldilocks>)
    ensures
        seq_wf(r@),
        vals(r@) == byte_words(bytes@),
{
    let n = bytes.len();
    let count = n / 8 + if n % 8 == 0 { 0 } else { 1 };
    let mut out: Vec<Goldilocks> = Vec::new();
    let mut k: usize = 0;
    while k < count
        invariant
            k <= count,
            n == bytes@.len(),
            count == word_count(n as nat),
            out@.len() == k,
            seq_wf(out@),
            forall|q: int| 0 <= q < k as int ==> (#[trigger] out@[q])@ == byte_words(bytes@)[q],
        decreases count - k,
    {
        proof {
            assert(8 * k < n) by {
                assert(k < count);
            };
        }
        let w = word_at(bytes, 8 * k);
        let x = Goldilocks::from_u64(w);
        out.push(x);
        k = k + 1;
    }
    proof {
        assert(vals(out@) =~= byte_words(bytes@));
    }
    out
}

/// The abstract state of the Poseidon sponge backend.
pub ghost struct SpongeView {
    pub state: Seq<int>,
    pub pos: int,
}

/// One field element absorbed: permute when the rate is full, then add the
/// value into the cell at the running position.
pub open spec fn pb_absorb1(v: SpongeView, params: PoseidonParams, x: int) -> SpongeView {
    if v.pos == 16 {
        let s = permute_spec(v.state, params);
        SpongeView { state: s.update(0, fadd(s[0], x)), pos: 1 }
    } else {
        SpongeView { state: v.state.update(v.pos, fadd(v.state[v.pos], x)), pos: v.pos + 1 }
    }
}

/// A sequence of field elements absorbed in order.
pub open spec fn pb_absorb_seq(v: SpongeView, params: PoseidonParams, xs: Seq<int>) -> SpongeView
    decreases xs.len(),
{
    if xs.len() == 0 {
        v
    } else {
        pb_absorb1(pb_absorb_seq(v, params, xs.drop_last()), params, xs.last())
    }
}

/// A labeled byte absorb: the byte tag word, then the byte words.
pub open spec fn pb_absorb_bytes(v: SpongeView, params: PoseidonParams, bytes: Seq<u8>) -> SpongeView {
    pb_absorb_seq(pb_absorb1(v, params, field_of_bytes(tag_absorb_bytes())), params, byte_words(bytes))
}

/// A challenge: absorb the challenge tag and the label, permute, read cell
/// zero, and reset the position.
pub open spec fn pb_challenge(v: SpongeView, params: PoseidonParams, label: Seq<u8>) -> (
    SpongeView,
    int,
) {
    let v1 = pb_absorb1(v, params, field_of_bytes(tag_challenge()));
    let v2 = pb_absorb_bytes(v1, params, label);
    let s = permute_spec(v2.state, params);
    (SpongeView { state: s, pos: 0 }, s[0])
}

/// The fresh sponge: a zero state with the init tag in the capacity cell,
/// then the init label absorbed.
pub open spec fn pb_init(params: PoseidonParams, init_label: Seq<u8>) -> SpongeView {
    let st0 = Seq::new(17, |i: int| if i == 16 { field_of_bytes(tag_transcript_init()) } else { 0int });
    pb_absorb_bytes(SpongeView { state: st0, pos: 0 }, params, init_label)
}

/// One absorb depends on the parameters only through their constants.
pub proof fn lemma_pb_absorb1_congruence(
    v: SpongeView,
    p1: PoseidonParams,
    p2: PoseidonParams,
    x: int,
)
    requires
        p1.mds_v() == p2.mds_v(),
        p1.rc_full_v() == p2.rc_full_v(),
        p1.rc_partial_v() == p2.rc_partial_v(),
    ensures
        pb_absorb1(v, p1, x) == pb_absorb1(v, p2, x),
{
    crate::poseidon::lemma_permute_spec_congruence(v.state, p1, p2);
}

/// An absorbed run depends on the parameters only through their
/// constants.
pub proof fn lemma_pb_absorb_seq_congruence(
    v: SpongeView,
    p1: PoseidonParams,
    p2: PoseidonParams,
    xs: Seq<int>,
)
    requires
        p1.mds_v() == p2.mds_v(),
        p1.rc_full_v() == p2.rc_full_v(),
        p1.rc_partial_v() == p2.rc_partial_v(),
    ensures
        pb_absorb_seq(v, p1, xs) == pb_absorb_seq(v, p2, xs),
    decreases xs.len(),
{
    if xs.len() > 0 {
        lemma_pb_absorb_seq_congruence(v, p1, p2, xs.drop_last());
        lemma_pb_absorb1_congruence(pb_absorb_seq(v, p1, xs.drop_last()), p1, p2, xs.last());
    }
}

/// A labeled byte absorb depends on the parameters only through their
/// constants.
pub proof fn lemma_pb_absorb_bytes_congruence(
    v: SpongeView,
    p1: PoseidonParams,
    p2: PoseidonParams,
    bytes: Seq<u8>,
)
    requires
        p1.mds_v() == p2.mds_v(),
        p1.rc_full_v() == p2.rc_full_v(),
        p1.rc_partial_v() == p2.rc_partial_v(),
    ensures
        pb_absorb_bytes(v, p1, bytes) == pb_absorb_bytes(v, p2, bytes),
{
    lemma_pb_absorb1_congruence(v, p1, p2, field_of_bytes(tag_absorb_bytes()));
    lemma_pb_absorb_seq_congruence(
        pb_absorb1(v, p1, field_of_bytes(tag_absorb_bytes())),
        p1,
        p2,
        byte_words(bytes),
    );
}

/// A challenge depends on the parameters only through their constants.
pub proof fn lemma_pb_challenge_congruence(
    v: SpongeView,
    p1: PoseidonParams,
    p2: PoseidonParams,
    label: Seq<u8>,
)
    requires
        p1.mds_v() == p2.mds_v(),
        p1.rc_full_v() == p2.rc_full_v(),
        p1.rc_partial_v() == p2.rc_partial_v(),
    ensures
        pb_challenge(v, p1, label) == pb_challenge(v, p2, label),
{
    lemma_pb_absorb1_congruence(v, p1, p2, field_of_bytes(tag_challenge()));
    let v1 = pb_absorb1(v, p1, field_of_bytes(tag_challenge()));
    lemma_pb_absorb_bytes_congruence(v1, p1, p2, label);
    crate::poseidon::lemma_permute_spec_congruence(pb_absorb_bytes(v1, p1, label).state, p1, p2);
}

/// The fresh sponge depends on the parameters only through their
/// constants.
pub proof fn lemma_pb_init_congruence(p1: PoseidonParams, p2: PoseidonParams, init_label: Seq<u8>)
    requires
        p1.mds_v() == p2.mds_v(),
        p1.rc_full_v() == p2.rc_full_v(),
        p1.rc_partial_v() == p2.rc_partial_v(),
    ensures
        pb_init(p1, init_label) == pb_init(p2, init_label),
{
    let st0 = Seq::new(
        17,
        |i: int| if i == 16 {
            field_of_bytes(tag_transcript_init())
        } else {
            0int
        },
    );
    lemma_pb_absorb_bytes_congruence(SpongeView { state: st0, pos: 0 }, p1, p2, init_label);
}

/// The Poseidon sponge backend: a width-17 state and a rate position.
pub struct PoseidonBackend {
    pub state: Vec<Goldilocks>,
    pub pos: usize,
    pub params: PoseidonParams,
}

impl View for PoseidonBackend {
    type V = SpongeView;

    open spec fn view(&self) -> SpongeView {
        SpongeView { state: vals(self.state@), pos: self.pos as int }
    }
}

impl PoseidonBackend {
    /// The state has width 17 and the position stays within the rate.
    pub open spec fn wf(self) -> bool {
        &&& self.state@.len() == 17
        &&& seq_wf(self.state@)
        &&& self.pos <= 16
        &&& self.params.wf()
    }

    /// A fresh sponge seeded with the init tag and label.
    pub fn new(params: PoseidonParams, init_label: &Vec<u8>) -> (r: Self)
        requires
            params.wf(),
        ensures
            r.wf(),
            r.params == params,
            r@ == pb_init(params, init_label@),
    {
        let mut state: Vec<Goldilocks> = Vec::new();
        let mut i: usize = 0;
        while i < 17
            invariant
                i <= 17,
                state@.len() == i,
                forall|q: int| 0 <= q < i as int ==> (#[trigger] state@[q])@ == 0,
                forall|q: int| 0 <= q < i as int ==> (#[trigger] state@[q]).wf(),
            decreases 17 - i,
        {
            state.push(Goldilocks::zero());
            i = i + 1;
        }
        let tagv = tag_transcript_init_bytes();
        let tagf = domain_tag_to_field(&tagv);
        state.set(16, tagf);
        let mut s = PoseidonBackend { state, pos: 0, params };
        proof {
            assert(vals(s.state@) =~= Seq::new(
                17,
                |i: int| if i == 16 { field_of_bytes(tag_transcript_init()) } else { 0int },
            ));
        }
        s.absorb_bytes(init_label);
        s
    }

    /// Absorbs one field element into the rate.
    pub fn absorb_field_internal(&mut self, x: Goldilocks)
        requires
            old(self).wf(),
            x.wf(),
        ensures
            final(self).wf(),
            final(self).params == old(self).params,
            final(self)@ == pb_absorb1(old(self)@, old(self).params, x@),
    {
        if self.pos == 16 {
            let mut st: Vec<Goldilocks> = Vec::new();
            core::mem::swap(&mut st, &mut self.state);
            let st2 = permute(st, &self.params);
            self.state = st2;
            self.pos = 0;
        }
        let cur = self.state[self.pos];
        let nv = cur.add(x);
        self.state.set(self.pos, nv);
        self.pos = self.pos + 1;
        proof {
            assert(vals(self.state@) =~= pb_absorb1(old(self)@, old(self).params, x@).state);
        }
    }

    /// Absorbs a labeled byte string: the byte tag, then the byte words.
    pub fn absorb_bytes(&mut self, bytes: &Vec<u8>)
        requires
            old(self).wf(),
        ensures
            final(self).wf(),
            final(self).params == old(self).params,
            final(self)@ == pb_absorb_bytes(old(self)@, old(self).params, bytes@),
    {
        let tagv = tag_absorb_bytes_bytes();
        let tagf = domain_tag_to_field(&tagv);
        self.absorb_field_internal(tagf);
        let ghost v1 = self@;
        let words = bytes_to_field_words(bytes);
        let ghost ws = byte_words(bytes@);
        let n = words.len();
        let mut i: usize = 0;
        while i < n
            invariant
                i <= n,
                n == words@.len(),
                seq_wf(words@),
                vals(words@) == ws,
                self.wf(),
                self.params == old(self).params,
                self@ == pb_absorb_seq(v1, old(self).params, ws.subrange(0, i as int)),
            decreases n - i,
        {
            let x = words[i];
            self.absorb_field_internal(x);
            proof {
                assert(ws.subrange(0, i as int + 1).drop_last() =~= ws.subrange(0, i as int));
                assert(ws.subrange(0, i as int + 1).last() == ws[i as int]);
                assert(vals(words@)[i as int] == words@[i as int]@);
            }
            i = i + 1;
        }
        proof {
            assert(ws.subrange(0, n as int) =~= ws);
        }
    }

    /// Absorbs one field element.
    pub fn absorb_field(&mut self, x: Goldilocks)
        requires
            old(self).wf(),
            x.wf(),
        ensures
            final(self).wf(),
            final(self).params == old(self).params,
            final(self)@ == pb_absorb1(old(self)@, old(self).params, x@),
    {
        self.absorb_field_internal(x);
    }

    /// Permutes and reads cell zero.
    pub fn squeeze(&mut self) -> (r: Goldilocks)
        requires
            old(self).wf(),
        ensures
            final(self).wf(),
            final(self).params == old(self).params,
            final(self)@ == (SpongeView {
                state: permute_spec(old(self)@.state, old(self).params),
                pos: 0,
            }),
            r.wf(),
            r@ == permute_spec(old(self)@.state, old(self).params)[0],
    {
        let mut st: Vec<Goldilocks> = Vec::new();
        core::mem::swap(&mut st, &mut self.state);
        let st2 = permute(st, &self.params);
        self.state = st2;
        self.pos = 0;
        self.state[0]
    }

    /// Emits one labeled challenge.
    pub fn challenge(&mut self, label: &Vec<u8>) -> (r: Goldilocks)
        requires
            old(self).wf(),
        ensures
            final(self).wf(),
            final(self).params == old(self).params,
            (final(self)@, r@) == pb_challenge(old(self)@, old(self).params, label@),
            r.wf(),
    {
        let tagv = tag_challenge_bytes();
        let tagf = domain_tag_to_field(&tagv);
        self.absorb_field_internal(tagf);
        self.absorb_bytes(label);
        self.squeeze()
    }
}

/// The SHA3-256 backend: the log of absorbed bytes; a challenge hashes the
/// log extended by the challenge tag and label.
pub struct Sha3Backend {
    pub buf: Vec<u8>,
}

impl View for Sha3Backend {
    type V = Seq<u8>;

    open spec fn view(&self) -> Seq<u8> {
        self.buf@
    }
}

impl Sha3Backend {
    /// A fresh backend holding the init tag and label.
    pub fn new(init_label: &Vec<u8>) -> (r: Self)
        ensures
            r@ == tag_transcript_init() + init_label@,
    {
        let mut buf = tag_transcript_init_bytes();
        push_bytes(&mut buf, init_label);
        Sha3Backend { buf }
    }

    /// Absorbs a labeled byte string.
    pub fn absorb_bytes(&mut self, bytes: &Vec<u8>)
        ensures
            final(self)@ == old(self)@ + tag_absorb_bytes() + bytes@,
    {
        let tagv = tag_absorb_bytes_bytes();
        push_bytes(&mut self.buf, &tagv);
        push_bytes(&mut self.buf, bytes);
    }

    /// Absorbs the canonical bytes of one field element.
    pub fn absorb_field(&mut self, x: Goldilocks)
        ensures
            final(self)@ == old(self)@ + tag_absorb_bytes() + spec_u64_to_le_bytes(x.v),
    {
        let tagv = tag_absorb_bytes_bytes();
        push_bytes(&mut self.buf, &tagv);
        push_field_bytes(&mut self.buf, x);
    }

    /// Emits one labeled challenge without consuming the log.
    pub fn challenge(&mut self, label: &Vec<u8>) -> (r: Goldilocks)
        ensures
            final(self)@ == old(self)@,
            r.wf(),
            r@ == field_of_bytes(sha3_256_of(old(self)@ + tag_challenge() + label@)),
    {
        let mut data: Vec<u8> = Vec::new();
        push_bytes(&mut data, &self.buf);
        let tagv = tag_challenge_bytes();
        push_bytes(&mut data, &tagv);
        push_bytes(&mut data, label);
        proof {
            assert(Seq::<u8>::empty() + self.buf@ + tag_challenge() + label@ =~= self.buf@
                + tag_challenge() + label@);
        }
        let d = sha3_256_digest(&data);
        field_from_bytes(&d)
    }
}

/// The BLAKE3 backend: the log of absorbed bytes; a challenge hashes the
/// log extended by the challenge tag and label.
pub struct Blake3Backend {
    pub buf: Vec<u8>,
}

impl View for Blake3Backend {
    type V = Seq<u8>;

    open spec fn view(&self) -> Seq<u8> {
        self.buf@
    }
}

impl Blake3Backend {
    /// A fresh backend holding the init tag and label.
    pub fn new(init_label: &Vec<u8>) -> (r: Self)
        ensures
            r@ == tag_transcript_init() + init_label@,
    {
        let mut buf = tag_transcript_init_bytes();
        push_bytes(&mut buf, init_label);
        Blake3Backend { buf }
    }

    /// Absorbs a labeled byte string.
    pub fn absorb_bytes(&mut self, bytes: &Vec<u8>)
        ensures
            final(self)@ == old(self)@ + tag_absorb_bytes() + bytes@,
    {
        let tagv = tag_absorb_bytes_bytes();
        push_bytes(&mut self.buf, &tagv);
        push_bytes(&mut self.buf, bytes);
    }

    /// Absorbs the canonical bytes of one field element.
    pub fn absorb_field(&mut self, x: Goldilocks)
        ensures
            final(self)@ == old(self)@ + tag_absorb_bytes() + spec_u64_to_le_bytes(x.v),
    {
        let tagv = tag_absorb_bytes_bytes();
        push_bytes(&mut self.buf, &tagv);
        push_field_bytes(&mut self.buf, x);
    }

    /// Emits one labeled challenge without consuming the log.
    pub fn challenge(&mut self, label: &Vec<u8>) -> (r: Goldilocks)
        ensures
            final(self)@ == old(self)@,
            r.wf(),
            r@ == field_of_bytes(blake3_of(old(self)@ + tag_challenge() + label@)),
    {
        let mut data: Vec<u8> = Vec::new();
        push_bytes(&mut data, &self.buf);
        let tagv = tag_challenge_bytes();
        push_bytes(&mut data, &tagv);
        push_bytes(&mut data, label);
        proof {
            assert(Seq::<u8>::empty() + self.buf@ + tag_challenge() + label@ =~= self.buf@
                + tag_challenge() + label@);
        }
        let d = blake3_digest(&data);
        field_from_bytes(&d)
    }
}

/// The selectable hash backends.
#[derive(Clone, Copy, Debug, PartialEq, Eq, Structural)]
pub enum FsHash {
    Poseidon,
    Sha3_256,
    Blake3,
}

/// The common interface of the hash backends: each operation keeps the
/// backend well formed and returns a canonical challenge.
pub trait HashBackend {
    /// The backend's own well-formedness.
    spec fn backend_wf(&self) -> bool;

    /// A short name for diagnostics.
    fn name(&self) -> &'static str;

    /// Absorbs a labeled byte string.
    fn absorb_bytes(&mut self, bytes: &Vec<u8>)
        requires
            old(self).backend_wf(),
        ensures
            final(self).backend_wf(),
    ;

    /// Absorbs one field element.
    fn absorb_field(&mut self, x: Goldilocks)
        requires
            old(self).backend_wf(),
            x.wf(),
        ensures
            final(self).backend_wf(),
    ;

    /// Emits one labeled challenge.
    fn challenge(&mut self, label: &Vec<u8>) -> (r: Goldilocks)
        requires
            old(self).backend_wf(),
        ensures
            final(self).backend_wf(),
            r.wf(),
    ;
}

impl HashBackend for PoseidonBackend {
    open spec fn backend_wf(&self) -> bool {
        self.wf()
    }

    fn name(&self) -> &'static str {
        "poseidon"
    }

    fn absorb_bytes(&mut self, bytes: &Vec<u8>) {
        PoseidonBackend::absorb_bytes(self, bytes);
    }

    fn absorb_field(&mut self, x: Goldilocks) {
        PoseidonBackend::absorb_field(self, x);
    }

    fn challenge(&mut self, label: &Vec<u8>) -> (r: Goldilocks) {
        PoseidonBackend::challenge(self, label)
    }
}

impl HashBackend for Sha3Backend {
    open spec fn backend_wf(&self) -> bool {
        true
    }

    fn name(&self) -> &'static str {
        "sha3-256"
    }

    fn absorb_bytes(&mut self, bytes: &Vec<u8>) {
        Sha3Backend::absorb_bytes(self, bytes);
    }

    fn absorb_field(&mut self, x: Goldilocks) {
        Sha3Backend::absorb_field(self, x);
    }

    fn challenge(&mut self, label: &Vec<u8>) -> (r: Goldilocks) {
        Sha3Backend::challenge(self, label)
    }
}

impl HashBackend for Blake3Backend {
    open spec fn backend_wf(&self) -> bool {
        true
    }

    fn name(&self) -> &'static str {
        "blake3"
    }

    fn absorb_bytes(&mut self, bytes: &Vec<u8>) {
        Blake3Backend::absorb_bytes(self, bytes);
    }

    fn absorb_field(&mut self, x: Goldilocks) {
        Blake3Backend::absorb_field(self, x);
    }

    fn challenge(&mut self, label: &Vec<u8>) -> (r: Goldilocks) {
        Blake3Backend::challenge(self, label)
    }
}

/// The concrete backend held by a transcript.
pub enum BackendState {
    Poseidon(PoseidonBackend),
    Sha3(Sha3Backend),
    Blake3(Blake3Backend),
}

/// The abstract state of a transcript: which backend, and its state.
pub ghost enum TranscriptView {
    Poseidon { sponge: SpongeView, params: PoseidonParams },
    Sha3 { log: Seq<u8> },
    Blake3 { log: Seq<u8> },
}

/// The next abstract state after a labeled byte absorb.
pub open spec fn tv_absorb_bytes(v: TranscriptView, bytes: Seq<u8>) -> TranscriptView {
    match v {
        TranscriptView::Poseidon { sponge, params } => TranscriptView::Poseidon {
            sponge: pb_absorb_bytes(sponge, params, bytes),
            params,
        },
        TranscriptView::Sha3 { log } => TranscriptView::Sha3 {
            log: log + tag_absorb_bytes() + bytes,
        },
        TranscriptView::Blake3 { log } => TranscriptView::Blake3 {
            log: log + tag_absorb_bytes() + bytes,
        },
    }
}

/// The next abstract state after one field element is absorbed.
pub open spec fn tv_absorb_field(v: TranscriptView, x: Goldilocks) -> TranscriptView {
    match v {
        TranscriptView::Poseidon { sponge, params } => TranscriptView::Poseidon {
            sponge: pb_absorb1(sponge, params, x@),
            params,
        },
        TranscriptView::Sha3 { log } => TranscriptView::Sha3 {
            log: log + tag_absorb_bytes() + spec_u64_to_le_bytes(x.v),
        },
        TranscriptView::Blake3 { log } => TranscriptView::Blake3 {
            log: log + tag_absorb_bytes() + spec_u64_to_le_bytes(x.v),
        },
    }
}

/// The next abstract state and the emitted challenge for a label.
pub open spec fn tv_challenge(v: TranscriptView, label: Seq<u8>) -> (TranscriptView, int) {
    match v {
        TranscriptView::Poseidon { sponge, params } => {
            let (s, c) = pb_challenge(sponge, params, label);
            (TranscriptView::Poseidon { sponge: s, params }, c)
        },
        TranscriptView::Sha3 { log } => (
            v,
            field_of_bytes(sha3_256_of(log + tag_challenge() + label)),
        ),
        TranscriptView::Blake3 { log } => (
            v,
            field_of_bytes(blake3_of(log + tag_challenge() + label)),
        ),
    }
}

/// A Fiat-Shamir transcript over a selectable hash backend.
pub struct Transcript {
    pub backend: BackendState,
}

impl View for Transcript {
    type V = TranscriptView;

    open spec fn view(&self) -> TranscriptView {
        match self.backend {
            BackendState::Poseidon(b) => TranscriptView::Poseidon { sponge: b@, params: b.params },
            BackendState::Sha3(b) => TranscriptView::Sha3 { log: b@ },
            BackendState::Blake3(b) => TranscriptView::Blake3 { log: b@ },
        }
    }
}

impl Transcript {
    /// The held backend is well formed.
    pub open spec fn wf(self) -> bool {
        match self.backend {
            BackendState::Poseidon(b) => b.wf(),
            BackendState::Sha3(b) => true,
            BackendState::Blake3(b) => true,
        }
    }

    /// A fresh transcript over the chosen backend.
    pub fn with_backend(hash: FsHash, init_label: &Vec<u8>, params: PoseidonParams) -> (r: Self)
        requires
            params.wf(),
        ensures
            r.wf(),
            hash == FsHash::Poseidon ==> r@ == (TranscriptView::Poseidon {
                sponge: pb_init(params, init_label@),
                params,
            }),
            hash == FsHash::Sha3_256 ==> r@ == (TranscriptView::Sha3 {
                log: tag_transcript_init() + init_label@,
            }),
            hash == FsHash::Blake3 ==> r@ == (TranscriptView::Blake3 {
                log: tag_transcript_init() + init_label@,
            }),
    {
        match hash {
            FsHash::Poseidon => Transcript {
                backend: BackendState::Poseidon(PoseidonBackend::new(params, init_label)),
            },
            FsHash::Sha3_256 => Transcript {
                backend: BackendState::Sha3(Sha3Backend::new(init_label)),
            },
            FsHash::Blake3 => Transcript {
                backend: BackendState::Blake3(Blake3Backend::new(init_label)),
            },
        }
    }

    /// A fresh transcript over the default Poseidon backend.
    pub fn new(init_label: &Vec<u8>, params: PoseidonParams) -> (r: Self)
        requires
            params.wf(),
        ensures
            r.wf(),
            r@ == (TranscriptView::Poseidon { sponge: pb_init(params, init_label@), params }),
    {
        Self::with_backend(FsHash::Poseidon, init_label, params)
    }

    /// Absorbs a labeled byte string.
    pub fn absorb_bytes(&mut self, bytes: &Vec<u8>)
        requires
            old(self).wf(),
        ensures
            final(self).wf(),
            final(self)@ == tv_absorb_bytes(old(self)@, bytes@),
    {
        match &mut self.backend {
            BackendState::Poseidon(b) => b.absorb_bytes(bytes),
            BackendState::Sha3(b) => b.absorb_bytes(bytes),
            BackendState::Blake3(b) => b.absorb_bytes(bytes),
        }
    }

    /// Absorbs one field element.
    pub fn absorb_field(&mut self, x: Goldilocks)
        requires
            old(self).wf(),
            x.wf(),
        ensures
            final(self).wf(),
            final(self)@ == tv_absorb_field(old(self)@, x),
    {
        match &mut self.backend {
            BackendState::Poseidon(b) => b.absorb_field(x),
            BackendState::Sha3(b) => b.absorb_field(x),
            BackendState::Blake3(b) => b.absorb_field(x),
        }
    }

    /// Emits one labeled challenge field element.
    pub fn challenge(&mut self, label: &Vec<u8>) -> (r: Goldilocks)
        requires
            old(self).wf(),
        ensures
            final(self).wf(),
            r.wf(),
            (final(self)@, r@) == tv_challenge(old(self)@, label@),
    {
        match &mut self.backend {
            BackendState::Poseidon(b) => b.challenge(label),
            BackendState::Sha3(b) => b.challenge(label),
            BackendState::Blake3(b) => b.challenge(label),
        }
    }
}

/// Transcript determinism: two transcripts in equal abstract states give
/// equal next states for equal absorbs, and equal challenges with equal
/// next states for equal labels, whatever the backend.  Induction over any
/// common call trace then yields identical challenge sequences.
pub proof fn lemma_transcript_determinism(
    v1: TranscriptView,
    v2: TranscriptView,
    bytes: Seq<u8>,
    x: Goldilocks,
    label: Seq<u8>,
)
    requires
        v1 == v2,
    ensures
        tv_absorb_bytes(v1, bytes) == tv_absorb_bytes(v2, bytes),
        tv_absorb_field(v1, x) == tv_absorb_field(v2, x),
        tv_challenge(v1, label) == tv_challenge(v2, label),
{
}

} // verus!
