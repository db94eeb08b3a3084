//! Transcript-backed prover and verifier channels, and the minimal Merkle
//! channels built on them.

use vstd::prelude::*;
use crate::field::{seq_wf, vals, Goldilocks};
use crate::merkle::{
    arities_reduce, leaf_hash, opening_ok, MerkleChannelCfg, MerkleOpening, MerkleTreeChannel,
};
use crate::tags::{tag_merkle_root, tag_merkle_root_bytes};
use crate::transcript::{tv_absorb_bytes, tv_absorb_field, tv_challenge, Transcript, TranscriptView};

verus! {

/// The transcript state after a labeled field absorb on a channel.
pub open spec fn chan_absorb(v: TranscriptView, label: Seq<u8>, x: Goldilocks) -> TranscriptView {
    tv_absorb_field(tv_absorb_bytes(v, label), x)
}

/// The prover's side of the Fiat-Shamir channel.
pub struct ProverChannel {
    pub tr: Transcript,
}

impl ProverChannel {
    /// The held transcript is well formed.
    pub open spec fn wf(self) -> bool {
        self.tr.wf()
    }

    /// Wraps a transcript.
    pub fn new(tr: Transcript) -> (r: Self)
        ensures
            r.tr == tr,
    {
        ProverChannel { tr }
    }

    /// Direct access to the transcript.
    pub fn transcript_mut(&mut self) -> (r: &mut Transcript)
        ensures
            *r == old(self).tr,
            *final(self) == (ProverChannel { tr: *final(r) }),
    {
        &mut self.tr
    }

    /// Absorbs a labeled field element.
    pub fn absorb_field(&mut self, label: &Vec<u8>, f: &Goldilocks)
        requires
            old(self).wf(),
            f.wf(),
        ensures
            final(self).wf(),
            final(self).tr@ == chan_absorb(old(self).tr@, label@, *f),
    {
        self.tr.absorb_bytes(label);
        self.tr.absorb_field(*f);
    }

    /// Emits one labeled challenge.
    pub fn challenge(&mut self, label: &Vec<u8>) -> (r: Goldilocks)
        requires
            old(self).wf(),
        ensures
            final(self).wf(),
            r.wf(),
            (final(self).tr@, r@) == tv_challenge(old(self).tr@, label@),
    {
        self.tr.challenge(label)
    }
}

/// The verifier's side of the Fiat-Shamir channel.
pub struct VerifierChannel {
    pub tr: Transcript,
}

impl VerifierChannel {
    /// The held transcript is well formed.
    pub open spec fn wf(self) -> bool {
        self.tr.wf()
    }

    /// Wraps a transcript.
    pub fn new(tr: Transcript) -> (r: Self)
        ensures
            r.tr == tr,
    {
        VerifierChannel { tr }
    }

    /// Direct access to the transcript.
    pub fn transcript_mut(&mut self) -> (r: &mut Transcript)
        ensures
            *r == old(self).tr,
            *final(self) == (VerifierChannel { tr: *final(r) }),
    {
        &mut self.tr
    }

    /// Absorbs a labeled field element.
    pub fn absorb_field(&mut self, label: &Vec<u8>, f: &Goldilocks)
        requires
            old(self).wf(),
            f.wf(),
        ensures
            final(self).wf(),
            final(self).tr@ == chan_absorb(old(self).tr@, label@, *f),
    {
        self.tr.absorb_bytes(label);
        self.tr.absorb_field(*f);
    }

    /// Emits one labeled challenge.
    pub fn challenge(&mut self, label: &Vec<u8>) -> (r: Goldilocks)
        requires
            old(self).wf(),
        ensures
            final(self).wf(),
            r.wf(),
            (final(self).tr@, r@) == tv_challenge(old(self).tr@, label@),
    {
        self.tr.challenge(label)
    }
}

/// A Merkle commitment bound to a prover channel: each committed root is
/// absorbed into the channel's transcript.
pub struct MerkleProver {
    pub chan: ProverChannel,
    pub tree: MerkleTreeChannel,
}

impl MerkleProver {
    /// Channel and tree are well formed, the tree still collecting.
    pub open spec fn wf(self) -> bool {
        self.chan.wf() && self.tree.building()
    }

    /// A fresh Merkle prover over a channel.
    pub fn new(chan: ProverChannel, cfg: MerkleChannelCfg, trace_hash: Vec<u8>) -> (r: Self)
        requires
            chan.wf(),
            trace_hash@.len() == 32,
            cfg.layer_arities@.len() >= 1,
        ensures
            r.wf(),
            r.chan == chan,
            r.tree.cfg == cfg,
            r.tree.trace_hash == trace_hash,
            r.tree.leaves() == Seq::<int>::empty(),
    {
        let tree = MerkleTreeChannel::new(cfg, trace_hash);
        MerkleProver { chan, tree }
    }

    /// Commits to a vector of field elements, each leaf carrying the value
    /// and two zero slots, and absorbs the root into the channel.  Fails
    /// only when the configured arities cannot reduce the tree: on arities
    /// that reduce the leaf count to one node it returns a root.  Leaf i
    /// hashes the tuple (values[i], 0, 0), in input order.
    pub fn commit(&mut self, values: &Vec<Goldilocks>) -> (r: Option<Goldilocks>)
        requires
            old(self).wf(),
            old(self).tree.leaves().len() == 0,
            seq_wf(values@),
            values@.len() >= 1,
        ensures
            r matches Some(root) ==> {
                &&& root.wf()
                &&& final(self).tree.built()
                &&& root@ == final(self).tree.root_val()
                &&& final(self).tree.cfg == old(self).tree.cfg
                &&& final(self).tree.trace_hash == old(self).tree.trace_hash
                &&& final(self).chan.wf()
                &&& final(self).chan.tr@ == chan_absorb(old(self).chan.tr@, tag_merkle_root(), root)
                &&& final(self).tree.leaves().len() == values@.len()
            },
            final(self).tree.leaves() == Seq::new(
                values@.len(),
                |j: int|
                    leaf_hash(
                        old(self).tree.cfg.layer_arities@[0],
                        old(self).tree.cfg.tree_label,
                        old(self).tree.trace_hash@,
                        j,
                        seq![values@[j]@, 0int, 0int],
                    ),
            ),
            (arities_reduce(values@.len() as int, old(self).tree.cfg.layer_arities@, 0)
                && old(self).tree.cfg.layer_arities@.len() < 4294967293) ==> r is Some,
    {
        let n = values.len();
        let mut i: usize = 0;
        while i < n
            invariant
                i <= n,
                n == values@.len(),
                seq_wf(values@),
                self.chan == old(self).chan,
                self.tree.building(),
                self.chan.wf(),
                self.tree.cfg == old(self).tree.cfg,
                self.tree.trace_hash == old(self).tree.trace_hash,
                self.tree.leaves().len() == i as int,
                self.tree.leaves() == Seq::new(
                    i as nat,
                    |j: int|
                        leaf_hash(
                            old(self).tree.cfg.layer_arities@[0],
                            old(self).tree.cfg.tree_label,
                            old(self).tree.trace_hash@,
                            j,
                            seq![values@[j]@, 0int, 0int],
                        ),
                ),
                i >= 1 ==> self.tree.levels@.len() == 1,
            decreases n - i,
        {
            let zero = Goldilocks::zero();
            let x = values[i];
            let leaf: Vec<Goldilocks> = vec![x, zero, zero];
            self.tree.push_leaf(&leaf);
            proof {
                assert(vals(leaf@) =~= seq![values@[i as int]@, 0int, 0int]);
                assert(self.tree.leaves() =~= Seq::new(
                    (i + 1) as nat,
                    |j: int|
                        leaf_hash(
                            old(self).tree.cfg.layer_arities@[0],
                            old(self).tree.cfg.tree_label,
                            old(self).tree.trace_hash@,
                            j,
                            seq![values@[j]@, 0int, 0int],
                        ),
                ));
            }
            i = i + 1;
        }
        let root = self.tree.finalize();
        match root {
            Some(root) => {
                let label = tag_merkle_root_bytes();
                self.chan.absorb_field(&label, &root);
                Some(root)
            },
            None => None,
        }
    }

    /// Opens the leaf at an index of the committed tree.
    pub fn open(&self, index: usize) -> (r: MerkleOpening)
        requires
            self.tree.built(),
            (index as int) < self.tree.leaves().len(),
        ensures
            r.index == index,
            opening_ok(self.tree.cfg, self.tree.trace_hash@, self.tree.root_val(), r),
    {
        self.tree.open(index)
    }

    /// Emits one labeled challenge from the channel.
    pub fn challenge(&mut self, label: &Vec<u8>) -> (r: Goldilocks)
        requires
            old(self).chan.wf(),
        ensures
            final(self).chan.wf(),
            final(self).tree == old(self).tree,
            r.wf(),
            (final(self).chan.tr@, r@) == tv_challenge(old(self).chan.tr@, label@),
    {
        self.chan.challenge(label)
    }
}

/// The verifier's Merkle channel: it receives a root, absorbs it into the
/// transcript, and checks openings against it.
pub struct MerkleVerifier {
    pub chan: VerifierChannel,
    pub cfg: MerkleChannelCfg,
    pub root: Option<Goldilocks>,
}

impl MerkleVerifier {
    /// The held channel is well formed.
    pub open spec fn wf(self) -> bool {
        self.chan.wf()
    }

    /// A fresh verifier channel with no root yet.
    pub fn new(chan: VerifierChannel, cfg: MerkleChannelCfg) -> (r: Self)
        ensures
            r.chan == chan,
            r.cfg == cfg,
            r.root is None,
    {
        MerkleVerifier { chan, cfg, root: None }
    }

    /// Accepts a root and absorbs it, mirroring the prover's commit.
    pub fn receive_root(&mut self, root: &Goldilocks)
        requires
            old(self).wf(),
            root.wf(),
        ensures
            final(self).wf(),
            final(self).cfg == old(self).cfg,
            final(self).root == Some(*root),
            final(self).chan.tr@ == chan_absorb(old(self).chan.tr@, tag_merkle_root(), *root),
    {
        let label = tag_merkle_root_bytes();
        self.chan.absorb_field(&label, root);
        self.root = Some(*root);
    }

    /// Checks an opening against the received root; no root rejects.
    pub fn verify_opening(&self, opening: &MerkleOpening, trace_hash: &Vec<u8>) -> (r: bool)
        ensures
            r == match self.root {
                Some(rt) => opening_ok(self.cfg, trace_hash@, rt@, *opening),
                None => false,
            },
    {
        match &self.root {
            Some(rt) => MerkleTreeChannel::verify_opening(&self.cfg, *rt, opening, trace_hash),
            None => false,
        }
    }

    /// Emits one labeled challenge from the channel.
    pub fn challenge(&mut self, label: &Vec<u8>) -> (r: Goldilocks)
        requires
            old(self).wf(),
        ensures
            final(self).wf(),
            final(self).cfg == old(self).cfg,
            final(self).root == old(self).root,
            r.wf(),
            (final(self).chan.tr@, r@) == tv_challenge(old(self).chan.tr@, label@),
    {
        self.chan.challenge(label)
    }
}

} // verus!
