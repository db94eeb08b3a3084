//! The domain-separated, configurable-arity Merkle commitment tree over
//! field elements.
//!
//! Every node hash binds a 32-byte header (arity, level, position, tree
//! label), the 32-byte trace hash, and the children; the byte hash is
//! SHA3-256, truncated to eight bytes and reduced into the field.  When a
//! level's width is not a multiple of its arity the last node pads the
//! final group.

use vstd::prelude::*;
use vstd::bytes::spec_u64_to_le_bytes;
use crate::field::{seq_wf, vals, Goldilocks};
use crate::hash::{
    field_from_bytes, field_of_bytes, push_bytes, push_field_bytes, push_u64_bytes,
    sha3_256_digest, sha3_256_of,
};

verus! {

/// The level tag reserved for leaves.
pub const LEAF_LEVEL_DS: u32 = 4294967295;

/// The domain-separation header of one hash: arity, level, position and
/// tree label, serialized as four little-endian words.
#[derive(Clone, Copy, Debug)]
pub struct DsLabel {
    pub arity: usize,
    pub level: u32,
    pub position: u64,
    pub tree_label: u64,
}

impl DsLabel {
    /// The 32 header bytes.
    pub open spec fn to_bytes_spec(self) -> Seq<u8> {
        spec_u64_to_le_bytes(self.arity as u64) + spec_u64_to_le_bytes(self.level as u64)
            + spec_u64_to_le_bytes(self.position) + spec_u64_to_le_bytes(self.tree_label)
    }

    /// Serializes the header.
    pub fn to_bytes(self) -> (r: Vec<u8>)
        ensures
            r@ == self.to_bytes_spec(),
            r@.len() == 32,
    {
        let mut out: Vec<u8> = Vec::new();
        push_u64_bytes(&mut out, self.arity as u64);
        push_u64_bytes(&mut out, self.level as u64);
        push_u64_bytes(&mut out, self.position);
        push_u64_bytes(&mut out, self.tree_label);
        proof {
            assert(Seq::<u8>::empty() + spec_u64_to_le_bytes(self.arity as u64)
                + spec_u64_to_le_bytes(self.level as u64) + spec_u64_to_le_bytes(self.position)
                + spec_u64_to_le_bytes(self.tree_label) =~= self.to_bytes_spec());
        }
        out
    }
}

/// The canonical bytes of a run of field values.
pub open spec fn fields_bytes(cs: Seq<int>) -> Seq<u8>
    decreases cs.len(),
{
    if cs.len() == 0 {
        Seq::empty()
    } else {
        fields_bytes(cs.drop_last()) + spec_u64_to_le_bytes(cs.last() as u64)
    }
}

/// The hash of one node: header, trace hash and children, through
/// SHA3-256, truncated to eight bytes and reduced into the field.
pub open spec fn node_hash(ds: DsLabel, trace: Seq<u8>, children: Seq<int>) -> int {
    field_of_bytes(sha3_256_of(ds.to_bytes_spec() + trace + fields_bytes(children)))
}

/// Tree parameters: per-level arities and a 64-bit tree label.
#[derive(Clone)]
pub struct MerkleChannelCfg {
    pub layer_arities: Vec<usize>,
    pub tree_label: u64,
}

impl MerkleChannelCfg {
    /// Builds a configuration from its parts.
    pub fn new(layer_arities: Vec<usize>, tree_label: u64) -> (r: Self)
        ensures
            r.layer_arities == layer_arities,
            r.tree_label == tree_label,
    {
        MerkleChannelCfg { layer_arities, tree_label }
    }
}

/// One opening: the hashed leaf, the per-level sibling groups, and the
/// leaf index.
#[derive(Clone, Debug)]
pub struct MerkleOpening {
    pub leaf: Goldilocks,
    pub path: Vec<Vec<Goldilocks>>,
    pub index: usize,
}

/// A level padded so that its width is a multiple of the arity, repeating
/// the last node.
pub open spec fn padded(level: Seq<int>, arity: int) -> Seq<int> {
    if level.len() % (arity as nat) == 0 {
        level
    } else {
        level + Seq::new((arity as nat - level.len() % (arity as nat)) as nat, |i: int| level.last())
    }
}

/// The width of the parent level over a child level of the given width:
/// the padded width divided by the arity.
pub open spec fn parent_width(n: int, a: int) -> int {
    if n % a == 0 {
        n / a
    } else {
        (n + (a - n % a)) / a
    }
}

/// The configured arities carry a level of the given width down to one
/// node before they run out, each at least two and none overflowing the
/// padding: on such a configuration finalization is owed success.
pub open spec fn arities_reduce(n: int, arities: Seq<usize>, l: int) -> bool
    decreases arities.len() - l,
{
    if n <= 1 {
        true
    } else if l < 0 || l >= arities.len() {
        false
    } else {
        arities[l] >= 2 && n + arities[l] <= usize::MAX && arities_reduce(
            parent_width(n, arities[l] as int),
            arities,
            l + 1,
        )
    }
}

/// The parents of a level: one node hash per padded group.
pub open spec fn parent_level(
    level: Seq<int>,
    arity: int,
    lvl: int,
    tree_label: u64,
    trace: Seq<u8>,
) -> Seq<int> {
    let pd = padded(level, arity);
    Seq::new(
        pd.len() / (arity as nat),
        |i: int|
            node_hash(
                DsLabel {
                    arity: arity as usize,
                    level: lvl as u32,
                    position: i as u64,
                    tree_label,
                },
                trace,
                pd.subrange(i * arity, (i + 1) * arity),
            ),
    )
}

/// The root a level reduces to under the arities from position l on:
/// parent levels are taken until one node is left or the arities run out.
pub open spec fn chain_root_from(
    level: Seq<int>,
    arities: Seq<usize>,
    l: int,
    tree_label: u64,
    trace: Seq<u8>,
) -> int
    decreases arities.len() - l,
{
    if level.len() <= 1 || l < 0 || l >= arities.len() {
        if level.len() >= 1 {
            level[0]
        } else {
            0
        }
    } else {
        chain_root_from(
            parent_level(level, arities[l] as int, l + 1, tree_label, trace),
            arities,
            l + 1,
            tree_label,
            trace,
        )
    }
}

/// The root of a finished tree is the chain root of any of its levels,
/// and in particular of its leaves.
pub proof fn lemma_built_root(t: MerkleTreeChannel, l: int)
    requires
        t.built(),
        0 <= l < t.levels@.len(),
    ensures
        chain_root_from(
            vals(t.levels@[l]@),
            t.cfg.layer_arities@,
            l,
            t.cfg.tree_label,
            t.trace_hash@,
        ) == t.root_val(),
    decreases t.levels@.len() - l,
{
    if l == t.levels@.len() - 1 {
        assert(t.levels@[l] == t.levels@.last());
        assert(vals(t.levels@[l]@).len() == 1);
    } else {
        assert(vals(t.levels@[l]@).len() > 1);
        assert(vals(t.levels@[l + 1]@) == parent_level(
            vals(t.levels@[l]@),
            t.cfg.layer_arities@[l] as int,
            l + 1,
            t.cfg.tree_label,
            t.trace_hash@,
        ));
        lemma_built_root(t, l + 1);
    }
}

/// The hash of a leaf at an index, holding a tuple of field values.
pub open spec fn leaf_hash(
    arity0: usize,
    tree_label: u64,
    trace: Seq<u8>,
    idx: int,
    values: Seq<int>,
) -> int {
    node_hash(
        DsLabel { arity: arity0, level: LEAF_LEVEL_DS, position: idx as u64, tree_label },
        trace,
        values,
    )
}

/// The hash-chain check of an opening, one level at a time: the running
/// value is inserted at its position in the sibling group, hashed with the
/// level's header, and the index shifts down; the chain must end at the
/// root.  A sibling group of the wrong size rejects.
pub open spec fn verify_from(
    arities: Seq<usize>,
    tree_label: u64,
    trace: Seq<u8>,
    root: int,
    cur: int,
    idx: int,
    path: Seq<Seq<int>>,
    l: int,
) -> bool
    decreases path.len() - l,
{
    if l < 0 || l >= path.len() {
        cur == root
    } else if l >= arities.len() || arities[l] < 2 || path[l].len() != arities[l] - 1 || l + 1
        > 0xffff_ffff {
        false
    } else {
        let a = arities[l] as int;
        let pos = idx % a;
        let children = path[l].insert(pos, cur);
        verify_from(
            arities,
            tree_label,
            trace,
            root,
            node_hash(
                DsLabel {
                    arity: arities[l],
                    level: (l + 1) as u32,
                    position: (idx / a) as u64,
                    tree_label,
                },
                trace,
                children,
            ),
            idx / a,
            path,
            l + 1,
        )
    }
}

/// Whether an opening checks out against a root.
pub open spec fn opening_ok(
    cfg: MerkleChannelCfg,
    trace: Seq<u8>,
    root: int,
    opening: MerkleOpening,
) -> bool {
    verify_from(
        cfg.layer_arities@,
        cfg.tree_label,
        trace,
        root,
        opening.leaf@,
        opening.index as int,
        opening.path@.map_values(|lvl: Vec<Goldilocks>| vals(lvl@)),
        0,
    )
}

/// Copies a vector of field elements.
pub fn copy_fields(v: &Vec<Goldilocks>) -> (r: Vec<Goldilocks>)
    ensures
        r@ == v@,
{
    let mut out: Vec<Goldilocks> = Vec::new();
    let n = v.len();
    let mut i: usize = 0;
    while i < n
        invariant
            i <= n,
            n == v@.len(),
            out@.len() == i,
            forall|j: int| 0 <= j < i as int ==> out@[j] == v@[j],
        decreases n - i,
    {
        let x = v[i];
        out.push(x);
        i = i + 1;
    }
    proof {
        assert(out@ =~= v@);
    }
    out
}

/// Builds the parent level of a run of nodes: pad to a multiple of the
/// arity with the last node, then hash each group under its header.
fn build_parents(
    nodes: &Vec<Goldilocks>,
    arity: usize,
    lvl: u32,
    tree_label: u64,
    trace: &Vec<u8>,
) -> (r: Vec<Goldilocks>)
    requires
        arity >= 2,
        nodes@.len() >= 1,
        nodes@.len() + arity <= usize::MAX,
        seq_wf(nodes@),
    ensures
        seq_wf(r@),
        vals(r@) == parent_level(vals(nodes@), arity as int, lvl as int, tree_label, trace@),
        r@.len() >= 1,
        nodes@.len() > 1 ==> r@.len() < nodes@.len(),
{
    let ghost orig = vals(nodes@);
    let width = nodes.len();
    let mut cur = copy_fields(nodes);
    let last = cur[cur.len() - 1];
    let rem = width % arity;
    if rem != 0 {
        let pad = arity - rem;
        let mut k: usize = 0;
        while k < pad
            invariant
                k <= pad,
                pad == arity - rem,
                rem == width % arity,
                rem != 0,
                width == orig.len(),
                width + arity <= usize::MAX,
                arity >= 2,
                seq_wf(cur@),
                cur@.len() == width + k,
                orig == vals(nodes@),
                forall|j: int| 0 <= j < width as int ==> (#[trigger] cur@[j])@ == orig[j],
                forall|j: int|
                    width as int <= j < cur@.len() ==> (#[trigger] cur@[j])@ == orig.last(),
                last@ == orig.last(),
                last.wf(),
            decreases pad - k,
        {
            cur.push(last);
            k = k + 1;
        }
    }
    let ghost pd = padded(orig, arity as int);
    proof {
        assert(pd =~= vals(cur@));
        lemma_padded_len(width as int, arity as int, pd.len() as int);
    }
    let count = cur.len() / arity;
    let mut parents: Vec<Goldilocks> = Vec::new();
    let mut g: usize = 0;
    while g < count
        invariant
            g <= count,
            arity >= 2,
            cur@.len() <= usize::MAX,
            count == cur@.len() / arity as nat,
            cur@.len() % (arity as nat) == 0,
            cur@.len() >= 1,
            seq_wf(cur@),
            pd == vals(cur@),
            trace@.len() == trace@.len(),
            parents@.len() == g,
            seq_wf(parents@),
            forall|q: int|
                0 <= q < g as int ==> (#[trigger] parents@[q])@ == parent_level(
                    orig,
                    arity as int,
                    lvl as int,
                    tree_label,
                    trace@,
                )[q],
            orig == vals(nodes@),
            padded(orig, arity as int) == pd,
        decreases count - g,
    {
        let mut group: Vec<Goldilocks> = Vec::new();
        let mut j: usize = 0;
        while j < arity
            invariant
                j <= arity,
                g < count,
                arity >= 2,
                cur@.len() <= usize::MAX,
                count == cur@.len() / arity as nat,
                cur@.len() % (arity as nat) == 0,
                seq_wf(cur@),
                group@.len() == j,
                seq_wf(group@),
                forall|q: int|
                    0 <= q < j as int ==> group@[q] == cur@[g as int * arity as int + q],
            decreases arity - j,
        {
            proof {
                lemma_bucket_in_range(g as int, arity as int, cur@.len() as int);
            }
            let x = cur[g * arity + j];
            group.push(x);
            j = j + 1;
        }
        let ds = DsLabel { arity, level: lvl, position: g as u64, tree_label };
        let h = compress(ds, trace, &group);
        proof {
            lemma_bucket_in_range(g as int, arity as int, cur@.len() as int);
            assert((g as int + 1) * (arity as int) == g as int * arity as int + arity as int)
                by (nonlinear_arith);
            assert(vals(group@) =~= pd.subrange(
                g as int * arity as int,
                (g as int + 1) * arity as int,
            ));
            assert(parent_level(orig, arity as int, lvl as int, tree_label, trace@).len()
                == count as int);
        }
        parents.push(h);
        g = g + 1;
    }
    proof {
        assert(vals(parents@) =~= parent_level(orig, arity as int, lvl as int, tree_label, trace@));
    }
    parents
}

/// Hashes a header, the trace hash, and a run of children.
pub fn compress(ds: DsLabel, trace: &Vec<u8>, children: &Vec<Goldilocks>) -> (r: Goldilocks)
    ensures
        r.wf(),
        r@ == node_hash(ds, trace@, vals(children@)),
{
    let mut buf = ds.to_bytes();
    push_bytes(&mut buf, trace);
    let n = children.len();
    let mut i: usize = 0;
    while i < n
        invariant
            i <= n,
            n == children@.len(),
            buf@ == ds.to_bytes_spec() + trace@ + fields_bytes(vals(children@).subrange(0, i as int)),
        decreases n - i,
    {
        let x = children[i];
        push_field_bytes(&mut buf, x);
        proof {
            let cs = vals(children@);
            assert(cs.subrange(0, i as int + 1).drop_last() =~= cs.subrange(0, i as int));
            assert(cs.subrange(0, i as int + 1).last() == cs[i as int]);
            assert(cs[i as int] == children@[i as int]@);
            assert((children@[i as int]@ as u64) == children@[i as int].v);
            assert(ds.to_bytes_spec() + trace@ + fields_bytes(cs.subrange(0, i as int))
                + spec_u64_to_le_bytes(children@[i as int].v) =~= ds.to_bytes_spec() + trace@
                + fields_bytes(cs.subrange(0, i as int + 1)));
        }
        i = i + 1;
    }
    proof {
        assert(vals(children@).subrange(0, n as int) =~= vals(children@));
        assert(Seq::<u8>::empty() + ds.to_bytes_spec() =~= ds.to_bytes_spec());
    }
    let d = sha3_256_digest(&buf);
    field_from_bytes(&d)
}

/// The tree under construction or finished: leaf level first, then the
/// computed inner levels.
pub struct MerkleTreeChannel {
    pub cfg: MerkleChannelCfg,
    pub trace_hash: Vec<u8>,
    pub levels: Vec<Vec<Goldilocks>>,
}

impl MerkleTreeChannel {
    /// Common shape: a 32-byte trace hash and canonical nodes everywhere.
    pub open spec fn wf_base(self) -> bool {
        &&& self.trace_hash@.len() == 32
        &&& forall|l: int| 0 <= l < self.levels@.len() ==> seq_wf((#[trigger] self.levels@[l])@)
    }

    /// Still collecting leaves: only the leaf level exists.
    pub open spec fn building(self) -> bool {
        &&& self.wf_base()
        &&& self.levels@.len() <= 1
        &&& self.cfg.layer_arities@.len() >= 1
    }

    /// The leaf hashes collected so far.
    pub open spec fn leaves(self) -> Seq<int> {
        if self.levels@.len() == 0 {
            Seq::empty()
        } else {
            vals(self.levels@[0]@)
        }
    }

    /// Finished: each level above the leaves is the parent level of the
    /// one below, and the top level is the root alone.
    pub open spec fn built(self) -> bool {
        &&& self.wf_base()
        &&& self.levels@.len() >= 1
        &&& self.levels@.len() < 0xffff_ffff
        &&& self.levels@.last()@.len() == 1
        &&& forall|l: int|
            0 <= l < self.levels@.len() - 1 ==> {
                &&& (#[trigger] self.levels@[l])@.len() > 1
                &&& l < self.cfg.layer_arities@.len()
                &&& self.cfg.layer_arities@[l] >= 2
                &&& self.levels@[l]@.len() + self.cfg.layer_arities@[l] <= usize::MAX
                &&& vals(self.levels@[l + 1]@) == parent_level(
                    vals(self.levels@[l]@),
                    self.cfg.layer_arities@[l] as int,
                    l + 1,
                    self.cfg.tree_label,
                    self.trace_hash@,
                )
            }
    }

    /// The root of a finished tree.
    pub open spec fn root_val(self) -> int {
        vals(self.levels@.last()@)[0]
    }

    /// A fresh tree bound to a trace hash.
    pub fn new(cfg: MerkleChannelCfg, trace_hash: Vec<u8>) -> (r: Self)
        requires
            trace_hash@.len() == 32,
            cfg.layer_arities@.len() >= 1,
        ensures
            r.building(),
            r.cfg == cfg,
            r.trace_hash == trace_hash,
            r.leaves() == Seq::<int>::empty(),
            r.levels@.len() == 0,
    {
        MerkleTreeChannel { cfg, trace_hash, levels: Vec::new() }
    }

    /// Appends one leaf holding a tuple of field values.
    pub fn push_leaf(&mut self, values: &Vec<Goldilocks>)
        requires
            old(self).building(),
            seq_wf(values@),
        ensures
            final(self).building(),
            final(self).cfg == old(self).cfg,
            final(self).trace_hash == old(self).trace_hash,
            final(self).levels@.len() == 1,
            final(self).leaves() == old(self).leaves().push(
                leaf_hash(
                    old(self).cfg.layer_arities@[0],
                    old(self).cfg.tree_label,
                    old(self).trace_hash@,
                    old(self).leaves().len() as int,
                    vals(values@),
                ),
            ),
    {
        if self.levels.len() == 0 {
            self.levels.push(Vec::new());
        }
        let idx = self.levels[0].len();
        let ds = DsLabel {
            arity: self.cfg.layer_arities[0],
            level: LEAF_LEVEL_DS,
            position: idx as u64,
            tree_label: self.cfg.tree_label,
        };
        let leaf = compress(ds, &self.trace_hash, values);
        let mut level0: Vec<Goldilocks> = Vec::new();
        core::mem::swap(&mut level0, &mut self.levels[0]);
        level0.push(leaf);
        core::mem::swap(&mut level0, &mut self.levels[0]);
        proof {
            assert(self.leaves() =~= old(self).leaves().push(
                leaf_hash(
                    old(self).cfg.layer_arities@[0],
                    old(self).cfg.tree_label,
                    old(self).trace_hash@,
                    old(self).leaves().len() as int,
                    vals(values@),
                ),
            ));
        }
    }

    /// Builds the inner levels and returns the root; fails only when the
    /// configured arities run out before the levels reduce to one node, or
    /// a level is too wide to pad.
    pub fn finalize(&mut self) -> (r: Option<Goldilocks>)
        requires
            old(self).building(),
            old(self).levels@.len() == 1,
            old(self).leaves().len() >= 1,
        ensures
            final(self).cfg == old(self).cfg,
            final(self).trace_hash == old(self).trace_hash,
            final(self).levels@.len() >= 1,
            final(self).levels@[0] == old(self).levels@[0],
            r matches Some(root) ==> final(self).built() && root.wf() && root@
                == final(self).root_val() && root@ == chain_root_from(
                old(self).leaves(),
                old(self).cfg.layer_arities@,
                0,
                old(self).cfg.tree_label,
                old(self).trace_hash@,
            ),
            (arities_reduce(old(self).leaves().len() as int, old(self).cfg.layer_arities@, 0)
                && old(self).cfg.layer_arities@.len() < 4294967293) ==> r is Some,
    {
        let mut level: usize = 0;
        while self.levels[level].len() > 1
            invariant
                self.wf_base(),
                self.cfg == old(self).cfg,
                self.trace_hash == old(self).trace_hash,
                self.levels@.len() == level + 1,
                self.levels@[0] == old(self).levels@[0],
                level < 4294967294,
                self.levels@[level as int]@.len() >= 1,
                old(self).leaves().len() == self.levels@[0]@.len(),
                arities_reduce(
                    old(self).leaves().len() as int,
                    old(self).cfg.layer_arities@,
                    0,
                ) ==> arities_reduce(
                    self.levels@[level as int]@.len() as int,
                    self.cfg.layer_arities@,
                    level as int,
                ),
                forall|l: int|
                    0 <= l < level as int ==> {
                        &&& (#[trigger] self.levels@[l])@.len() > 1
                        &&& l < self.cfg.layer_arities@.len()
                        &&& self.cfg.layer_arities@[l] >= 2
                        &&& self.levels@[l]@.len() + self.cfg.layer_arities@[l] <= usize::MAX
                        &&& vals(self.levels@[l + 1]@) == parent_level(
                            vals(self.levels@[l]@),
                            self.cfg.layer_arities@[l] as int,
                            l + 1,
                            self.cfg.tree_label,
                            self.trace_hash@,
                        )
                    },
            decreases self.levels@[level as int]@.len(),
        {
            let ghost reduces = arities_reduce(
                old(self).leaves().len() as int,
                old(self).cfg.layer_arities@,
                0,
            ) && old(self).cfg.layer_arities@.len() < 4294967293;
            proof {
                if reduces {
                    assert(arities_reduce(
                        self.levels@[level as int]@.len() as int,
                        self.cfg.layer_arities@,
                        level as int,
                    ));
                }
            }
            if level >= self.cfg.layer_arities.len() || level >= 4294967293 {
                return None;
            }
            let arity = self.cfg.layer_arities[level];
            if arity < 2 {
                return None;
            }
            let width = self.levels[level].len();
            if width > usize::MAX - arity {
                return None;
            }
            let parents = build_parents(
                &self.levels[level],
                arity,
                (level as u32) + 1,
                self.cfg.tree_label,
                &self.trace_hash,
            );
            proof {
                let w = width as int;
                let a = arity as int;
                let pd = padded(vals(self.levels@[level as int]@), a);
                if w % a == 0 {
                    assert(pd.len() == w);
                } else {
                    assert(pd.len() == w + (a - w % a));
                }
                assert(parents@.len() == vals(parents@).len());
                assert(vals(parents@) == parent_level(
                    vals(self.levels@[level as int]@),
                    a,
                    level as int + 1,
                    self.cfg.tree_label,
                    self.trace_hash@,
                ));
                assert(vals(parents@).len() == pd.len() / (a as nat));
                assert(parents@.len() as int == pd.len() as int / a);
                assert(parents@.len() as int == parent_width(w, a));
            }
            let ghost pre = *self;
            self.levels.push(parents);
            level = level + 1;
            proof {
                if reduces {
                    assert(arities_reduce(
                        pre.levels@[level as int - 1]@.len() as int,
                        self.cfg.layer_arities@,
                        level as int - 1,
                    ));
                    assert(arities_reduce(
                        self.levels@[level as int]@.len() as int,
                        self.cfg.layer_arities@,
                        level as int,
                    ));
                }
                assert(self.levels@[level as int]@ == parents@);
                assert(self.levels@[level as int - 1] == pre.levels@[level as int - 1]);
                assert forall|l: int| 0 <= l < level as int implies {
                    &&& (#[trigger] self.levels@[l])@.len() > 1
                    &&& l < self.cfg.layer_arities@.len()
                    &&& self.cfg.layer_arities@[l] >= 2
                    &&& self.levels@[l]@.len() + self.cfg.layer_arities@[l] <= usize::MAX
                    &&& vals(self.levels@[l + 1]@) == parent_level(
                        vals(self.levels@[l]@),
                        self.cfg.layer_arities@[l] as int,
                        l + 1,
                        self.cfg.tree_label,
                        self.trace_hash@,
                    )
                } by {
                    assert(self.levels@[l] == pre.levels@[l]);
                    if l < level as int - 1 {
                        assert(self.levels@[l + 1] == pre.levels@[l + 1]);
                    }
                }
            }
        }
        proof {
            assert(self.levels@[level as int] == self.levels@.last());
            lemma_built_root(*self, 0);
            assert(self.leaves() == old(self).leaves());
        }
        let root = self.levels[level][0];
        Some(root)
    }

    /// Opens the leaf at an index of a finished tree.  Opening soundness,
    /// the completeness half: together with the contract of
    /// verify_opening, the last clause here states that every opening
    /// produced from a finished tree verifies against that tree's root.
    #[verifier::spinoff_prover]
    pub fn open(&self, index: usize) -> (r: MerkleOpening)
        requires
            self.built(),
            (index as int) < self.leaves().len(),
        ensures
            r.index == index,
            r.leaf@ == self.leaves()[index as int],
            r.leaf.wf(),
            r.path@.len() == self.levels@.len() - 1,
            opening_ok(self.cfg, self.trace_hash@, self.root_val(), r),
    {
        let depth = self.levels.len() - 1;
        let mut path: Vec<Vec<Goldilocks>> = Vec::new();
        let mut idx: usize = index;
        let mut level: usize = 0;
        while level < depth
            invariant
                self.built(),
                depth == self.levels@.len() - 1,
                level <= depth,
                path@.len() == level,
                (index as int) < self.levels@[0]@.len(),
                (idx as int) < self.levels@[level as int]@.len(),
                idx as int == chain_idx(*self, index as int, level as int),
                forall|l: int| 0 <= l < level as int ==> seq_wf((#[trigger] path@[l])@),
                forall|l: int|
                    0 <= l < level as int ==> vals((#[trigger] path@[l])@) == sibs_of(
                        *self,
                        l,
                        chain_idx(*self, index as int, l),
                    ),
            decreases depth - level,
        {
            let nodes = &self.levels[level];
            let arity = self.cfg.layer_arities[level];
            proof {
                lemma_bucket(idx as int, arity as int);
            }
            let group_start = (idx / arity) * arity;
            let mut group: Vec<Goldilocks> = Vec::new();
            let mut j: usize = 0;
            proof {
                lemma_group_in_padded(
                    vals(self.levels@[level as int]@),
                    arity as int,
                    idx as int,
                );
                assert(padded(vals(self.levels@[level as int]@), arity as int).len()
                    <= self.levels@[level as int]@.len() + arity);
            }
            while j < arity
                invariant
                    j <= arity,
                    arity >= 2,
                    nodes@ == self.levels@[level as int]@,
                    nodes@.len() >= 1,
                    nodes@.len() + arity <= usize::MAX,
                    seq_wf(nodes@),
                    group_start == (idx as int / arity as int) * arity as int,
                    group_start + arity <= padded(vals(nodes@), arity as int).len(),
                    group_start + arity <= nodes@.len() + arity,
                    group@.len() == j,
                    seq_wf(group@),
                    forall|q: int|
                        0 <= q < j as int ==> (#[trigger] group@[q])@ == padded(
                            vals(nodes@),
                            arity as int,
                        )[group_start as int + q],
                decreases arity - j,
            {
                let pos = group_start + j;
                let x = if pos < nodes.len() {
                    nodes[pos]
                } else {
                    nodes[nodes.len() - 1]
                };
                proof {
                    lemma_padded_index(vals(nodes@), arity as int, group_start as int + j as int);
                }
                group.push(x);
                j = j + 1;
            }
            // drop the opened position from the group
            let pos_in_group = idx % arity;
            let mut siblings: Vec<Goldilocks> = Vec::new();
            let mut j: usize = 0;
            while j < arity
                invariant
                    j <= arity,
                    arity >= 2,
                    pos_in_group < arity,
                    group@.len() == arity,
                    seq_wf(group@),
                    siblings@.len() == if j as int <= pos_in_group as int {
                        j as int
                    } else {
                        j as int - 1
                    },
                    seq_wf(siblings@),
                    forall|q: int|
                        0 <= q < j as int && q != pos_in_group as int ==> (#[trigger] group@[q])
                            == siblings@[if q < pos_in_group as int {
                            q
                        } else {
                            q - 1
                        }],
                decreases arity - j,
            {
                if j != pos_in_group {
                    let x = group[j];
                    siblings.push(x);
                }
                j = j + 1;
            }
            proof {
                assert(vals(siblings@) =~= vals(group@).remove(pos_in_group as int));
                assert(vals(group@) =~= group_of(*self, level as int, idx as int));
            }
            path.push(siblings);
            proof {
                lemma_open_step(
                    *self,
                    index as int,
                    level as int,
                    idx as int,
                    vals(group@),
                );
            }
            idx = idx / arity;
            level = level + 1;
        }
        proof {
            lemma_verify_chain(
                *self,
                index as int,
                path@.map_values(|lvl: Vec<Goldilocks>| vals(lvl@)),
                0,
            );
        }
        let leaf = self.levels[0][index];
        MerkleOpening { leaf, path, index }
    }

    /// Checks an opening against a root by walking the hash chain.
    pub fn verify_opening(
        cfg: &MerkleChannelCfg,
        root: Goldilocks,
        opening: &MerkleOpening,
        trace_hash: &Vec<u8>,
    ) -> (r: bool)
        ensures
            r == opening_ok(*cfg, trace_hash@, root@, *opening),
    {
        let mut cur = opening.leaf;
        let mut idx = opening.index;
        let depth = opening.path.len();
        let ghost pmap = opening.path@.map_values(|lvl: Vec<Goldilocks>| vals(lvl@));
        let mut level: usize = 0;
        while level < depth
            invariant
                depth == opening.path@.len(),
                level <= depth,
                pmap == opening.path@.map_values(|lvl: Vec<Goldilocks>| vals(lvl@)),
                opening_ok(*cfg, trace_hash@, root@, *opening) == verify_from(
                    cfg.layer_arities@,
                    cfg.tree_label,
                    trace_hash@,
                    root@,
                    cur@,
                    idx as int,
                    pmap,
                    level as int,
                ),
            decreases depth - level,
        {
            if level >= cfg.layer_arities.len() || level > 4294967294 {
                return false;
            }
            let arity = cfg.layer_arities[level];
            if arity < 2 {
                return false;
            }
            let siblings = &opening.path[level];
            if siblings.len() != arity - 1 {
                return false;
            }
            let pos = idx % arity;
            let mut children: Vec<Goldilocks> = Vec::new();
            let mut j: usize = 0;
            while j < arity
                invariant
                    j <= arity,
                    arity >= 2,
                    pos < arity,
                    pos == idx as int % arity as int,
                    siblings == &opening.path@[level as int],
                    siblings@.len() == arity - 1,
                    children@.len() == j,
                    forall|q: int|
                        0 <= q < j as int ==> children@[q] == (if q < pos as int {
                            siblings@[q]
                        } else if q == pos as int {
                            cur
                        } else {
                            siblings@[q - 1]
                        }),
                decreases arity - j,
            {
                if j == pos {
                    children.push(cur);
                } else if j < pos {
                    let x = siblings[j];
                    children.push(x);
                } else {
                    let x = siblings[j - 1];
                    children.push(x);
                }
                j = j + 1;
            }
            proof {
                assert(vals(children@) =~= pmap[level as int].insert(pos as int, cur@));
            }
            let ds = DsLabel {
                arity,
                level: (level as u32) + 1,
                position: (idx / arity) as u64,
                tree_label: cfg.tree_label,
            };
            cur = compress(ds, trace_hash, &children);
            idx = idx / arity;
            level = level + 1;
        }
        cur.to_u64() == root.to_u64()
    }
}

/// Every index below the padded width reads either the level itself or its
/// repeated last element.
proof fn lemma_padded_index(level: Seq<int>, arity: int, i: int)
    requires
        arity >= 2,
        level.len() >= 1,
        0 <= i < padded(level, arity).len(),
    ensures
        padded(level, arity)[i] == if i < level.len() {
            level[i]
        } else {
            level.last()
        },
{
}

/// Division facts for one bucket of width a.
proof fn lemma_bucket(idx: int, a: int)
    by (nonlinear_arith)
    requires
        a >= 1,
        idx >= 0,
    ensures
        idx == (idx / a) * a + idx % a,
        0 <= idx % a < a,
        ((idx / a) * a) % a == 0,
        idx / a >= 0,
{
}

/// Between two multiples of a there is room for a whole bucket.
proof fn lemma_le_multiple(t: int, pd: int, a: int)
    by (nonlinear_arith)
    requires
        a >= 1,
        t % a == 0,
        pd % a == 0,
        0 <= t < pd,
    ensures
        t + a <= pd,
{
}

/// A full bucket below the width means the bucket index is below the count.
proof fn lemma_bucket_count(g: int, a: int, pd: int)
    by (nonlinear_arith)
    requires
        a >= 1,
        g >= 0,
        pd % a == 0,
        g * a + a <= pd,
    ensures
        g < pd / a,
{
}

/// A bucket index below the count keeps its whole bucket below the width.
proof fn lemma_bucket_in_range(g: int, a: int, pd: int)
    by (nonlinear_arith)
    requires
        a >= 1,
        g >= 0,
        pd >= 0,
        pd % a == 0,
        g < pd / a,
    ensures
        g * a + a <= pd,
{
}

/// The padded width: a multiple of the arity, below one arity above the
/// width, and with fewer buckets than entries once there are two or more.
proof fn lemma_padded_len(n: int, a: int, pd: int)
    by (nonlinear_arith)
    requires
        a >= 2,
        n >= 1,
        pd == if n % a == 0 {
            n
        } else {
            n + (a - n % a)
        },
    ensures
        pd % a == 0,
        n <= pd <= n + a - 1,
        pd / a >= 1,
        n > 1 ==> pd / a < n,
{
}

/// The group of an in-range index lies inside the padded level.
proof fn lemma_group_in_padded(level: Seq<int>, arity: int, idx: int)
    requires
        arity >= 2,
        0 <= idx < level.len(),
    ensures
        (idx / arity) * arity + arity <= padded(level, arity).len(),
        padded(level, arity).len() % (arity as nat) == 0,
{
    let n = level.len() as int;
    let pd = padded(level, arity).len() as int;
    lemma_padded_len(n, arity, pd);
    lemma_bucket(idx, arity);
    let t = (idx / arity) * arity;
    assert(t <= idx);
    lemma_le_multiple(t, pd, arity);
}

/// The running index of an opening at a level.
pub open spec fn chain_idx(t: MerkleTreeChannel, index: int, l: int) -> int
    decreases l,
{
    if l <= 0 {
        index
    } else {
        chain_idx(t, index, l - 1) / t.cfg.layer_arities@[l - 1] as int
    }
}

/// The padded group around an index at a level.
pub open spec fn group_of(t: MerkleTreeChannel, l: int, idx: int) -> Seq<int> {
    let a = t.cfg.layer_arities@[l] as int;
    padded(vals(t.levels@[l]@), a).subrange((idx / a) * a, (idx / a) * a + a)
}

/// The sibling group of an index at a level: the padded group without the
/// opened position.
pub open spec fn sibs_of(t: MerkleTreeChannel, l: int, idx: int) -> Seq<int> {
    group_of(t, l, idx).remove(idx % t.cfg.layer_arities@[l] as int)
}

/// The hash chain of an opening built from the sibling groups of a
/// finished tree reaches the root: induction upward from any level.
proof fn lemma_verify_chain(t: MerkleTreeChannel, index: int, pmap: Seq<Seq<int>>, l: int)
    requires
        t.built(),
        0 <= index < t.leaves().len(),
        pmap.len() == t.levels@.len() - 1,
        0 <= l <= pmap.len(),
        0 <= chain_idx(t, index, l) < t.levels@[l]@.len(),
        forall|q: int|
            l <= q < pmap.len() ==> #[trigger] pmap[q] == sibs_of(t, q, chain_idx(t, index, q)),
    ensures
        verify_from(
            t.cfg.layer_arities@,
            t.cfg.tree_label,
            t.trace_hash@,
            t.root_val(),
            vals(t.levels@[l]@)[chain_idx(t, index, l)],
            chain_idx(t, index, l),
            pmap,
            l,
        ),
    decreases pmap.len() - l,
{
    let idx = chain_idx(t, index, l);
    if l == pmap.len() {
        assert(t.levels@[l] == t.levels@.last());
    } else {
        let a = t.cfg.layer_arities@[l] as int;
        let group = group_of(t, l, idx);
        lemma_group_in_padded(vals(t.levels@[l]@), a, idx);
        lemma_open_step(t, index, l, idx, group);
        assert(pmap[l] == group.remove(idx % a));
        assert(pmap[l].len() == a - 1);
        assert(pmap[l].insert(idx % a, vals(t.levels@[l]@)[idx]) =~= group);
        assert(chain_idx(t, index, l + 1) == idx / a);
        assert(idx / a >= 0) by {
            lemma_bucket(idx, a);
        };
        lemma_verify_chain(t, index, pmap, l + 1);
    }
}


/// Merkle opening soundness, the completeness half: for every leaf index
/// of a finished tree, the sibling groups along its bucket walk form an
/// opening whose hash chain reaches the root, so an opening produced by
/// open always passes verify_opening.  The failure half, that changing a
/// leaf, a sibling or the index is caught, rests on the hash and is
/// exercised by tests.
pub proof fn lemma_merkle_opening_completeness(
    t: MerkleTreeChannel,
    index: int,
    pmap: Seq<Seq<int>>,
)
    requires
        t.built(),
        0 <= index < t.leaves().len(),
        pmap.len() == t.levels@.len() - 1,
        forall|q: int|
            0 <= q < pmap.len() ==> #[trigger] pmap[q] == sibs_of(t, q, chain_idx(t, index, q)),
    ensures
        verify_from(
            t.cfg.layer_arities@,
            t.cfg.tree_label,
            t.trace_hash@,
            t.root_val(),
            t.leaves()[index],
            index,
            pmap,
            0,
        ),
{
    lemma_verify_chain(t, index, pmap, 0);
}

/// One step of an opening: hashing the padded group around the index gives
/// the parent node, and the index shifts down by the arity.
proof fn lemma_open_step(
    t: MerkleTreeChannel,
    index: int,
    l: int,
    idx: int,
    group: Seq<int>,
)
    requires
        t.built(),
        0 <= l < t.levels@.len() - 1,
        0 <= idx < t.levels@[l]@.len(),
        group.len() == t.cfg.layer_arities@[l] as int,
        group =~= padded(vals(t.levels@[l]@), t.cfg.layer_arities@[l] as int).subrange(
            (idx / t.cfg.layer_arities@[l] as int) * t.cfg.layer_arities@[l] as int,
            (idx / t.cfg.layer_arities@[l] as int) * t.cfg.layer_arities@[l] as int
                + t.cfg.layer_arities@[l] as int,
        ),
    ensures
        group[idx % t.cfg.layer_arities@[l] as int] == vals(t.levels@[l]@)[idx],
        idx / (t.cfg.layer_arities@[l] as int) < t.levels@[l + 1]@.len(),
        node_hash(
            DsLabel {
                arity: t.cfg.layer_arities@[l],
                level: (l + 1) as u32,
                position: (idx / t.cfg.layer_arities@[l] as int) as u64,
                tree_label: t.cfg.tree_label,
            },
            t.trace_hash@,
            group,
        ) == vals(t.levels@[l + 1]@)[idx / t.cfg.layer_arities@[l] as int],
{
    let a = t.cfg.layer_arities@[l] as int;
    let lvl = vals(t.levels@[l]@);
    let pd = padded(lvl, a);
    let g = idx / a;
    lemma_group_in_padded(lvl, a, idx);
    assert(g * a + a <= pd.len());
    assert((g + 1) * a == g * a + a) by (nonlinear_arith);
    assert(idx == g * a + idx % a && 0 <= idx % a < a && 0 <= g) by {
        lemma_bucket(idx, a);
    };
    assert(group[idx % a] == pd[g * a + idx % a]);
    assert(pd[idx] == lvl[idx]) by {
        lemma_padded_index(lvl, a, idx);
    };
    assert(g < pd.len() as int / a) by {
        lemma_bucket_count(g, a, pd.len() as int);
    };
    assert(vals(t.levels@[l + 1]@) == parent_level(lvl, a, l + 1, t.cfg.tree_label, t.trace_hash@));
    assert(t.levels@[l + 1]@.len() == vals(t.levels@[l + 1]@).len());
    assert(parent_level(lvl, a, l + 1, t.cfg.tree_label, t.trace_hash@).len() == pd.len() / (
    a as nat));
    assert((pd.len() / (a as nat)) as int == pd.len() as int / a);
    assert(parent_level(lvl, a, l + 1, t.cfg.tree_label, t.trace_hash@)[g] == node_hash(
        DsLabel {
            arity: t.cfg.layer_arities@[l],
            level: (l + 1) as u32,
            position: g as u64,
            tree_label: t.cfg.tree_label,
        },
        t.trace_hash@,
        pd.subrange(g * a, (g + 1) * a),
    ));
    assert(pd.subrange(g * a, (g + 1) * a) =~= group);
}

/// Opening soundness, the completeness half: every opening produced from a
/// finished tree verifies against that tree's root.  The lemma is carried
/// by the contracts of open and verify_opening, which pin both to the same
/// hash chain.
pub proof fn lemma_open_verifies(
    t: MerkleTreeChannel,
    index: int,
    opening: MerkleOpening,
)
    requires
        t.built(),
        0 <= index < t.leaves().len(),
        opening.index == index,
        opening.leaf@ == t.leaves()[index],
        opening_ok(t.cfg, t.trace_hash@, t.root_val(), opening),
    ensures
        verify_from(
            t.cfg.layer_arities@,
            t.cfg.tree_label,
            t.trace_hash@,
            t.root_val(),
            opening.leaf@,
            index,
            opening.path@.map_values(|lvl: Vec<Goldilocks>| vals(lvl@)),
            0,
        ),
{
}

} // verus!
