//! Chunking file data, building the chunk hash tree, and calculating and
//! verifying root ids and inclusion proofs.

use vstd::prelude::*;

use crate::encoding::{bytes_eq, note_bytes, trunc32};
use crate::error::Error;
use crate::hashing::{hash_all_sha256, hash_sha256, slice_views};
use crate::hashing::{concat_u8_48, hash_all_sha384, hash_sha384, sha384_of};
use crate::model::{
    blob_tag, branch_nv, deep_hash_list, deep_hash_of, layer_tv, leaf_rec, lemma_layer_tv_len,
    list_tag, mk_leaf_nv, proofs_tv, replay_ok, root_tv, tv_branch, tv_consistent, ItemV, NodeV,
    ProofV, TreeV,
};
use crate::transaction::{item_v, items_v, lemma_items_v_index, DeepHashItem};

verus! {

/// Largest number of bytes a chunk may cover.
pub const MAX_CHUNK_SIZE: usize = 262144;

/// Below this size a trailing chunk triggers the merge-and-resplit step.
pub const MIN_CHUNK_SIZE: usize = 32768;

/// A tree node: a leaf holds one chunk's digest and byte range, a branch
/// holds the hash of its two children and the split offset between them.
#[derive(Debug, PartialEq)]
pub struct Node {
    pub id: Vec<u8>,
    pub data_hash: Option<Vec<u8>>,
    pub min_byte_range: usize,
    pub max_byte_range: usize,
    pub left_child: Option<Box<Node>>,
    pub right_child: Option<Box<Node>>,
}

/// A chunk's inclusion proof: the offset of the chunk's last byte and the
/// serialized root-to-leaf record run.
#[derive(Debug, PartialEq)]
pub struct Proof {
    pub offset: usize,
    pub proof: Vec<u8>,
}

impl View for Proof {
    type V = ProofV;

    open spec fn view(&self) -> ProofV {
        ProofV { offset: self.offset as nat, bytes: self.proof@ }
    }
}

/// The flat view of a node: its id, digest and byte range.
pub open spec fn nv_of(n: Node) -> NodeV {
    NodeV {
        id: n.id@,
        data_hash: match n.data_hash {
            Some(dh) => Some(dh@),
            None => None,
        },
        min: n.min_byte_range as nat,
        max: n.max_byte_range as nat,
    }
}

/// A node is either a well-formed leaf (digest, no children) or a
/// well-formed branch (no digest, two children), all the way down.
pub open spec fn shape_ok(n: Node) -> bool
    decreases n,
{
    if n.data_hash is Some {
        n.left_child is None && n.right_child is None
    } else {
        match (n.left_child, n.right_child) {
            (Some(l), Some(r)) => shape_ok(*l) && shape_ok(*r),
            _ => false,
        }
    }
}

/// The tree view of a node: branches become branch views over their
/// children, everything else is read as a leaf.
pub open spec fn node_tv(n: Node) -> TreeV
    decreases n,
{
    if n.data_hash is None && n.left_child is Some && n.right_child is Some {
        TreeV::Branch(
            nv_of(n),
            Box::new(node_tv(*n.left_child->0)),
            Box::new(node_tv(*n.right_child->0)),
        )
    } else {
        TreeV::Leaf(nv_of(n))
    }
}

/// Clones a byte vector, preserving its bytes.
fn clone_bytes(v: &Vec<u8>) -> (r: Vec<u8>)
    ensures
        r@ == v@,
{
    let r = v.clone();
    proof {
        assert(r@ =~= v@);
    }
    r
}

/// Clones a node and its subtrees, preserving the tree view and shape.
fn clone_node(n: &Node) -> (r: Node)
    ensures
        node_tv(r) == node_tv(*n),
        shape_ok(r) == shape_ok(*n),
        nv_of(r) == nv_of(*n),
    decreases *n,
{
    let r = Node {
        id: clone_bytes(&n.id),
        data_hash: match &n.data_hash {
            Some(dh) => Some(clone_bytes(dh)),
            None => None,
        },
        min_byte_range: n.min_byte_range,
        max_byte_range: n.max_byte_range,
        left_child: match &n.left_child {
            Some(l) => Some(Box::new(clone_node(l))),
            None => None,
        },
        right_child: match &n.right_child {
            Some(rc) => Some(Box::new(clone_node(rc))),
            None => None,
        },
    };
    r
}

impl Clone for Node {
    /// A clone has the same tree view, shape and node fields as the
    /// original.
    fn clone(&self) -> (r: Self)
        ensures
            node_tv(r) == node_tv(*self),
            shape_ok(r) == shape_ok(*self),
            nv_of(r) == nv_of(*self),
    {
        clone_node(self)
    }
}

impl Clone for Proof {
    /// A clone has the same offset and proof bytes as the original.
    fn clone(&self) -> (r: Self)
        ensures
            r@ == self@,
    {
        Proof { offset: self.offset, proof: clone_bytes(&self.proof) }
    }
}

/// Clones a run of nodes, preserving each node's view and shape.
pub(crate) fn clone_nodes(v: &Vec<Node>) -> (r: Vec<Node>)
    ensures
        r@.len() == v@.len(),
        views_of(r@) == views_of(v@),
        forall|i: int| 0 <= i < v@.len() ==> shape_ok(#[trigger] r@[i]) == shape_ok(v@[i]),
        forall|i: int|
            0 <= i < v@.len() ==> node_tv(#[trigger] r@[i]) == node_tv(v@[i]),
{
    let mut out: Vec<Node> = Vec::new();
    let mut i: usize = 0;
    while i < v.len()
        invariant
            i <= v@.len(),
            out@.len() == i,
            forall|j: int| 0 <= j < i ==> shape_ok(#[trigger] out@[j]) == shape_ok(v@[j]),
            forall|j: int| 0 <= j < i ==> node_tv(#[trigger] out@[j]) == node_tv(v@[j]),
        decreases v@.len() - i,
    {
        let c = clone_node(&v[i]);
        out.push(c);
        i = i + 1;
    }
    proof {
        assert(views_of(out@) =~= views_of(v@));
    }
    out
}

/// Writes a number as a 32-byte note.
pub trait Helpers<T>: Sized {
    /// The note this value encodes to.
    spec fn note_spec(&self) -> Seq<u8>;

    /// The 32-byte note: 28 zero bytes, then the value big-endian.
    fn to_note_vec(&self) -> (r: Vec<u8>)
        ensures
            r@ == self.note_spec(),
            r@.len() == 32,
    ;
}

impl Helpers<u32> for u32 {
    open spec fn note_spec(&self) -> Seq<u8> {
        note_bytes(*self)
    }

    fn to_note_vec(&self) -> (r: Vec<u8>)
        ensures
            r@ == self.note_spec(),
            r@.len() == 32,
    {
        let mut note: Vec<u8> = Vec::new();
        let mut i: usize = 0;
        while i < 28
            invariant
                i <= 28,
                note@ =~= Seq::new(i as nat, |j: int| 0u8),
            decreases 28 - i,
        {
            note.push(0);
            proof {
                assert(note@ =~= Seq::new((i + 1) as nat, |j: int| 0u8));
            }
            i = i + 1;
        }
        let tail = crate::encoding::be32_vec(*self);
        note.extend_from_slice(tail.as_slice());
        proof {
            assert(note@ =~= note_bytes(*self));
        }
        note
    }
}

/// The byte ranges the splitter produces for a buffer of length `l`:
/// greedy maximal chunks, a merge-and-resplit of the last two when the
/// trailing chunk would fall below the minimum, and a zero-length trailing
/// chunk when the buffer length is an exact positive multiple of the maximum
/// (an empty buffer yields the single empty range).
pub open spec fn chunk_ranges(l: nat) -> Seq<(nat, nat)> {
    let max = MAX_CHUNK_SIZE as nat;
    let min = MIN_CHUNK_SIZE as nat;
    let k = l / max;
    let rem = l % max;
    if l == 0 {
        seq![(0nat, 0nat)]
    } else if rem == 0 {
        full_ranges(k) + seq![(l, l)]
    } else if k >= 1 && rem < min {
        let base = (k - 1) * max;
        let c = (max + rem + 1) / 2;
        full_ranges((k - 1) as nat) + seq![((base as nat, (base + c) as nat)), (((base + c) as nat, l))]
    } else {
        full_ranges(k) + seq![(((k * max) as nat, l))]
    }
}

/// The first `m` maximal ranges.
pub open spec fn full_ranges(m: nat) -> Seq<(nat, nat)> {
    Seq::new(m, |i: int| (((i * MAX_CHUNK_SIZE) as nat, ((i + 1) * MAX_CHUNK_SIZE) as nat)))
}

/// The ranges of the splitter partition `[0, l)` contiguously, in order: the
/// first starts at zero, each ends where the next begins, the last ends at
/// `l`, no range is wider than the maximum chunk size, and only the last may
/// be empty.
pub proof fn lemma_chunk_ranges_partition(l: nat)
    ensures
        chunk_ranges(l).len() >= 1,
        chunk_ranges(l)[0].0 == 0,
        chunk_ranges(l)[chunk_ranges(l).len() - 1].1 == l,
        forall|i: int|
            0 <= i < chunk_ranges(l).len() ==> (#[trigger] chunk_ranges(l)[i]).0
                <= chunk_ranges(l)[i].1,
        forall|i: int|
            0 <= i < chunk_ranges(l).len() ==> (#[trigger] chunk_ranges(l)[i]).1
                - chunk_ranges(l)[i].0 <= MAX_CHUNK_SIZE as nat,
        forall|i: int, j: int|
            0 <= i && i + 1 == j && j < chunk_ranges(l).len() ==> (#[trigger] chunk_ranges(
                l,
            )[i]).1 == (#[trigger] chunk_ranges(l)[j]).0,
        forall|i: int|
            0 <= i < chunk_ranges(l).len() - 1 ==> (#[trigger] chunk_ranges(l)[i]).0
                < chunk_ranges(l)[i].1,
        forall|i: int|
            0 <= i < chunk_ranges(l).len() ==> (#[trigger] chunk_ranges(l)[i]).1 <= l,
{
    let max = MAX_CHUNK_SIZE as nat;
    let min = MIN_CHUNK_SIZE as nat;
    let k = l / max;
    let rem = l % max;
    vstd::arithmetic::div_mod::lemma_fundamental_div_mod(l as int, max as int);
    if l == 0 {
    } else if rem == 0 {
        assert(k >= 1);
        lemma_full_ranges_facts(k);
    } else if k >= 1 && rem < min {
        lemma_full_ranges_facts((k - 1) as nat);
        let base = (k - 1) * max;
        let c = (max + rem + 1) / 2;
        assert(base + max + rem == l) by (nonlinear_arith)
            requires
                l == k * max + rem,
                k >= 1,
                base == (k - 1) * max,
        ;
        assert(c <= max);
        assert(c >= 1);
        assert(base + c < l);
    } else {
        lemma_full_ranges_facts(k);
        assert(k * max < l);
    }
}

/// The tree views of a sequence of nodes.
pub open spec fn views_of(s: Seq<Node>) -> Seq<TreeV> {
    s.map_values(|n: Node| node_tv(n))
}

/// The views of a sequence of proofs.
pub open spec fn proof_views(s: Seq<Proof>) -> Seq<ProofV> {
    s.map_values(|p: Proof| p@)
}

/// The bytes already accumulated in an optional proof.
pub open spec fn prefix_of(p: Option<Proof>) -> Seq<u8> {
    match p {
        Some(q) => q.proof@,
        None => Seq::<u8>::empty(),
    }
}

/// The top node fields of a node's tree view are the node's own.
pub proof fn lemma_node_tv_info(n: Node)
    ensures
        node_tv(n).info() == nv_of(n),
{
}

/// The chunk byte ranges for a buffer of length `l`.
fn chunk_ranges_vec(l: usize) -> (r: Vec<(usize, usize)>)
    ensures
        r@.len() == chunk_ranges(l as nat).len(),
        forall|i: int|
            0 <= i < r@.len() ==> (((#[trigger] r@[i]).0 as nat, r@[i].1 as nat) == chunk_ranges(
                l as nat,
            )[i]),
{
    let mut v: Vec<(usize, usize)> = Vec::new();
    if l == 0 {
        v.push((0, 0));
        return v;
    }
    let k = l / MAX_CHUNK_SIZE;
    let rem = l % MAX_CHUNK_SIZE;
    proof {
        vstd::arithmetic::div_mod::lemma_fundamental_div_mod(l as int, MAX_CHUNK_SIZE as int);
    }
    let full: usize = if rem > 0 && k >= 1 && rem < MIN_CHUNK_SIZE {
        k - 1
    } else {
        k
    };
    let mut i: usize = 0;
    while i < full
        invariant
            i <= full,
            full <= k,
            k == l as nat / MAX_CHUNK_SIZE as nat,
            l as nat == k * (MAX_CHUNK_SIZE as nat) + (l as nat % MAX_CHUNK_SIZE as nat),
            v@.len() == i,
            forall|j: int|
                0 <= j < i ==> ((#[trigger] v@[j]).0 == j * MAX_CHUNK_SIZE && v@[j].1 == (j + 1)
                    * MAX_CHUNK_SIZE),
        decreases full - i,
    {
        proof {
            assert((i + 1) * (MAX_CHUNK_SIZE as nat) <= k * (MAX_CHUNK_SIZE as nat))
                by (nonlinear_arith)
                requires
                    i + 1 <= k,
            ;
            assert((i + 1) * MAX_CHUNK_SIZE == i * MAX_CHUNK_SIZE + MAX_CHUNK_SIZE)
                by (nonlinear_arith);
        }
        v.push((i * MAX_CHUNK_SIZE, (i + 1) * MAX_CHUNK_SIZE));
        i = i + 1;
    }
    proof {
        assert(full * (MAX_CHUNK_SIZE as nat) <= k * (MAX_CHUNK_SIZE as nat)) by (nonlinear_arith)
            requires
                full <= k,
        ;
    }
    if rem == 0 {
        v.push((l, l));
    } else if k >= 1 && rem < MIN_CHUNK_SIZE {
        let base = full * MAX_CHUNK_SIZE;
        let half = (MAX_CHUNK_SIZE + rem + 1) / 2;
        proof {
            assert(base + MAX_CHUNK_SIZE + rem == l) by (nonlinear_arith)
                requires
                    l as nat == k * (MAX_CHUNK_SIZE as nat) + rem as nat,
                    k >= 1,
                    base == (k - 1) * (MAX_CHUNK_SIZE as nat),
            ;
        }
        v.push((base, base + half));
        v.push((base + half, l));
    } else {
        v.push((k * MAX_CHUNK_SIZE, l));
    }
    proof {
        lemma_full_ranges_facts(full as nat);
        assert forall|j: int| 0 <= j < v@.len() implies (((#[trigger] v@[j]).0 as nat,
        v@[j].1 as nat) == chunk_ranges(l as nat)[j]) by {
            if j < full {
                assert(chunk_ranges(l as nat)[j] == full_ranges(full as nat)[j]);
            }
        }
    }
    v
}

/// The leaf views for a buffer: one leaf per chunk range, in order.
pub open spec fn leaves_tv_of(data: Seq<u8>) -> Seq<TreeV> {
    Seq::new(
        chunk_ranges(data.len()).len(),
        |i: int|
            TreeV::Leaf(
                mk_leaf_nv(
                    data,
                    chunk_ranges(data.len())[i].0,
                    chunk_ranges(data.len())[i].1,
                ),
            ),
    )
}

/// Generates the data chunks, as leaf nodes, from which the calculation of
/// the root id starts: one leaf per chunk range, hashing the chunk's bytes
/// and tagging them with the chunk's end offset.
pub fn generate_leaves(data: Vec<u8>) -> (r: Result<Vec<Node>, Error>)
    ensures
        r is Ok,
        r->Ok_0@.len() == chunk_ranges(data@.len()).len(),
        views_of(r->Ok_0@) == leaves_tv_of(data@),
        forall|i: int| 0 <= i < r->Ok_0@.len() ==> shape_ok(#[trigger] r->Ok_0@[i]),
        forall|i: int|
            0 <= i < r->Ok_0@.len() ==> tv_consistent(node_tv(#[trigger] r->Ok_0@[i])),
{
    proof {
        lemma_chunk_ranges_partition(data@.len());
    }
    let ranges = chunk_ranges_vec(data.len());
    let mut leaves: Vec<Node> = Vec::new();
    let mut i: usize = 0;
    while i < ranges.len()
        invariant
            i <= ranges@.len(),
            ranges@.len() == chunk_ranges(data@.len()).len(),
            forall|j: int|
                0 <= j < ranges@.len() ==> (((#[trigger] ranges@[j]).0 as nat,
                ranges@[j].1 as nat) == chunk_ranges(data@.len())[j]),
            forall|j: int|
                0 <= j < chunk_ranges(data@.len()).len() ==> (#[trigger] chunk_ranges(
                    data@.len(),
                )[j]).0 <= chunk_ranges(data@.len())[j].1,
            forall|j: int|
                0 <= j < chunk_ranges(data@.len()).len() ==> (#[trigger] chunk_ranges(
                    data@.len(),
                )[j]).1 <= data@.len(),
            leaves@.len() == i,
            forall|j: int|
                0 <= j < i ==> node_tv(#[trigger] leaves@[j]) == leaves_tv_of(data@)[j],
            forall|j: int| 0 <= j < i ==> shape_ok(#[trigger] leaves@[j]),
            forall|j: int| 0 <= j < i ==> tv_consistent(node_tv(#[trigger] leaves@[j])),
        decreases ranges@.len() - i,
    {
        let range = ranges[i];
        let min = range.0;
        let max = range.1;
        let chunk = vstd::slice::slice_subrange(data.as_slice(), min, max);
        let data_hash = hash_sha256(chunk);
        let trunc_max = crate::encoding::trunc_offset(max);
        let offset = trunc_max.to_note_vec();
        let mut msgs: Vec<&[u8]> = Vec::new();
        msgs.push(data_hash.as_slice());
        msgs.push(offset.as_slice());
        let id = hash_all_sha256(msgs);
        proof {
            assert(slice_views(msgs@) =~= seq![data_hash@, offset@]);
        }
        let node = Node {
            id,
            data_hash: Some(data_hash),
            min_byte_range: min,
            max_byte_range: max,
            left_child: None,
            right_child: None,
        };
        proof {
            assert(node_tv(node) == leaves_tv_of(data@)[i as int]);
            assert(tv_consistent(node_tv(node)));
        }
        leaves.push(node);
        i = i + 1;
    }
    proof {
        assert(views_of(leaves@) =~= leaves_tv_of(data@));
    }
    Ok(leaves)
}

/// Hashes together a single branch node from a pair of child nodes: the id
/// tags the children's ids with the split offset between them.
pub fn hash_branch(left: Node, right: Node) -> (r: Result<Node, Error>)
    ensures
        r is Ok,
        node_tv(r->Ok_0) == tv_branch(node_tv(left), node_tv(right)),
        nv_of(r->Ok_0) == branch_nv(nv_of(left), nv_of(right)),
        shape_ok(left) && shape_ok(right) ==> shape_ok(r->Ok_0),
        tv_consistent(node_tv(left)) && tv_consistent(node_tv(right)) ==> tv_consistent(
            node_tv(r->Ok_0),
        ),
{
    let trunc_min = crate::encoding::trunc_offset(left.max_byte_range);
    let note = trunc_min.to_note_vec();
    let mut msgs: Vec<&[u8]> = Vec::new();
    msgs.push(left.id.as_slice());
    msgs.push(right.id.as_slice());
    msgs.push(note.as_slice());
    let id = hash_all_sha256(msgs);
    proof {
        assert(slice_views(msgs@) =~= seq![left.id@, right.id@, note@]);
    }
    let node = Node {
        id,
        data_hash: None,
        min_byte_range: left.max_byte_range,
        max_byte_range: right.max_byte_range,
        left_child: Some(Box::new(left)),
        right_child: Some(Box::new(right)),
    };
    proof {
        lemma_node_tv_info(left);
        lemma_node_tv_info(right);
        assert(nv_of(node) == branch_nv(nv_of(left), nv_of(right)));
        assert(node.left_child->0 == left);
        assert(node.right_child->0 == right);
        assert(node_tv(node) == tv_branch(node_tv(left), node_tv(right)));
    }
    Ok(node)
}

/// Builds one layer of branch nodes from a layer of child nodes: consecutive
/// pairs are hashed into branches and an unpaired last node is carried
/// forward unchanged.
pub fn build_layer(nodes: Vec<Node>) -> (r: Result<Vec<Node>, Error>)
    ensures
        r is Ok,
        views_of(r->Ok_0@) == layer_tv(views_of(nodes@)),
        (forall|i: int| 0 <= i < nodes@.len() ==> shape_ok(#[trigger] nodes@[i])) ==> (forall|
            i: int,
        |
            0 <= i < r->Ok_0@.len() ==> shape_ok(#[trigger] r->Ok_0@[i])),
        (forall|i: int|
            0 <= i < nodes@.len() ==> tv_consistent(node_tv(#[trigger] nodes@[i]))) ==> (forall|
            i: int,
        |
            0 <= i < r->Ok_0@.len() ==> tv_consistent(node_tv(#[trigger] r->Ok_0@[i]))),
{
    let ghost orig = views_of(nodes@);
    let ghost all_shaped = forall|i: int| 0 <= i < nodes@.len() ==> shape_ok(#[trigger] nodes@[i]);
    let ghost all_cons = forall|i: int|
        0 <= i < nodes@.len() ==> tv_consistent(node_tv(#[trigger] nodes@[i]));
    let mut nodes = nodes;
    let mut layer: Vec<Node> = Vec::new();
    while nodes.len() >= 2
        invariant
            layer_tv(orig) =~= views_of(layer@) + layer_tv(views_of(nodes@)),
            all_shaped == (forall|i: int|
                0 <= i < nodes@.len() ==> shape_ok(#[trigger] nodes@[i])) || !all_shaped,
            all_shaped ==> forall|i: int|
                0 <= i < nodes@.len() ==> shape_ok(#[trigger] nodes@[i]),
            all_shaped ==> forall|i: int| 0 <= i < layer@.len() ==> shape_ok(#[trigger] layer@[i]),
            all_cons ==> forall|i: int|
                0 <= i < nodes@.len() ==> tv_consistent(node_tv(#[trigger] nodes@[i])),
            all_cons ==> forall|i: int|
                0 <= i < layer@.len() ==> tv_consistent(node_tv(#[trigger] layer@[i])),
        decreases nodes@.len(),
    {
        let ghost pre = views_of(nodes@);
        let left = nodes.remove(0);
        let right = nodes.remove(0);
        let branch = match hash_branch(left, right) {
            Ok(b) => b,
            Err(e) => {
                return Err(e);
            },
        };
        layer.push(branch);
        proof {
            assert(views_of(nodes@) =~= pre.skip(2));
            assert(layer_tv(pre) =~= seq![tv_branch(pre[0], pre[1])] + layer_tv(pre.skip(2)));
        }
    }
    if nodes.len() == 1 {
        let last = nodes.remove(0);
        layer.push(last);
    }
    proof {
        assert(views_of(layer@) =~= layer_tv(orig));
    }
    Ok(layer)
}

/// Builds all layers from the leaves up to the single root node.
pub fn generate_data_root(nodes: Vec<Node>) -> (r: Result<Node, Error>)
    requires
        nodes@.len() >= 1,
    ensures
        r is Ok,
        node_tv(r->Ok_0) == root_tv(views_of(nodes@)),
        (forall|i: int| 0 <= i < nodes@.len() ==> shape_ok(#[trigger] nodes@[i])) ==> shape_ok(
            r->Ok_0,
        ),
        (forall|i: int|
            0 <= i < nodes@.len() ==> tv_consistent(node_tv(#[trigger] nodes@[i])))
            ==> tv_consistent(node_tv(r->Ok_0)),
{
    let ghost orig = views_of(nodes@);
    let ghost all_shaped = forall|i: int| 0 <= i < nodes@.len() ==> shape_ok(#[trigger] nodes@[i]);
    let ghost all_cons = forall|i: int|
        0 <= i < nodes@.len() ==> tv_consistent(node_tv(#[trigger] nodes@[i]));
    let mut nodes = nodes;
    while nodes.len() > 1
        invariant
            nodes@.len() >= 1,
            root_tv(views_of(nodes@)) == root_tv(orig),
            all_shaped ==> forall|i: int|
                0 <= i < nodes@.len() ==> shape_ok(#[trigger] nodes@[i]),
            all_cons ==> forall|i: int|
                0 <= i < nodes@.len() ==> tv_consistent(node_tv(#[trigger] nodes@[i])),
        decreases nodes@.len(),
    {
        let ghost pre = views_of(nodes@);
        nodes = match build_layer(nodes) {
            Ok(l) => l,
            Err(e) => {
                return Err(e);
            },
        };
        proof {
            lemma_layer_tv_len(pre);
            assert(root_tv(pre) == root_tv(layer_tv(pre)));
        }
    }
    let ghost pre_pop = views_of(nodes@);
    let root = match nodes.pop() {
        Some(n) => n,
        None => {
            return Err(Error::InvalidNode);
        },
    };
    proof {
        assert(root_tv(pre_pop) == pre_pop[0]);
        assert(pre_pop[0] == node_tv(root));
    }
    Ok(root)
}

/// Calculates the proof for each data chunk contained in the root node: a
/// recursive descent that appends a 96-byte record at each branch, fans out
/// an independent copy of the buffer to each child, and closes each path
/// with a 64-byte leaf record. Proofs come out one per leaf, left to right.
/// A node that is neither a well-formed leaf nor a well-formed branch is
/// rejected. The emitted offset is the last byte of the leaf's range, or
/// zero for the zero-length leaf of an empty buffer.
pub fn resolve_proofs(node: Node, proof: Option<Proof>) -> (r: Result<Vec<Proof>, Error>)
    ensures
        (r is Ok <==> shape_ok(node)),
        shape_ok(node) ==> proof_views(r->Ok_0@) == proofs_tv(node_tv(node), prefix_of(proof)),
        !shape_ok(node) ==> r == Err::<Vec<Proof>, Error>(Error::InvalidNode),
    decreases node,
{
    let ghost gnode = node;
    let prior = proof;
    let mut acc = match prior {
        Some(p) => p,
        None => Proof { offset: 0, proof: Vec::new() },
    };
    let ghost prefix = acc.proof@;
    let Node { id, data_hash, min_byte_range, max_byte_range, left_child, right_child } = node;
    match (data_hash, left_child, right_child) {
        (Some(data_hash), None, None) => {
            acc.offset = if max_byte_range == 0 {
                0
            } else {
                max_byte_range - 1
            };
            acc.proof.extend_from_slice(data_hash.as_slice());
            let trunc_max = crate::encoding::trunc_offset(max_byte_range);
            let note = trunc_max.to_note_vec();
            acc.proof.extend_from_slice(note.as_slice());
            let ghost result_view = acc@;
            let mut out: Vec<Proof> = Vec::new();
            out.push(acc);
            proof {
                assert(result_view.bytes =~= prefix + leaf_rec(nv_of(gnode)));
                assert(proof_views(out@) =~= proofs_tv(node_tv(gnode), prefix));
            }
            Ok(out)
        },
        (None, Some(left_child), Some(right_child)) => {
            acc.proof.extend_from_slice(left_child.id.as_slice());
            acc.proof.extend_from_slice(right_child.id.as_slice());
            let trunc_min = crate::encoding::trunc_offset(min_byte_range);
            let note = trunc_min.to_note_vec();
            acc.proof.extend_from_slice(note.as_slice());
            let left_node = *left_child;
            let right_node = *right_child;
            proof {
                lemma_node_tv_info(left_node);
                lemma_node_tv_info(right_node);
                assert(acc.proof@ =~= prefix + crate::model::branch_rec(
                    nv_of(gnode),
                    nv_of(left_node),
                    nv_of(right_node),
                ));
            }
            let acc_copy = acc.clone();
            let mut left_proofs = match resolve_proofs(left_node, Some(acc_copy)) {
                Ok(p) => p,
                Err(e) => {
                    return Err(e);
                },
            };
            let mut right_proofs = match resolve_proofs(right_node, Some(acc)) {
                Ok(p) => p,
                Err(e) => {
                    return Err(e);
                },
            };
            left_proofs.append(&mut right_proofs);
            proof {
                assert(proof_views(left_proofs@) =~= proofs_tv(node_tv(gnode), prefix));
            }
            Ok(left_proofs)
        },
        _ => Err(Error::InvalidNode),
    }
}

/// Populated with data from a deserialized proof for an original data chunk
/// (leaf node).
#[derive(Debug, PartialEq, Clone)]
pub struct LeafProof {
    data_hash: Vec<u8>,
    notepad: Vec<u8>,
    offset: Vec<u8>,
}

/// Populated with data from a deserialized proof for a branch node (the
/// hash of a pair of child nodes).
#[derive(Debug, PartialEq, Clone)]
pub struct BranchProof {
    left_id: Vec<u8>,
    right_id: Vec<u8>,
    notepad: Vec<u8>,
    offset: Vec<u8>,
}

/// Deserializes fixed-width proof records.
pub trait ProofDeserialize: Sized {
    /// The exact record width this type parses.
    spec fn parse_len() -> nat;

    /// The parsed fields have their fixed widths.
    spec fn wf(&self) -> bool;

    /// The parsed fields are exactly these subranges of the record.
    spec fn matches_record(&self, record: Seq<u8>) -> bool;

    /// The offset stored in the final four bytes of the record's note.
    spec fn offset_spec(&self) -> nat;

    /// Parses one record; a record of any other width is rejected.
    fn try_from_proof_slice(slice: &[u8]) -> (r: Result<Self, Error>)
        ensures
            slice@.len() == Self::parse_len() ==> (r is Ok && r->Ok_0.wf()
                && r->Ok_0.matches_record(slice@)),
            slice@.len() != Self::parse_len() ==> r == Err::<Self, Error>(Error::InvalidProof),
    ;

    /// The big-endian offset held in the note's final four bytes.
    fn offset(&self) -> (r: u32)
        requires
            self.wf(),
        ensures
            r as nat == self.offset_spec(),
    ;
}

impl ProofDeserialize for LeafProof {
    closed spec fn parse_len() -> nat {
        64
    }

    closed spec fn wf(&self) -> bool {
        self.data_hash@.len() == 32 && self.notepad@.len() == 24 && self.offset@.len() == 8
    }

    closed spec fn matches_record(&self, record: Seq<u8>) -> bool {
        &&& self.data_hash@ == record.subrange(0, 32)
        &&& self.notepad@ == record.subrange(32, 56)
        &&& self.offset@ == record.subrange(56, 64)
    }

    closed spec fn offset_spec(&self) -> nat {
        crate::encoding::be32_val(self.offset@.subrange(4, 8))
    }

    fn try_from_proof_slice(slice: &[u8]) -> (r: Result<Self, Error>) {
        if slice.len() != 64 {
            return Err(Error::InvalidProof);
        }
        Ok(
            LeafProof {
                data_hash: crate::encoding::copy_range(slice, 0, 32),
                notepad: crate::encoding::copy_range(slice, 32, 56),
                offset: crate::encoding::copy_range(slice, 56, 64),
            },
        )
    }

    fn offset(&self) -> (r: u32) {
        let tail = vstd::slice::slice_subrange(self.offset.as_slice(), 4, 8);
        crate::encoding::be32_read(tail)
    }
}

impl ProofDeserialize for BranchProof {
    closed spec fn parse_len() -> nat {
        96
    }

    closed spec fn wf(&self) -> bool {
        self.left_id@.len() == 32 && self.right_id@.len() == 32 && self.notepad@.len() == 24
            && self.offset@.len() == 8
    }

    closed spec fn matches_record(&self, record: Seq<u8>) -> bool {
        &&& self.left_id@ == record.subrange(0, 32)
        &&& self.right_id@ == record.subrange(32, 64)
        &&& self.notepad@ == record.subrange(64, 88)
        &&& self.offset@ == record.subrange(88, 96)
    }

    closed spec fn offset_spec(&self) -> nat {
        crate::encoding::be32_val(self.offset@.subrange(4, 8))
    }

    fn try_from_proof_slice(slice: &[u8]) -> (r: Result<Self, Error>) {
        if slice.len() != 96 {
            return Err(Error::InvalidProof);
        }
        Ok(
            BranchProof {
                left_id: crate::encoding::copy_range(slice, 0, 32),
                right_id: crate::encoding::copy_range(slice, 32, 64),
                notepad: crate::encoding::copy_range(slice, 64, 88),
                offset: crate::encoding::copy_range(slice, 88, 96),
            },
        )
    }

    fn offset(&self) -> (r: u32) {
        let tail = vstd::slice::slice_subrange(self.offset.as_slice(), 4, 8);
        crate::encoding::be32_read(tail)
    }
}

/// Validates a chunk of data against the provided proof and trusted root
/// id: the buffer is split into leading 96-byte branch records and one
/// trailing 64-byte leaf record, the branch records are replayed from the
/// root down with routing decided by the chunk's end offset, and the leaf
/// record is checked last. The leaf check passes when the id recomputed
/// from the chunk matches the expected id or when the record's stored
/// digest matches the chunk's digest; only when both comparisons fail is
/// the proof rejected, which replicates the protocol source as written.
#[verifier::rlimit(100)]
pub fn validate_chunk(root_id: Vec<u8>, chunk: Node, proof: Proof) -> (r: Result<(), Error>)
    ensures
        chunk.data_hash is None ==> r == Err::<(), Error>(Error::InvalidNode),
        chunk.data_hash is Some ==> ({
            let records = proof.proof@;
            if records.len() < 64 || (records.len() - 64) % 96 != 0 {
                r == Err::<(), Error>(Error::InvalidProof)
            } else {
                &&& (r is Ok <==> replay_ok(
                    root_id@,
                    chunk.data_hash->Some_0@,
                    chunk.max_byte_range as nat,
                    records,
                ))
                &&& (r is Err ==> r == Err::<(), Error>(Error::InvalidProof))
            }
        }),
{
    let data_hash = match &chunk.data_hash {
        Some(dh) => dh,
        None => {
            return Err(Error::InvalidNode);
        },
    };
    let ghost records = proof.proof@;
    let ghost root0 = root_id@;
    let ghost dh0 = chunk.data_hash->Some_0@;
    let ghost max0 = chunk.max_byte_range as nat;
    let pl = proof.proof.len();
    if pl < 64 {
        return Err(Error::InvalidProof);
    }
    let branches_len = pl - 64;
    if branches_len % 96 != 0 {
        return Err(Error::InvalidProof);
    }
    let n_branches = branches_len / 96;
    proof {
        vstd::arithmetic::div_mod::lemma_fundamental_div_mod(branches_len as int, 96);
    }
    let mut expected = root_id;
    let mut i: usize = 0;
    proof {
        assert(records.skip(0) =~= records);
    }
    while i < n_branches
        invariant
            i <= n_branches,
            records == proof.proof@,
            records.len() == pl,
            pl == 64 + 96 * n_branches,
            (records.len() - 64) % 96 == 0,
            root0 == root_id@,
            chunk.data_hash is Some,
            dh0 == chunk.data_hash->Some_0@,
            max0 == chunk.max_byte_range as nat,
            replay_ok(root0, dh0, max0, records) <==> replay_ok(
                expected@,
                dh0,
                max0,
                records.skip(96 * i),
            ),
        decreases n_branches - i,
    {
        let ghost suffix = records.skip(96 * i);
        proof {
            assert(suffix.len() == 64 + 96 * (n_branches - i));
            assert(suffix.len() >= 160);
            assert((suffix.len() - 64) % 96 == 0) by (nonlinear_arith)
                requires
                    suffix.len() == 64 + 96 * (n_branches - i),
                    i < n_branches,
            ;
        }
        let record = vstd::slice::slice_subrange(proof.proof.as_slice(), i * 96, i * 96 + 96);
        let bp = match BranchProof::try_from_proof_slice(record) {
            Ok(b) => b,
            Err(_) => {
                return Err(Error::InvalidProof);
            },
        };
        let off = bp.offset();
        let note = off.to_note_vec();
        let mut msgs: Vec<&[u8]> = Vec::new();
        msgs.push(bp.left_id.as_slice());
        msgs.push(bp.right_id.as_slice());
        msgs.push(note.as_slice());
        let id = hash_all_sha256(msgs);
        proof {
            assert(slice_views(msgs@) =~= seq![bp.left_id@, bp.right_id@, note@]);
            assert(bp.left_id@ =~= suffix.subrange(0, 32));
            assert(bp.right_id@ =~= suffix.subrange(32, 64));
            assert(bp.offset@.subrange(4, 8) =~= suffix.subrange(92, 96));
            assert(off as nat == crate::encoding::be32_val(suffix.subrange(92, 96)));
            assert(trunc32(off as nat) == off);
            assert(seq![bp.left_id@, bp.right_id@, note@] =~= seq![
                suffix.subrange(0, 32),
                suffix.subrange(32, 64),
                note_bytes(trunc32(crate::encoding::be32_val(suffix.subrange(92, 96)))),
            ]);
            crate::model::lemma_replay_step(expected@, dh0, max0, suffix);
        }
        if !bytes_eq(id.as_slice(), expected.as_slice()) {
            return Err(Error::InvalidProof);
        }
        let right = chunk.max_byte_range > off as usize;
        expected = if right {
            bp.right_id
        } else {
            bp.left_id
        };
        proof {
            assert(records.skip(96 * (i + 1)) =~= suffix.skip(96));
        }
        i = i + 1;
    }
    proof {
        assert(96 * n_branches == branches_len);
        assert(records.skip(96 * n_branches).len() == 64);
    }
    let leaf_slice = vstd::slice::slice_subrange(proof.proof.as_slice(), pl - 64, pl);
    let lp = match LeafProof::try_from_proof_slice(leaf_slice) {
        Ok(l) => l,
        Err(_) => {
            return Err(Error::InvalidProof);
        },
    };
    let trunc_max = crate::encoding::trunc_offset(chunk.max_byte_range);
    let note = trunc_max.to_note_vec();
    let mut msgs: Vec<&[u8]> = Vec::new();
    msgs.push(data_hash.as_slice());
    msgs.push(note.as_slice());
    let id = hash_all_sha256(msgs);
    proof {
        assert(slice_views(msgs@) =~= seq![dh0, note@]);
        assert(lp.data_hash@ =~= records.skip(96 * n_branches).subrange(0, 32));
        assert(seq![dh0, note@] =~= seq![dh0, note_bytes(trunc32(max0))]);
        crate::model::lemma_replay_leaf(expected@, dh0, max0, records.skip(96 * n_branches));
    }
    let id_ok = bytes_eq(id.as_slice(), expected.as_slice());
    let dh_ok = bytes_eq(data_hash.as_slice(), lp.data_hash.as_slice());
    if !id_ok && !dh_ok {
        return Err(Error::InvalidProof);
    }
    Ok(())
}

/// Calculates the deep-hash digest of an item tree: the 48-byte tagged
/// digest over nested blobs and lists that serves as a transaction's signing
/// message. It is computed with the 384-bit hash, independent of the
/// 256-bit chunk tree.
pub fn deep_hash(deep_hash_item: DeepHashItem) -> (r: Result<Vec<u8>, Error>)
    ensures
        r is Ok,
        r->Ok_0@ == deep_hash_of(item_v(deep_hash_item)),
        r->Ok_0@.len() == 48,
{
    Ok(deep_hash_ref(&deep_hash_item))
}

/// The deep-hash digest of one item, by recursive descent.
fn deep_hash_ref(item: &DeepHashItem) -> (r: Vec<u8>)
    ensures
        r@ == deep_hash_of(item_v(*item)),
        r@.len() == 48,
    decreases *item,
{
    match item {
        DeepHashItem::Blob(blob) => {
            let mut tag: Vec<u8> = Vec::new();
            tag.push(98);
            tag.push(108);
            tag.push(111);
            tag.push(98);
            let len_bytes = crate::encoding::u64_dec_bytes(blob.len() as u64);
            tag.extend_from_slice(len_bytes.as_slice());
            proof {
                assert(tag@ =~= blob_tag(blob@.len()));
            }
            let mut msgs: Vec<&[u8]> = Vec::new();
            msgs.push(tag.as_slice());
            msgs.push(blob.as_slice());
            let h = hash_all_sha384(msgs);
            proof {
                assert(slice_views(msgs@) =~= seq![tag@, blob@]);
            }
            h
        },
        DeepHashItem::List(list) => {
            let mut tag: Vec<u8> = Vec::new();
            tag.push(108);
            tag.push(105);
            tag.push(115);
            tag.push(116);
            let len_bytes = crate::encoding::u64_dec_bytes(list.len() as u64);
            tag.extend_from_slice(len_bytes.as_slice());
            proof {
                assert(tag@ =~= list_tag(list@.len()));
                lemma_items_v_index(list@);
            }
            let mut acc = hash_sha384(tag.as_slice());
            let mut i: usize = 0;
            proof {
                assert(items_v(list@).subrange(0, items_v(list@).len() as int) =~= items_v(
                    list@,
                ));
            }
            while i < list.len()
                invariant
                    i <= list@.len(),
                    acc@.len() == 48,
                    items_v(list@).len() == list@.len(),
                    *item == DeepHashItem::List(*list),
                    deep_hash_list(
                        items_v(list@).subrange(i as int, list@.len() as int),
                        acc@,
                    ) == deep_hash_of(item_v(*item)),
                decreases list@.len() - i,
            {
                let child = &list[i];
                proof {
                    lemma_items_v_index(list@);
                    assert(decreases_to!(*item => *child));
                }
                let child_hash = deep_hash_ref(child);
                let combined = concat_u8_48(&acc, &child_hash);
                let next = hash_sha384(combined.as_slice());
                proof {
                    let tail = items_v(list@).subrange(i as int, list@.len() as int);
                    assert(tail[0] == item_v(list@[i as int]));
                    assert(tail.subrange(1, tail.len() as int) =~= items_v(list@).subrange(
                        i + 1,
                        list@.len() as int,
                    ));
                    assert(deep_hash_list(tail, acc@) == deep_hash_list(
                        items_v(list@).subrange(i + 1, list@.len() as int),
                        sha384_of(acc@ + deep_hash_of(item_v(list@[i as int]))),
                    ));
                }
                acc = next;
                i = i + 1;
            }
            proof {
                assert(items_v(list@).subrange(
                    list@.len() as int,
                    list@.len() as int,
                ) =~= Seq::<ItemV>::empty());
            }
            acc
        },
    }
}

/// Index facts about maximal ranges.
proof fn lemma_full_ranges_facts(m: nat)
    ensures
        full_ranges(m).len() == m,
        forall|i: int|
            0 <= i < m ==> (#[trigger] full_ranges(m)[i]) == (((i * MAX_CHUNK_SIZE) as nat, ((i
                + 1) * MAX_CHUNK_SIZE) as nat)),
        forall|i: int| 0 <= i < m ==> (#[trigger] full_ranges(m)[i]).0 < full_ranges(m)[i].1,
        forall|i: int|
            0 <= i < m ==> (#[trigger] full_ranges(m)[i]).1 - full_ranges(m)[i].0
                == MAX_CHUNK_SIZE as nat,
{
    assert forall|i: int| 0 <= i < m implies (#[trigger] full_ranges(m)[i]).0 < full_ranges(
        m,
    )[i].1 && full_ranges(m)[i].1 - full_ranges(m)[i].0 == MAX_CHUNK_SIZE as nat by {
        assert((i + 1) * MAX_CHUNK_SIZE == i * MAX_CHUNK_SIZE + MAX_CHUNK_SIZE) by (nonlinear_arith);
        assert(i * MAX_CHUNK_SIZE >= 0) by (nonlinear_arith)
            requires
                i >= 0,
        ;
    }
}

} // verus!
