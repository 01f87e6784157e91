//! The mathematical model of the chunk tree: flat node views, tree views, the
//! layered bottom-up construction, the per-leaf proof buffers, and the replay
//! a validator performs against a trusted root id.

use vstd::prelude::*;

use crate::encoding::{be32_bytes, be32_val, dec_bytes, note_bytes, trunc32};
use crate::hashing::{sha256_of, sha384_of, tagged_hash256, tagged_hash384};

verus! {

/// The visible fields of one tree node: id, optional chunk digest, and the
/// absolute byte range the node covers.
pub ghost struct NodeV {
    pub id: Seq<u8>,
    pub data_hash: Option<Seq<u8>>,
    pub min: nat,
    pub max: nat,
}

/// A chunk tree: a leaf carries one chunk's digest, a branch joins exactly
/// two subtrees.
pub ghost enum TreeV {
    Leaf(NodeV),
    Branch(NodeV, Box<TreeV>, Box<TreeV>),
}

impl TreeV {
    /// The node fields at the top of this tree.
    pub open spec fn info(self) -> NodeV {
        match self {
            TreeV::Leaf(nv) => nv,
            TreeV::Branch(nv, _, _) => nv,
        }
    }
}

/// The digest stored in a leaf view, empty if the view is not a leaf.
pub open spec fn nv_hash(nv: NodeV) -> Seq<u8> {
    match nv.data_hash {
        Some(dh) => dh,
        None => Seq::empty(),
    }
}

/// The leaf built over `data[min..max)`: its digest is the chunk's SHA-256
/// hash and its id tags that digest with the chunk's end offset.
pub open spec fn mk_leaf_nv(data: Seq<u8>, min: nat, max: nat) -> NodeV {
    let dh = sha256_of(data.subrange(min as int, max as int));
    NodeV {
        id: tagged_hash256(seq![dh, note_bytes(trunc32(max))]),
        data_hash: Some(dh),
        min,
        max,
    }
}

/// The node fields of a branch over children with fields `l` and `r`: the id
/// tags the children's ids with the split offset, the branch's `min` is the
/// split offset itself and its `max` is the right child's end.
pub open spec fn branch_nv(l: NodeV, r: NodeV) -> NodeV {
    NodeV {
        id: tagged_hash256(seq![l.id, r.id, note_bytes(trunc32(l.max))]),
        data_hash: None,
        min: l.max,
        max: r.max,
    }
}

/// The branch tree joining `l` and `r`.
pub open spec fn tv_branch(l: TreeV, r: TreeV) -> TreeV {
    TreeV::Branch(branch_nv(l.info(), r.info()), Box::new(l), Box::new(r))
}

/// One reduction pass: consecutive pairs become branches; an unpaired last
/// tree is carried forward unchanged.
pub open spec fn layer_tv(s: Seq<TreeV>) -> Seq<TreeV>
    decreases s.len(),
{
    if s.len() <= 1 {
        s
    } else {
        seq![tv_branch(s[0], s[1])] + layer_tv(s.skip(2))
    }
}

/// A pass over two or more trees shortens the sequence to `ceil(len / 2)`.
pub proof fn lemma_layer_tv_len(s: Seq<TreeV>)
    ensures
        layer_tv(s).len() == (s.len() + 1) / 2,
    decreases s.len(),
{
    if s.len() > 1 {
        lemma_layer_tv_len(s.skip(2));
    }
}

/// The tree left after repeating reduction passes until one remains.
pub open spec fn root_tv(s: Seq<TreeV>) -> TreeV
    recommends
        s.len() >= 1,
    decreases s.len(),
        when s.len() >= 1
        via root_tv_dec
{
    if s.len() == 1 {
        s[0]
    } else {
        root_tv(layer_tv(s))
    }
}

#[via_fn]
proof fn root_tv_dec(s: Seq<TreeV>) {
    if s.len() > 1 {
        lemma_layer_tv_len(s);
    }
}

/// The leaf views of a tree, left to right.
pub open spec fn leaves_tv(t: TreeV) -> Seq<NodeV>
    decreases t,
{
    match t {
        TreeV::Leaf(nv) => seq![nv],
        TreeV::Branch(_, l, r) => leaves_tv(*l) + leaves_tv(*r),
    }
}

/// The leaf views of a sequence of trees, concatenated left to right.
pub open spec fn leaves_tv_all(s: Seq<TreeV>) -> Seq<NodeV>
    decreases s.len(),
{
    if s.len() == 0 {
        Seq::empty()
    } else {
        leaves_tv(s[0]) + leaves_tv_all(s.skip(1))
    }
}

/// A proof as a value: the chunk's last byte offset and the serialized
/// root-to-leaf record run.
pub ghost struct ProofV {
    pub offset: nat,
    pub bytes: Seq<u8>,
}

/// The 96-byte record a branch contributes to every proof below it.
pub open spec fn branch_rec(nv: NodeV, l: NodeV, r: NodeV) -> Seq<u8> {
    l.id + r.id + note_bytes(trunc32(nv.min))
}

/// The 64-byte record that ends a leaf's proof.
pub open spec fn leaf_rec(nv: NodeV) -> Seq<u8> {
    nv_hash(nv) + note_bytes(trunc32(nv.max))
}

/// All leaf proofs of `t`, left to right, each starting with `prefix`.
/// A leaf's offset is the last byte of its range, or zero for the
/// zero-length chunk of an empty buffer.
pub open spec fn proofs_tv(t: TreeV, prefix: Seq<u8>) -> Seq<ProofV>
    decreases t,
{
    match t {
        TreeV::Leaf(nv) => seq![
            ProofV {
                offset: if nv.max == 0 {
                    0
                } else {
                    (nv.max - 1) as nat
                },
                bytes: prefix + leaf_rec(nv),
            },
        ],
        TreeV::Branch(nv, l, r) => {
            let rec = branch_rec(nv, l.info(), r.info());
            proofs_tv(*l, prefix + rec) + proofs_tv(*r, prefix + rec)
        },
    }
}

/// Every id and digest is 32 bytes wide, a leaf's id tags its digest with its
/// end offset, and a branch's fields are exactly those derived from its
/// children.
pub open spec fn tv_consistent(t: TreeV) -> bool
    decreases t,
{
    match t {
        TreeV::Leaf(nv) => {
            &&& nv.id.len() == 32
            &&& nv.min <= nv.max
            &&& match nv.data_hash {
                Some(dh) => dh.len() == 32 && nv.id == tagged_hash256(
                    seq![dh, note_bytes(trunc32(nv.max))],
                ),
                None => false,
            }
        },
        TreeV::Branch(nv, l, r) => {
            &&& nv == branch_nv(l.info(), r.info())
            &&& nv.id.len() == 32
            &&& tv_consistent(*l)
            &&& tv_consistent(*r)
        },
    }
}

/// The leaf ranges tile the buffer: each leaf's range is forward, consecutive
/// ranges meet exactly, and only the last leaf may be empty.
pub open spec fn leaves_contiguous(ls: Seq<NodeV>) -> bool {
    &&& forall|i: int| 0 <= i < ls.len() ==> (#[trigger] ls[i]).min <= ls[i].max
    &&& forall|i: int, j: int|
        0 <= i && i + 1 == j && j < ls.len() ==> (#[trigger] ls[i]).max == (#[trigger] ls[j]).min
    &&& forall|i: int| 0 <= i < ls.len() - 1 ==> (#[trigger] ls[i]).min < ls[i].max
}

/// One step of proof replay. `expected` is the id the verifier trusts at this
/// depth, `dh` and `max` are the candidate chunk's digest and end offset, and
/// `records` is what remains of the proof buffer. A branch record must hash
/// to the trusted id, and routing descends right exactly when the chunk ends
/// past the record's split offset. The final leaf record passes when the id
/// recomputed from the candidate matches, or when the record's stored digest
/// matches the candidate's.
#[verifier::opaque]
pub open spec fn replay_ok(expected: Seq<u8>, dh: Seq<u8>, max: nat, records: Seq<u8>) -> bool
    decreases records.len(),
{
    if records.len() == 64 {
        let rec_dh = records.subrange(0, 32);
        tagged_hash256(seq![dh, note_bytes(trunc32(max))]) == expected || dh == rec_dh
    } else if records.len() >= 160 && (records.len() - 64) % 96 == 0 {
        let lid = records.subrange(0, 32);
        let rid = records.subrange(32, 64);
        let off = be32_val(records.subrange(92, 96));
        &&& tagged_hash256(seq![lid, rid, note_bytes(trunc32(off))]) == expected
        &&& replay_ok(
            if max > off {
                rid
            } else {
                lid
            },
            dh,
            max,
            records.skip(96),
        )
    } else {
        false
    }
}

/// A reduction pass keeps the leaves, in order.
pub proof fn lemma_layer_tv_leaves(s: Seq<TreeV>)
    ensures
        leaves_tv_all(layer_tv(s)) == leaves_tv_all(s),
    decreases s.len(),
{
    if s.len() > 1 {
        lemma_layer_tv_leaves(s.skip(2));
        assert(s.skip(1)[0] == s[1]);
        assert(s.skip(1).skip(1) =~= s.skip(2));
        assert(leaves_tv_all(s.skip(1)) =~= leaves_tv(s[1]) + leaves_tv_all(s.skip(2)));
        let lay = layer_tv(s);
        assert(lay[0] == tv_branch(s[0], s[1]));
        assert(lay.skip(1) =~= layer_tv(s.skip(2)));
        assert(leaves_tv_all(lay) =~= leaves_tv(lay[0]) + leaves_tv_all(lay.skip(1)));
        assert(leaves_tv(tv_branch(s[0], s[1])) == leaves_tv(s[0]) + leaves_tv(s[1]));
        assert(leaves_tv_all(s) =~= leaves_tv(s[0]) + (leaves_tv(s[1]) + leaves_tv_all(
            s.skip(2),
        )));
    } else if s.len() == 1 {
        assert(layer_tv(s) == s);
    } else {
        assert(layer_tv(s) == s);
    }
}

/// The root of the reduction has exactly the leaves it started from.
pub proof fn lemma_root_tv_leaves(s: Seq<TreeV>)
    requires
        s.len() >= 1,
    ensures
        leaves_tv(root_tv(s)) == leaves_tv_all(s),
    decreases s.len(),
{
    if s.len() == 1 {
        assert(leaves_tv_all(s) =~= leaves_tv(s[0]) + leaves_tv_all(s.skip(1)));
        assert(leaves_tv_all(s.skip(1)) =~= Seq::<NodeV>::empty());
        assert(leaves_tv_all(s) =~= leaves_tv(s[0]));
    } else {
        lemma_layer_tv_len(s);
        lemma_layer_tv_leaves(s);
        lemma_root_tv_leaves(layer_tv(s));
    }
}

/// A sequence of leaf trees flattens to its own node views, one per tree.
pub proof fn lemma_leaves_of_leaf_seq(s: Seq<TreeV>)
    requires
        forall|i: int| 0 <= i < s.len() ==> (#[trigger] s[i]) is Leaf,
    ensures
        leaves_tv_all(s).len() == s.len(),
        forall|i: int| 0 <= i < s.len() ==> leaves_tv_all(s)[i] == (#[trigger] s[i]).info(),
    decreases s.len(),
{
    if s.len() > 0 {
        assert(forall|i: int| 0 <= i < s.skip(1).len() ==> (#[trigger] s.skip(1)[i]) is Leaf);
        lemma_leaves_of_leaf_seq(s.skip(1));
        assert(leaves_tv(s[0]) == seq![s[0].info()]);
        assert forall|i: int| 0 <= i < s.len() implies leaves_tv_all(s)[i] == (
        #[trigger] s[i]).info() by {
            if i > 0 {
                assert(leaves_tv_all(s)[i] == leaves_tv_all(s.skip(1))[i - 1]);
                assert(s.skip(1)[i - 1] == s[i]);
            }
        }
    }
}

/// A tree yields one proof per leaf, whatever the prefix.
pub proof fn lemma_proofs_tv_len(t: TreeV, prefix: Seq<u8>)
    ensures
        proofs_tv(t, prefix).len() == leaves_tv(t).len(),
        leaves_tv(t).len() >= 1,
    decreases t,
{
    match t {
        TreeV::Leaf(_) => {},
        TreeV::Branch(nv, l, r) => {
            let rec = branch_rec(nv, l.info(), r.info());
            lemma_proofs_tv_len(*l, prefix + rec);
            lemma_proofs_tv_len(*r, prefix + rec);
        },
    }
}

/// The head of a branch proof: the 96-byte record parses back into the
/// children's ids and the split offset, and the remainder follows it.
proof fn lemma_branch_first_record(nv: NodeV, li: NodeV, ri: NodeV, rest: Seq<u8>)
    requires
        li.id.len() == 32,
        ri.id.len() == 32,
        nv == branch_nv(li, ri),
        nv.min <= 0xFFFFFFFF,
        rest.len() >= 64,
        (rest.len() - 64) % 96 == 0,
    ensures
        ({
            let bytes = branch_rec(nv, li, ri) + rest;
            &&& bytes.len() == 96 + rest.len()
            &&& bytes.len() >= 160
            &&& (bytes.len() - 64) % 96 == 0
            &&& bytes.subrange(0, 32) == li.id
            &&& bytes.subrange(32, 64) == ri.id
            &&& be32_val(bytes.subrange(92, 96)) == nv.min
            &&& bytes.skip(96) == rest
        }),
{
    let rec = branch_rec(nv, li, ri);
    let bytes = rec + rest;
    assert(rec.len() == 96);
    assert((96 + rest.len() - 64) % 96 == 0) by (nonlinear_arith)
        requires
            rest.len() >= 64,
            (rest.len() - 64) % 96 == 0,
    ;
    assert(bytes.subrange(0, 32) =~= li.id);
    assert(bytes.subrange(32, 64) =~= ri.id);
    assert(trunc32(nv.min) == nv.min);
    assert(bytes.subrange(92, 96) =~= be32_bytes(trunc32(nv.min)));
    crate::encoding::lemma_be32_roundtrip(trunc32(nv.min));
    assert(bytes.skip(96) =~= rest);
}

/// Which way the replay routes at the top of a consistent branch: a leaf
/// under the left child ends at or before the split; a non-empty leaf under
/// the right child ends strictly past it; the zero-length trailing leaf
/// ends exactly at the split when it is the right child itself, and
/// strictly past it when it sits deeper.
#[verifier::rlimit(100)]
#[verifier::spinoff_prover]
proof fn lemma_branch_routing(nv: NodeV, l: TreeV, r: TreeV, i: int)
    requires
        tv_consistent(l),
        tv_consistent(r),
        nv == branch_nv(l.info(), r.info()),
        leaves_contiguous(leaves_tv(l) + leaves_tv(r)),
        0 <= i < (leaves_tv(l) + leaves_tv(r)).len(),
    ensures
        ({
            let a = leaves_tv(l);
            let b = leaves_tv(r);
            let k = a.len() as int;
            let leaf = (a + b)[i];
            &&& leaves_contiguous(a)
            &&& leaves_contiguous(b)
            &&& (i < k ==> leaf == a[i] && leaf.max <= nv.min)
            &&& (i >= k ==> leaf == b[i - k])
            &&& (i >= k && leaf.min < leaf.max ==> leaf.max > nv.min)
            &&& (i >= k && leaf.min == leaf.max && r is Leaf ==> i - k == 0 && leaf.max == nv.min)
            &&& (i >= k && leaf.min == leaf.max && r is Branch ==> leaf.max > nv.min)
        }),
{
    let a = leaves_tv(l);
    let b = leaves_tv(r);
    let w = a + b;
    let k = a.len() as int;
    let leaf = w[i];
    lemma_tv_info_max(l);
    lemma_tv_info_max(r);
    lemma_contiguous_split(a, b);
    assert(nv.min == l.info().max);
    assert(a.last().max == nv.min);
    assert(b.first().min == nv.min);
    if i < k {
        lemma_contiguous_mono(a, i, k - 1);
        assert(leaf == a[i]);
    } else {
        let j = i - k;
        assert(leaf == b[j]);
        if leaf.min < leaf.max {
            lemma_contiguous_mono(b, 0, j);
        } else {
            assert(i == w.len() - 1);
            match r {
                TreeV::Leaf(_) => {
                    assert(b.len() == 1);
                },
                TreeV::Branch(_, rl, rr) => {
                    assert(tv_consistent(*rl));
                    assert(tv_consistent(*rr));
                    lemma_tv_info_max(*rl);
                    lemma_tv_info_max(*rr);
                    assert(b.len() >= 2);
                    assert(b[0] == w[k]);
                    assert(k < w.len() - 1);
                    assert(b[0].min < b[0].max);
                    assert(b[0].max == b[1].min);
                    lemma_contiguous_mono(b, 1, j);
                },
            }
        }
    }
}

/// Replaying a tree's own proof for any of its leaves against the tree's
/// root id succeeds, provided the tree is consistent, its leaf ranges tile
/// the buffer with only the last possibly empty, and every offset fits in
/// 32 bits. Routing goes left when the leaf ends at or before a record's
/// split offset; the zero-length trailing leaf is routed away from itself
/// at its parent, and its proof is then accepted by the leaf record's
/// stored digest.
#[verifier::rlimit(100)]
#[verifier::spinoff_prover]
pub proof fn lemma_replay_roundtrip(t: TreeV, i: int)
    requires
        tv_consistent(t),
        leaves_contiguous(leaves_tv(t)),
        t.info().max <= 0xFFFFFFFF,
        0 <= i < leaves_tv(t).len(),
    ensures
        proofs_tv(t, Seq::empty()).len() == leaves_tv(t).len(),
        replay_ok(
            t.info().id,
            nv_hash(leaves_tv(t)[i]),
            leaves_tv(t)[i].max,
            proofs_tv(t, Seq::empty())[i].bytes,
        ),
    decreases t,
{
    lemma_proofs_tv_len(t, Seq::empty());
    match t {
        TreeV::Leaf(nv) => {
            let bytes = proofs_tv(t, Seq::empty())[0].bytes;
            assert(bytes =~= leaf_rec(nv));
            assert(bytes.len() == 64);
            lemma_replay_leaf(nv.id, nv_hash(nv), nv.max, bytes);
            assert(seq![nv_hash(nv), note_bytes(trunc32(nv.max))] =~= seq![
                nv.data_hash->Some_0,
                note_bytes(trunc32(nv.max)),
            ]);
        },
        TreeV::Branch(nv, l, r) => {
            let a = leaves_tv(*l);
            let b = leaves_tv(*r);
            let rec = branch_rec(nv, l.info(), r.info());
            lemma_tv_consistent_id_len(*l);
            lemma_tv_consistent_id_len(*r);
            lemma_tv_info_max(*l);
            lemma_tv_info_max(*r);
            lemma_tv_info_max(t);
            lemma_branch_routing(nv, *l, *r, i);
            assert(leaves_tv(t)[a.len() - 1] == a.last());
            lemma_contiguous_mono(leaves_tv(t), a.len() - 1, leaves_tv(t).len() - 1);
            assert(nv.min == l.info().max);
            assert(a.last().max == nv.min);
            assert(nv.min <= 0xFFFFFFFF);
            lemma_proofs_tv_len(*l, Seq::empty());
            lemma_proofs_tv_len(*r, Seq::empty());
            lemma_proofs_tv_len(*l, Seq::empty() + rec);
            lemma_proofs_tv_len(*r, Seq::empty() + rec);
            let k = a.len() as int;
            let leaf = leaves_tv(t)[i];
            let mx = leaf.max;
            lemma_contiguous_mono(leaves_tv(t), i, leaves_tv(t).len() - 1);
            lemma_tv_info_max(t);
            assert(mx <= nv.max);
            let rest = if i < k {
                proofs_tv(*l, Seq::empty())[i].bytes
            } else {
                proofs_tv(*r, Seq::empty())[i - k].bytes
            };
            if i < k {
                lemma_proofs_tv_prefix(*l, Seq::empty() + rec, i);
                lemma_proofs_tv_bytes_len(*l, i);
            } else {
                lemma_proofs_tv_prefix(*r, Seq::empty() + rec, i - k);
                lemma_proofs_tv_bytes_len(*r, i - k);
            }
            let bytes = proofs_tv(t, Seq::empty())[i].bytes;
            assert(bytes == (Seq::empty() + rec) + rest);
            assert(bytes =~= rec + rest);
            lemma_branch_first_record(nv, l.info(), r.info(), rest);
            let off = be32_val(bytes.subrange(92, 96));
            assert(off == nv.min);
            lemma_replay_step(nv.id, nv_hash(leaf), mx, bytes);
            assert(seq![bytes.subrange(0, 32), bytes.subrange(32, 64), note_bytes(
                trunc32(off),
            )] =~= seq![l.info().id, r.info().id, note_bytes(trunc32(nv.min))]);
            assert(tagged_hash256(
                seq![bytes.subrange(0, 32), bytes.subrange(32, 64), note_bytes(trunc32(off))],
            ) == nv.id);
            if i < k {
                assert(!(mx > off));
                lemma_replay_roundtrip(*l, i);
            } else {
                let j = i - k;
                if leaf.min < mx {
                    assert(mx > off);
                    lemma_replay_roundtrip(*r, j);
                } else {
                    match *r {
                        TreeV::Leaf(rnv) => {
                            assert(!(mx > off));
                            assert(tv_consistent(*r));
                            assert(rnv.data_hash is Some && rnv.data_hash->Some_0.len() == 32);
                            assert(rest =~= Seq::empty() + leaf_rec(rnv));
                            assert(rest =~= leaf_rec(rnv));
                            assert(rest.len() == 64);
                            lemma_replay_leaf(l.info().id, nv_hash(leaf), mx, rest);
                            assert(rest.subrange(0, 32) =~= nv_hash(rnv));
                        },
                        TreeV::Branch(rnv2, rl, rr) => {
                            assert(mx > off);
                            lemma_replay_roundtrip(*r, j);
                        },
                    }
                }
            }
        },
    }
}

/// A value to be deep hashed: a byte run, or an ordered list of such values.
pub ghost enum ItemV {
    Blob(Seq<u8>),
    List(Seq<ItemV>),
}

/// The tag hashed in front of a blob: ASCII "blob" then the byte count in
/// decimal.
pub open spec fn blob_tag(len: nat) -> Seq<u8> {
    seq![98u8, 108u8, 111u8, 98u8] + dec_bytes(len)
}

/// The tag hashed in front of a list: ASCII "list" then the child count in
/// decimal.
pub open spec fn list_tag(len: nat) -> Seq<u8> {
    seq![108u8, 105u8, 115u8, 116u8] + dec_bytes(len)
}

/// The 48-byte deep-hash digest: a blob is the 384-bit tagged hash of its
/// tag and its bytes; a list starts from the hash of its tag and folds each
/// child's digest in, in order.
pub open spec fn deep_hash_of(item: ItemV) -> Seq<u8>
    decreases item, 1int,
{
    match item {
        ItemV::Blob(b) => tagged_hash384(seq![blob_tag(b.len()), b]),
        ItemV::List(children) => deep_hash_list(children, sha384_of(list_tag(children.len()))),
    }
}

/// Folds the children's digests into the accumulator, left to right:
/// each step hashes the 96-byte concatenation of the accumulator and the
/// child's digest down to 48 bytes again.
pub open spec fn deep_hash_list(children: Seq<ItemV>, acc: Seq<u8>) -> Seq<u8>
    decreases children, 0int,
{
    if children.len() == 0 {
        acc
    } else {
        deep_hash_list(
            children.subrange(1, children.len() as int),
            sha384_of(acc + deep_hash_of(children[0])),
        )
    }
}

/// In a consistent tree the top id is 32 bytes wide.
pub proof fn lemma_tv_consistent_id_len(t: TreeV)
    requires
        tv_consistent(t),
    ensures
        t.info().id.len() == 32,
{
    match t {
        TreeV::Leaf(_) => {},
        TreeV::Branch(_, _, _) => {},
    }
}

/// A proof's bytes with a prefix are the prefix followed by the proof's
/// bytes without one; the offsets agree.
pub proof fn lemma_proofs_tv_prefix(t: TreeV, prefix: Seq<u8>, i: int)
    requires
        0 <= i < proofs_tv(t, Seq::empty()).len(),
    ensures
        proofs_tv(t, prefix).len() == proofs_tv(t, Seq::empty()).len(),
        proofs_tv(t, prefix)[i].offset == proofs_tv(t, Seq::empty())[i].offset,
        proofs_tv(t, prefix)[i].bytes == prefix + proofs_tv(t, Seq::empty())[i].bytes,
    decreases t,
{
    match t {
        TreeV::Leaf(nv) => {
            assert(prefix + (Seq::<u8>::empty() + leaf_rec(nv)) =~= prefix + leaf_rec(nv));
        },
        TreeV::Branch(nv, l, r) => {
            let rec = branch_rec(nv, l.info(), r.info());
            assert(Seq::<u8>::empty() + rec =~= rec);
            lemma_proofs_tv_len(*l, prefix + rec);
            lemma_proofs_tv_len(*l, rec);
            lemma_proofs_tv_len(*l, Seq::empty());
            lemma_proofs_tv_len(*r, prefix + rec);
            lemma_proofs_tv_len(*r, rec);
            lemma_proofs_tv_len(*r, Seq::empty());
            let k = leaves_tv(*l).len() as int;
            if i < k {
                lemma_proofs_tv_prefix(*l, prefix + rec, i);
                lemma_proofs_tv_prefix(*l, rec, i);
                assert((prefix + rec) + proofs_tv(*l, Seq::empty())[i].bytes =~= prefix + (rec
                    + proofs_tv(*l, Seq::empty())[i].bytes));
            } else {
                lemma_proofs_tv_prefix(*r, prefix + rec, i - k);
                lemma_proofs_tv_prefix(*r, rec, i - k);
                assert((prefix + rec) + proofs_tv(*r, Seq::empty())[i - k].bytes =~= prefix + (rec
                    + proofs_tv(*r, Seq::empty())[i - k].bytes));
            }
        },
    }
}

/// In a consistent tree every proof is one or more 96-byte branch records
/// followed by one 64-byte leaf record.
pub proof fn lemma_proofs_tv_bytes_len(t: TreeV, i: int)
    requires
        tv_consistent(t),
        0 <= i < proofs_tv(t, Seq::empty()).len(),
    ensures
        proofs_tv(t, Seq::empty())[i].bytes.len() >= 64,
        (proofs_tv(t, Seq::empty())[i].bytes.len() - 64) % 96 == 0,
    decreases t,
{
    match t {
        TreeV::Leaf(nv) => {
            assert(proofs_tv(t, Seq::empty())[0].bytes.len() == 64);
        },
        TreeV::Branch(nv, l, r) => {
            let rec = branch_rec(nv, l.info(), r.info());
            lemma_tv_consistent_id_len(*l);
            lemma_tv_consistent_id_len(*r);
            assert(rec.len() == 96);
            lemma_proofs_tv_len(*l, Seq::empty());
            lemma_proofs_tv_len(*r, Seq::empty());
            lemma_proofs_tv_len(*l, Seq::empty() + rec);
            lemma_proofs_tv_len(*r, Seq::empty() + rec);
            let k = leaves_tv(*l).len() as int;
            if i < k {
                lemma_proofs_tv_prefix(*l, Seq::empty() + rec, i);
                lemma_proofs_tv_bytes_len(*l, i);
                let rest = proofs_tv(*l, Seq::empty())[i].bytes;
                assert(proofs_tv(t, Seq::empty())[i].bytes.len() == 96 + rest.len());
                assert((96 + rest.len() - 64) % 96 == 0) by (nonlinear_arith)
                    requires
                        (rest.len() - 64) % 96 == 0,
                        rest.len() >= 64,
                ;
            } else {
                lemma_proofs_tv_prefix(*r, Seq::empty() + rec, i - k);
                lemma_proofs_tv_bytes_len(*r, i - k);
                let rest = proofs_tv(*r, Seq::empty())[i - k].bytes;
                assert(proofs_tv(t, Seq::empty())[i].bytes.len() == 96 + rest.len());
                assert((96 + rest.len() - 64) % 96 == 0) by (nonlinear_arith)
                    requires
                        (rest.len() - 64) % 96 == 0,
                        rest.len() >= 64,
                ;
            }
        },
    }
}

/// In a consistent tree the top node ends where its last leaf ends.
pub proof fn lemma_tv_info_max(t: TreeV)
    requires
        tv_consistent(t),
    ensures
        leaves_tv(t).len() >= 1,
        leaves_tv(t).last().max == t.info().max,
    decreases t,
{
    match t {
        TreeV::Leaf(_) => {},
        TreeV::Branch(nv, l, r) => {
            lemma_tv_info_max(*l);
            lemma_tv_info_max(*r);
            assert(leaves_tv(t).last() == leaves_tv(*r).last());
        },
    }
}

/// Along contiguous leaves both ends of the ranges grow with the index.
pub proof fn lemma_contiguous_mono(ls: Seq<NodeV>, i: int, j: int)
    requires
        leaves_contiguous(ls),
        0 <= i <= j < ls.len(),
    ensures
        ls[i].max <= ls[j].max,
        ls[i].min <= ls[j].min,
    decreases j - i,
{
    if i < j {
        lemma_contiguous_mono(ls, i + 1, j);
        assert(ls[i].max == ls[i + 1].min);
    }
}

/// Contiguity splits at a concatenation: both halves are contiguous and
/// they meet where the left half ends.
pub proof fn lemma_contiguous_split(a: Seq<NodeV>, b: Seq<NodeV>)
    requires
        leaves_contiguous(a + b),
        a.len() >= 1,
        b.len() >= 1,
    ensures
        leaves_contiguous(a),
        leaves_contiguous(b),
        a.last().max == b.first().min,
{
    let w = a + b;
    assert forall|i: int| 0 <= i < a.len() implies (#[trigger] a[i]).min <= a[i].max by {
        assert(a[i] == w[i]);
    }
    assert forall|i: int, j: int| 0 <= i && i + 1 == j && j < a.len() implies (
    #[trigger] a[i]).max == (#[trigger] a[j]).min by {
        assert(a[i] == w[i] && a[j] == w[j]);
        assert(w[i].max == w[j].min);
    }
    assert forall|i: int| 0 <= i < a.len() - 1 implies (#[trigger] a[i]).min < a[i].max by {
        assert(a[i] == w[i]);
    }
    assert forall|i: int| 0 <= i < b.len() implies (#[trigger] b[i]).min <= b[i].max by {
        assert(b[i] == w[a.len() + i]);
    }
    assert forall|i: int, j: int| 0 <= i && i + 1 == j && j < b.len() implies (
    #[trigger] b[i]).max == (#[trigger] b[j]).min by {
        assert(b[i] == w[a.len() + i] && b[j] == w[a.len() + j]);
        assert(w[a.len() + i].max == w[a.len() + j].min);
    }
    assert forall|i: int| 0 <= i < b.len() - 1 implies (#[trigger] b[i]).min < b[i].max by {
        assert(b[i] == w[a.len() + i]);
    }
    assert(a.last() == w[a.len() - 1]);
    assert(b.first() == w[a.len() as int]);
    assert(w[a.len() - 1].max == w[a.len() as int].min);
}

/// Unfolds one branch step of the replay.
pub proof fn lemma_replay_step(expected: Seq<u8>, dh: Seq<u8>, max: nat, records: Seq<u8>)
    requires
        records.len() >= 160,
        (records.len() - 64) % 96 == 0,
    ensures
        replay_ok(expected, dh, max, records) == ({
            let lid = records.subrange(0, 32);
            let rid = records.subrange(32, 64);
            let off = be32_val(records.subrange(92, 96));
            &&& tagged_hash256(seq![lid, rid, note_bytes(trunc32(off))]) == expected
            &&& replay_ok(
                if max > off {
                    rid
                } else {
                    lid
                },
                dh,
                max,
                records.skip(96),
            )
        }),
{
    reveal_with_fuel(replay_ok, 2);
}

/// Unfolds the final leaf step of the replay.
pub proof fn lemma_replay_leaf(expected: Seq<u8>, dh: Seq<u8>, max: nat, records: Seq<u8>)
    requires
        records.len() == 64,
    ensures
        replay_ok(expected, dh, max, records) == (tagged_hash256(
            seq![dh, note_bytes(trunc32(max))],
        ) == expected || dh == records.subrange(0, 32)),
{
    reveal_with_fuel(replay_ok, 2);
}

} // verus!
