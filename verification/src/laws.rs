//! Library-wide laws: determinism of the chunk tree and the round trip from
//! building proofs to validating them.

use vstd::prelude::*;

use crate::merkle::{
    chunk_ranges, leaves_tv_of, lemma_chunk_ranges_partition, node_tv, proof_views, views_of,
};
use crate::model::{
    leaves_contiguous, leaves_tv, leaves_tv_all, lemma_leaves_of_leaf_seq, lemma_proofs_tv_bytes_len,
    lemma_proofs_tv_len, lemma_replay_roundtrip, lemma_root_tv_leaves, lemma_tv_info_max,
    mk_leaf_nv, nv_hash, proofs_tv, replay_ok, root_tv, TreeV,
};
use crate::transaction::{kept_count, merklize_post, Transaction};

verus! {

/// Determinism: merklizing the same bytes twice yields an identical root
/// id, identical chunk views and an identical ordered proof set.
pub proof fn lemma_merklize_deterministic(
    d1: Seq<u8>,
    t1: Transaction,
    d2: Seq<u8>,
    t2: Transaction,
)
    requires
        merklize_post(d1, t1),
        merklize_post(d2, t2),
        d1 == d2,
    ensures
        t1.data_root.0@ == t2.data_root.0@,
        views_of(t1.chunks@) == views_of(t2.chunks@),
        proof_views(t1.proofs@) == proof_views(t2.proofs@),
{
}

/// Partition: the leaves the splitter produces for a buffer tile `[0, len)`
/// contiguously and in order: the first starts at zero, each ends where the
/// next begins, the last ends at the buffer's length, no chunk exceeds the
/// maximum chunk size, and only the last chunk may be empty. The premise is
/// exactly what `generate_leaves` ensures of its result.
#[verifier::rlimit(100)]
#[verifier::spinoff_prover]
pub proof fn lemma_leaf_ranges_partition(data: Seq<u8>, leaves: Seq<crate::merkle::Node>)
    requires
        views_of(leaves) == leaves_tv_of(data),
    ensures
        leaves.len() >= 1,
        leaves[0].min_byte_range == 0,
        leaves[leaves.len() - 1].max_byte_range == data.len(),
        forall|i: int|
            0 <= i < leaves.len() ==> (#[trigger] leaves[i]).min_byte_range
                <= leaves[i].max_byte_range,
        forall|i: int|
            0 <= i < leaves.len() ==> (#[trigger] leaves[i]).max_byte_range
                - leaves[i].min_byte_range <= crate::merkle::MAX_CHUNK_SIZE as int,
        forall|i: int, j: int|
            0 <= i && i + 1 == j && j < leaves.len() ==> (
            #[trigger] leaves[i]).max_byte_range == (#[trigger] leaves[j]).min_byte_range,
        forall|i: int|
            0 <= i < leaves.len() - 1 ==> (#[trigger] leaves[i]).min_byte_range
                < leaves[i].max_byte_range,
{
    let rs = chunk_ranges(data.len());
    lemma_chunk_ranges_partition(data.len());
    assert(views_of(leaves).len() == leaves.len());
    assert(leaves_tv_of(data).len() == rs.len());
    assert(leaves.len() == rs.len());
    assert forall|i: int| 0 <= i < leaves.len() implies node_tv(#[trigger] leaves[i])
        == TreeV::Leaf(mk_leaf_nv(data, rs[i].0, rs[i].1)) by {
        assert(views_of(leaves)[i] == node_tv(leaves[i]));
        assert(leaves_tv_of(data)[i] == TreeV::Leaf(mk_leaf_nv(data, rs[i].0, rs[i].1)));
    }
    assert forall|i: int| 0 <= i < leaves.len() implies (#[trigger] leaves[i]).min_byte_range
        == rs[i].0 && leaves[i].max_byte_range == rs[i].1 by {
        crate::merkle::lemma_node_tv_info(leaves[i]);
    }
}

/// The leaves built over a buffer tile `[0, len)` contiguously, with only
/// the last leaf possibly empty.
#[verifier::rlimit(100)]
#[verifier::spinoff_prover]
proof fn lemma_built_leaves_contiguous(data: Seq<u8>)
    ensures
        leaves_contiguous(leaves_tv_all(leaves_tv_of(data))),
        leaves_tv_all(leaves_tv_of(data)).len() == chunk_ranges(data.len()).len(),
        forall|i: int|
            0 <= i < chunk_ranges(data.len()).len() ==> leaves_tv_all(leaves_tv_of(data))[i]
                == mk_leaf_nv(
                data,
                (#[trigger] chunk_ranges(data.len())[i]).0,
                chunk_ranges(data.len())[i].1,
            ),
{
    let ltv = leaves_tv_of(data);
    let rs = chunk_ranges(data.len());
    lemma_chunk_ranges_partition(data.len());
    assert(forall|i: int| 0 <= i < ltv.len() ==> (#[trigger] ltv[i]) is Leaf);
    lemma_leaves_of_leaf_seq(ltv);
    let ls = leaves_tv_all(ltv);
    assert forall|i: int| 0 <= i < ls.len() implies (#[trigger] ls[i]).min <= ls[i].max by {
        assert(ls[i] == ltv[i].info());
    }
    assert forall|i: int, j: int| 0 <= i && i + 1 == j && j < ls.len() implies (
    #[trigger] ls[i]).max == (#[trigger] ls[j]).min by {
        assert(ls[i] == ltv[i].info());
        assert(ls[j] == ltv[j].info());
        assert(rs[i].1 == rs[j].0);
    }
    assert forall|i: int| 0 <= i < ls.len() - 1 implies (#[trigger] ls[i]).min < ls[i].max by {
        assert(ls[i] == ltv[i].info());
    }
    assert forall|i: int| 0 <= i < rs.len() implies ls[i] == mk_leaf_nv(
        data,
        (#[trigger] rs[i]).0,
        rs[i].1,
    ) by {
        assert(ltv[i] == TreeV::Leaf(mk_leaf_nv(data, rs[i].0, rs[i].1)));
        assert(ls[i] == ltv[i].info());
    }
}

/// The counts that `merklize` leaves behind: one kept proof and one kept
/// chunk per kept range, out of one leaf and one proof per range.
#[verifier::rlimit(100)]
#[verifier::spinoff_prover]
proof fn lemma_merklize_counts(data: Seq<u8>, t: Transaction)
    requires
        merklize_post(data, t),
    ensures
        leaves_tv(root_tv(leaves_tv_of(data))) == leaves_tv_all(leaves_tv_of(data)),
        leaves_tv(root_tv(leaves_tv_of(data))).len() == chunk_ranges(data.len()).len(),
        proofs_tv(root_tv(leaves_tv_of(data)), Seq::empty()).len() == chunk_ranges(
            data.len(),
        ).len(),
        kept_count(data.len()) <= chunk_ranges(data.len()).len(),
        t.proofs@.len() == kept_count(data.len()),
        t.chunks@.len() == kept_count(data.len()),
{
    let ltv = leaves_tv_of(data);
    let rs = chunk_ranges(data.len());
    let root = root_tv(ltv);
    let kept = kept_count(data.len()) as int;
    lemma_chunk_ranges_partition(data.len());
    assert(forall|j: int| 0 <= j < ltv.len() ==> (#[trigger] ltv[j]) is Leaf);
    lemma_leaves_of_leaf_seq(ltv);
    lemma_root_tv_leaves(ltv);
    lemma_proofs_tv_len(root, Seq::empty());
    assert(proof_views(t.proofs@).len() == t.proofs@.len());
    assert(views_of(t.chunks@).len() == t.chunks@.len());
    assert(proof_views(t.proofs@).len() == kept);
    assert(views_of(t.chunks@).len() == kept);
}

/// Round trip: every proof that `merklize` derives from a buffer replays
/// successfully against the transaction's own data root, so validation
/// accepts each kept chunk with its proof. Offsets must fit the 32-bit
/// note field, so the buffer may not exceed the largest 32-bit length.
#[verifier::rlimit(100)]
#[verifier::spinoff_prover]
pub proof fn lemma_merklize_roundtrip(data: Seq<u8>, t: Transaction, i: int)
    requires
        merklize_post(data, t),
        data.len() <= 0xFFFFFFFF,
        0 <= i < t.proofs@.len(),
    ensures
        t.proofs@.len() == t.chunks@.len(),
        t.chunks@[i].data_hash is Some,
        t.proofs@[i].proof@.len() >= 64,
        (t.proofs@[i].proof@.len() - 64) % 96 == 0,
        replay_ok(
            t.data_root.0@,
            t.chunks@[i].data_hash->Some_0@,
            t.chunks@[i].max_byte_range as nat,
            t.proofs@[i].proof@,
        ),
{
    let ltv = leaves_tv_of(data);
    let rs = chunk_ranges(data.len());
    let root = root_tv(ltv);
    let kept = kept_count(data.len()) as int;
    lemma_merklize_counts(data, t);
    lemma_built_leaves_contiguous(data);
    lemma_chunk_ranges_partition(data.len());
    lemma_tv_info_max(root);
    // the root covers exactly the buffer, so offsets fit in 32 bits
    assert(leaves_tv(root).last().max == rs[rs.len() - 1].1);
    assert(root.info().max <= 0xFFFFFFFF);
    lemma_replay_roundtrip(root, i);
    // the exec views match the model's leaf and proof at this index
    assert(proof_views(t.proofs@)[i] == t.proofs@[i]@);
    assert(t.proofs@[i].proof@ == proofs_tv(root, Seq::empty())[i].bytes);
    assert(views_of(t.chunks@)[i] == node_tv(t.chunks@[i]));
    assert(node_tv(t.chunks@[i]) == ltv[i]);
    assert(ltv[i] == TreeV::Leaf(mk_leaf_nv(data, rs[i].0, rs[i].1)));
    crate::merkle::lemma_node_tv_info(t.chunks@[i]);
    assert(leaves_tv(root)[i] == mk_leaf_nv(data, rs[i].0, rs[i].1));
    assert(t.chunks@[i].data_hash->Some_0@ == nv_hash(leaves_tv(root)[i]));
    assert(t.chunks@[i].max_byte_range as nat == leaves_tv(root)[i].max);
    lemma_proofs_tv_bytes_len(root, i);
}

} // verus!
