use arweave_tx::encoding::u64_dec_bytes;
use arweave_tx::error::Error;
use arweave_tx::hashing::{concat_u8_48, hash_all_sha256, hash_sha256, hash_sha256_old, hash_sha384};
use arweave_tx::merkle::{
    build_layer, generate_data_root, generate_leaves, hash_branch, resolve_proofs, validate_chunk,
    Helpers, Node, MAX_CHUNK_SIZE, MIN_CHUNK_SIZE,
};

fn hex(bytes: &[u8]) -> String {
    bytes.iter().map(|b| format!("{:02x}", b)).collect()
}

fn pattern(len: usize) -> Vec<u8> {
    (0..len).map(|i| (i % 251) as u8).collect()
}

#[test]
fn sha256_matches_known_vector() {
    assert_eq!(
        hex(&hash_sha256(&[])),
        "e3b0c44298fc1c149afbf4c8996fb92427ae41e4649b934ca495991b7852b855"
    );
    assert_eq!(
        hex(&hash_sha256(b"abc")),
        "ba7816bf8f01cfea414140de5dae2223b00361a396177a9cb410ff61f20015ad"
    );
}

#[test]
fn sha256_old_agrees_with_sha256() {
    for msg in [&b""[..], b"abc", b"chunky bytes"] {
        assert_eq!(hash_sha256(msg), hash_sha256_old(msg));
    }
}

#[test]
fn sha384_matches_known_vector() {
    assert_eq!(
        hex(&hash_sha384(b"abc")),
        "cb00753f45a35e8bb5a03d699ac65007272c32ab0eded1631a8b605a43ff5bed8086072ba1e7cc2358baeca134c825a7"
    );
}

#[test]
fn tagged_hash_hashes_the_concatenated_digests() {
    let a = b"first message".to_vec();
    let b = b"second message".to_vec();
    let mut concat = hash_sha256(&a);
    concat.extend_from_slice(&hash_sha256(&b));
    let expected = hash_sha256(&concat);
    assert_eq!(hash_all_sha256(vec![&a, &b]), expected);
}

#[test]
fn note_vec_is_28_zeros_then_big_endian_offset() {
    let note = 0x01020304u32.to_note_vec();
    assert_eq!(note.len(), 32);
    assert_eq!(&note[..28], &[0u8; 28]);
    assert_eq!(&note[28..], &[1, 2, 3, 4]);
}

#[test]
fn decimal_bytes_render_numbers() {
    assert_eq!(u64_dec_bytes(0), b"0".to_vec());
    assert_eq!(u64_dec_bytes(42), b"42".to_vec());
    assert_eq!(u64_dec_bytes(u64::MAX), b"18446744073709551615".to_vec());
}

#[test]
fn empty_buffer_yields_one_empty_leaf() {
    let leaves = generate_leaves(Vec::new()).unwrap();
    assert_eq!(leaves.len(), 1);
    assert_eq!(leaves[0].min_byte_range, 0);
    assert_eq!(leaves[0].max_byte_range, 0);
    let root = generate_data_root(leaves).unwrap();
    let data_hash = hash_sha256(&[]);
    let note = 0u32.to_note_vec();
    let expected = hash_all_sha256(vec![&data_hash, &note]);
    assert_eq!(root.id, expected);
}

#[test]
fn trailing_remainder_at_or_above_min_splits_plainly() {
    let len = 300 * 1024;
    assert!(len > MAX_CHUNK_SIZE && len < 2 * MAX_CHUNK_SIZE);
    assert!(len - MAX_CHUNK_SIZE >= MIN_CHUNK_SIZE);
    let leaves = generate_leaves(pattern(len)).unwrap();
    assert_eq!(leaves.len(), 2);
    assert_eq!(
        (leaves[0].min_byte_range, leaves[0].max_byte_range),
        (0, MAX_CHUNK_SIZE)
    );
    assert_eq!(
        (leaves[1].min_byte_range, leaves[1].max_byte_range),
        (MAX_CHUNK_SIZE, len)
    );
}

#[test]
fn small_trailing_remainder_merges_and_resplits() {
    let len = 257 * 1024;
    assert!(len % MAX_CHUNK_SIZE < MIN_CHUNK_SIZE);
    let leaves = generate_leaves(pattern(len)).unwrap();
    assert_eq!(leaves.len(), 2);
    let half = len / 2 + (len % 2);
    assert_eq!(half, 131584);
    assert_eq!((leaves[0].min_byte_range, leaves[0].max_byte_range), (0, half));
    assert_eq!((leaves[1].min_byte_range, leaves[1].max_byte_range), (half, len));
}

#[test]
fn exact_multiple_appends_zero_length_leaf() {
    let len = MAX_CHUNK_SIZE;
    let leaves = generate_leaves(pattern(len)).unwrap();
    assert_eq!(leaves.len(), 2);
    assert_eq!((leaves[0].min_byte_range, leaves[0].max_byte_range), (0, len));
    assert_eq!((leaves[1].min_byte_range, leaves[1].max_byte_range), (len, len));
}

#[test]
fn chunk_ranges_partition_every_length() {
    let lengths = [
        0usize,
        1,
        100,
        MIN_CHUNK_SIZE - 1,
        MAX_CHUNK_SIZE - 1,
        MAX_CHUNK_SIZE,
        MAX_CHUNK_SIZE + 1,
        MAX_CHUNK_SIZE + MIN_CHUNK_SIZE - 1,
        MAX_CHUNK_SIZE + MIN_CHUNK_SIZE,
        2 * MAX_CHUNK_SIZE,
        600_000,
    ];
    for &len in lengths.iter() {
        let leaves = generate_leaves(pattern(len)).unwrap();
        assert!(!leaves.is_empty(), "length {}", len);
        assert_eq!(leaves[0].min_byte_range, 0);
        assert_eq!(leaves[leaves.len() - 1].max_byte_range, len);
        for (i, leaf) in leaves.iter().enumerate() {
            assert!(leaf.min_byte_range <= leaf.max_byte_range);
            assert!(leaf.max_byte_range - leaf.min_byte_range <= MAX_CHUNK_SIZE);
            if i + 1 < leaves.len() {
                assert_eq!(leaf.max_byte_range, leaves[i + 1].min_byte_range);
                assert!(leaf.min_byte_range < leaf.max_byte_range);
            }
        }
    }
}

#[test]
fn hash_branch_tags_children_with_split_offset() {
    let data = pattern(300 * 1024);
    let leaves = generate_leaves(data).unwrap();
    let left = leaves[0].clone();
    let right = leaves[1].clone();
    let note = (left.max_byte_range as u32).to_note_vec();
    let expected = hash_all_sha256(vec![&left.id, &right.id, &note]);
    let branch = hash_branch(left.clone(), right.clone()).unwrap();
    assert_eq!(branch.id, expected);
    assert_eq!(branch.min_byte_range, left.max_byte_range);
    assert_eq!(branch.max_byte_range, right.max_byte_range);
    assert!(branch.data_hash.is_none());
}

#[test]
fn build_layer_carries_odd_node_unchanged() {
    let data = pattern(600_000);
    let leaves = generate_leaves(data).unwrap();
    assert_eq!(leaves.len(), 3);
    let layer = build_layer(leaves.clone()).unwrap();
    assert_eq!(layer.len(), 2);
    assert_eq!(layer[1], leaves[2]);
    assert!(layer[0].data_hash.is_none());
}

#[test]
fn resolve_proofs_emits_one_proof_per_leaf_in_order() {
    let data = pattern(600_000);
    let leaves = generate_leaves(data).unwrap();
    let root = generate_data_root(leaves.clone()).unwrap();
    let proofs = resolve_proofs(root, None).unwrap();
    assert_eq!(proofs.len(), leaves.len());
    for (leaf, proof) in leaves.iter().zip(proofs.iter()) {
        assert_eq!(proof.offset, leaf.max_byte_range - 1);
        assert_eq!(proof.proof.len() % 96, 64);
        let tail = &proof.proof[proof.proof.len() - 64..];
        assert_eq!(&tail[..32], leaf.data_hash.as_ref().unwrap().as_slice());
    }
}

#[test]
fn resolve_proofs_rejects_malformed_node() {
    let bad = Node {
        id: vec![0; 32],
        data_hash: None,
        min_byte_range: 0,
        max_byte_range: 0,
        left_child: None,
        right_child: None,
    };
    assert_eq!(resolve_proofs(bad, None), Err(Error::InvalidNode));
}

#[test]
fn every_generated_proof_validates_against_the_root() {
    for &len in [1usize, 1000, 257 * 1024, 300 * 1024, 600_000, 3 * MAX_CHUNK_SIZE].iter() {
        let data = pattern(len);
        let leaves = generate_leaves(data).unwrap();
        let root = generate_data_root(leaves.clone()).unwrap();
        let root_id = root.id.clone();
        let proofs = resolve_proofs(root, None).unwrap();
        assert_eq!(proofs.len(), leaves.len());
        for (leaf, proof) in leaves.into_iter().zip(proofs.into_iter()) {
            assert_eq!(
                validate_chunk(root_id.clone(), leaf, proof),
                Ok(()),
                "length {}",
                len
            );
        }
    }
}

#[test]
fn hashing_the_same_buffer_twice_is_deterministic() {
    let data = pattern(600_000);
    let leaves1 = generate_leaves(data.clone()).unwrap();
    let leaves2 = generate_leaves(data).unwrap();
    let root1 = generate_data_root(leaves1).unwrap();
    let root2 = generate_data_root(leaves2).unwrap();
    assert_eq!(root1.id, root2.id);
    let proofs1 = resolve_proofs(root1, None).unwrap();
    let proofs2 = resolve_proofs(root2, None).unwrap();
    assert_eq!(proofs1, proofs2);
}

#[test]
fn flipping_bits_in_checked_branch_regions_fails_validation() {
    let data = pattern(300 * 1024);
    let leaves = generate_leaves(data).unwrap();
    let root = generate_data_root(leaves.clone()).unwrap();
    let root_id = root.id.clone();
    let proofs = resolve_proofs(root, None).unwrap();
    let proof = &proofs[0];
    assert_eq!(proof.proof.len(), 160);
    // the two child ids and the four offset bytes of the branch record are
    // all checked during replay
    let checked: Vec<usize> = (0..64).chain(92..96).collect();
    for &byte in checked.iter() {
        for bit in 0..8 {
            let mut tampered = proof.clone();
            tampered.proof[byte] ^= 1 << bit;
            assert_eq!(
                validate_chunk(root_id.clone(), leaves[0].clone(), tampered),
                Err(Error::InvalidProof),
                "byte {} bit {}",
                byte,
                bit
            );
        }
    }
}

#[test]
fn replay_reads_only_the_offset_tail_of_a_note() {
    // The 28 zero-padding bytes of a branch note and the whole leaf record
    // are reconstructed from the candidate chunk during replay, so bits
    // flipped there do not make validation fail. This mirrors the protocol
    // source as written.
    let data = pattern(300 * 1024);
    let leaves = generate_leaves(data).unwrap();
    let root = generate_data_root(leaves.clone()).unwrap();
    let root_id = root.id.clone();
    let proofs = resolve_proofs(root, None).unwrap();
    let mut padded = proofs[0].clone();
    padded.proof[64] ^= 1;
    assert_eq!(validate_chunk(root_id.clone(), leaves[0].clone(), padded), Ok(()));
    let mut leaf_note = proofs[0].clone();
    leaf_note.proof[96 + 40] ^= 1;
    assert_eq!(validate_chunk(root_id, leaves[0].clone(), leaf_note), Ok(()));
}

#[test]
fn validation_rejects_short_or_ragged_proofs() {
    let data = pattern(1000);
    let leaves = generate_leaves(data).unwrap();
    let root = generate_data_root(leaves.clone()).unwrap();
    let root_id = root.id.clone();
    let proofs = resolve_proofs(root, None).unwrap();

    let mut short = proofs[0].clone();
    short.proof.truncate(40);
    assert_eq!(
        validate_chunk(root_id.clone(), leaves[0].clone(), short),
        Err(Error::InvalidProof)
    );

    let mut ragged = proofs[0].clone();
    ragged.proof.push(0);
    assert_eq!(
        validate_chunk(root_id.clone(), leaves[0].clone(), ragged),
        Err(Error::InvalidProof)
    );
}

#[test]
fn validation_rejects_a_chunk_without_a_digest() {
    let data = pattern(1000);
    let leaves = generate_leaves(data).unwrap();
    let root = generate_data_root(leaves.clone()).unwrap();
    let root_id = root.id.clone();
    let proofs = resolve_proofs(root, None).unwrap();
    let mut chunk = leaves[0].clone();
    chunk.data_hash = None;
    assert_eq!(
        validate_chunk(root_id, chunk, proofs[0].clone()),
        Err(Error::InvalidNode)
    );
}

#[test]
fn validation_rejects_a_proof_for_the_wrong_root() {
    let data = pattern(300 * 1024);
    let leaves = generate_leaves(data).unwrap();
    let root = generate_data_root(leaves.clone()).unwrap();
    let proofs = resolve_proofs(root, None).unwrap();
    let other_root = vec![7u8; 32];
    assert_eq!(
        validate_chunk(other_root, leaves[0].clone(), proofs[0].clone()),
        Err(Error::InvalidProof)
    );
}

#[test]
fn a_single_leaf_proof_is_accepted_by_its_stored_digest_alone() {
    // With no branch records the only checks left are the leaf's: the id
    // comparison fails against a foreign root, but the record's stored
    // digest still matches the chunk's, and the protocol source as written
    // rejects only when both comparisons fail.
    let data = pattern(1000);
    let leaves = generate_leaves(data).unwrap();
    let root = generate_data_root(leaves.clone()).unwrap();
    let proofs = resolve_proofs(root, None).unwrap();
    let other_root = vec![7u8; 32];
    assert_eq!(
        validate_chunk(other_root, leaves[0].clone(), proofs[0].clone()),
        Ok(())
    );
}

#[test]
fn concat_u8_48_joins_two_digests() {
    let a = hash_sha384(b"left");
    let b = hash_sha384(b"right");
    let joined = concat_u8_48(&a, &b);
    assert_eq!(joined.len(), 96);
    assert_eq!(&joined[..48], a.as_slice());
    assert_eq!(&joined[48..], b.as_slice());
}
