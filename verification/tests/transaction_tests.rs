use std::str::FromStr;

use arweave_tx::error::Error;
use arweave_tx::hashing::{concat_u8_48, hash_all_sha256, hash_all_sha384, hash_sha256, hash_sha384};
use arweave_tx::merkle::{
    deep_hash, generate_data_root, generate_leaves, validate_chunk, Helpers, MAX_CHUNK_SIZE,
};
use arweave_tx::transaction::{
    merklize, Base64, DeepHashItem, FromUtf8Strs, Tag, ToItems, Transaction,
};

fn pattern(len: usize) -> Vec<u8> {
    (0..len).map(|i| (i % 241) as u8).collect()
}

#[test]
fn base64url_encoding_matches_known_strings() {
    assert_eq!(Base64(b"hello".to_vec()).to_base64_string(), "aGVsbG8");
    assert_eq!(Base64(Vec::new()).to_base64_string(), "");
    // a byte run whose standard encoding would need '+' and '/'
    assert_eq!(Base64(vec![0xfb, 0xff, 0xbf]).to_base64_string(), "-_-_");
}

#[test]
fn base64url_decoding_inverts_encoding() {
    let original = Base64(pattern(100));
    let text = original.to_base64_string();
    let back = Base64::from_str(&text).unwrap();
    assert_eq!(back, original);
    let back_again = Base64::from_base64_str(&text).unwrap();
    assert_eq!(back_again, original);
    assert!(Base64::from_str("not*valid*base64url").is_err());
    assert!(Base64::from_base64_str("not*valid*base64url").is_err());
}

#[test]
fn utf8_round_trip_and_rejection() {
    let b = Base64::from_utf8_str("tag name").unwrap();
    assert_eq!(b.0, b"tag name".to_vec());
    assert_eq!(b.to_utf8_string().unwrap(), "tag name");
    let bad = Base64(vec![0xff, 0xfe]);
    assert_eq!(bad.to_utf8_string(), Err(Error::InvalidTags));
}

#[test]
fn tags_build_from_utf8_strings() {
    let tag: Tag<Base64> = Tag::from_utf8_strs("Content-Type", "text/plain").unwrap();
    assert_eq!(tag.name.0, b"Content-Type".to_vec());
    assert_eq!(tag.value.0, b"text/plain".to_vec());
    let tag: Tag<String> = Tag::from_utf8_strs("a", "b").unwrap();
    assert_eq!(tag.name, "a");
    assert_eq!(tag.value, "b");
}

#[test]
fn deep_hash_of_blob_matches_manual_tagged_hash() {
    let blob = pattern(11);
    let tag = b"blob11".to_vec();
    let expected = hash_all_sha384(vec![&tag, &blob]);
    let digest = deep_hash(DeepHashItem::Blob(blob)).unwrap();
    assert_eq!(digest, expected);
    assert_eq!(digest.len(), 48);
}

#[test]
fn deep_hash_of_list_folds_children_in_order() {
    let a = pattern(5);
    let b = pattern(9);
    let digest_a = deep_hash(DeepHashItem::Blob(a.clone())).unwrap();
    let digest_b = deep_hash(DeepHashItem::Blob(b.clone())).unwrap();
    let mut acc = hash_sha384(b"list2");
    acc = hash_sha384(&concat_u8_48(&acc, &digest_a));
    acc = hash_sha384(&concat_u8_48(&acc, &digest_b));
    let digest = deep_hash(DeepHashItem::List(vec![
        DeepHashItem::Blob(a),
        DeepHashItem::Blob(b),
    ]))
    .unwrap();
    assert_eq!(digest, acc);
}

#[test]
fn blob_and_singleton_list_hash_differently() {
    let b = pattern(33);
    let blob_digest = deep_hash(DeepHashItem::Blob(b.clone())).unwrap();
    let list_digest = deep_hash(DeepHashItem::List(vec![DeepHashItem::Blob(b)])).unwrap();
    assert_ne!(blob_digest, list_digest);
}

#[test]
fn empty_tag_list_maps_to_the_empty_blob() {
    let tags: Vec<Tag<Base64>> = Vec::new();
    let item = tags.to_deep_hash_item().unwrap();
    assert_eq!(item, DeepHashItem::Blob(Vec::new()));
}

#[test]
fn tag_maps_to_a_name_value_list() {
    let tag: Tag<Base64> = Tag::from_utf8_strs("n", "v").unwrap();
    let item = tag.to_deep_hash_item().unwrap();
    assert_eq!(
        item,
        DeepHashItem::List(vec![
            DeepHashItem::Blob(b"n".to_vec()),
            DeepHashItem::Blob(b"v".to_vec()),
        ])
    );
}

#[test]
fn transaction_item_follows_the_current_schema_order() {
    let mut tx = merklize(pattern(1000)).unwrap();
    tx.owner = Base64(b"owner-bytes".to_vec());
    tx.target = Base64(b"target-bytes".to_vec());
    tx.quantity = 7;
    tx.reward = 1250;
    tx.last_tx = Base64(b"last".to_vec());
    tx.tags = vec![Tag::from_utf8_strs("k", "v").unwrap()];
    let item = tx.to_deep_hash_item().unwrap();
    let expected = DeepHashItem::List(vec![
        DeepHashItem::Blob(b"2".to_vec()),
        DeepHashItem::Blob(b"owner-bytes".to_vec()),
        DeepHashItem::Blob(b"target-bytes".to_vec()),
        DeepHashItem::Blob(b"7".to_vec()),
        DeepHashItem::Blob(b"1250".to_vec()),
        DeepHashItem::Blob(b"last".to_vec()),
        DeepHashItem::List(vec![DeepHashItem::List(vec![
            DeepHashItem::Blob(b"k".to_vec()),
            DeepHashItem::Blob(b"v".to_vec()),
        ])]),
        DeepHashItem::Blob(b"1000".to_vec()),
        DeepHashItem::Blob(tx.data_root.0.clone()),
    ]);
    assert_eq!(item, expected);
}

#[test]
fn legacy_schema_orders_fields_differently() {
    let mut tx = Transaction::default();
    tx.format = 1;
    tx.owner = Base64(b"o".to_vec());
    tx.target = Base64(b"t".to_vec());
    tx.data = Base64(b"d".to_vec());
    tx.quantity = 3;
    tx.reward = 4;
    tx.last_tx = Base64(b"l".to_vec());
    let item = tx.to_deep_hash_item().unwrap();
    let expected = DeepHashItem::List(vec![
        DeepHashItem::Blob(b"o".to_vec()),
        DeepHashItem::Blob(b"t".to_vec()),
        DeepHashItem::Blob(b"d".to_vec()),
        DeepHashItem::Blob(b"3".to_vec()),
        DeepHashItem::Blob(b"4".to_vec()),
        DeepHashItem::Blob(b"l".to_vec()),
        DeepHashItem::Blob(Vec::new()),
    ]);
    assert_eq!(item, expected);
}

#[test]
fn merklize_fills_the_data_fields() {
    let data = pattern(300 * 1024);
    let tx = merklize(data.clone()).unwrap();
    assert_eq!(tx.format, 2);
    assert_eq!(tx.data_size, data.len() as u64);
    assert_eq!(tx.data.0, data);
    assert_eq!(tx.chunks.len(), 2);
    assert_eq!(tx.proofs.len(), 2);
    let leaves = generate_leaves(data).unwrap();
    let root = generate_data_root(leaves).unwrap();
    assert_eq!(tx.data_root.0, root.id);
}

#[test]
fn merklize_discards_the_zero_length_trailing_chunk() {
    let data = pattern(MAX_CHUNK_SIZE);
    let tx = merklize(data).unwrap();
    assert_eq!(tx.chunks.len(), 1);
    assert_eq!(tx.proofs.len(), 1);
}

#[test]
fn merklize_of_the_empty_buffer_keeps_nothing() {
    let tx = merklize(Vec::new()).unwrap();
    assert_eq!(tx.chunks.len(), 0);
    assert_eq!(tx.proofs.len(), 0);
    assert_eq!(tx.data_size, 0);
    let data_hash = hash_sha256(&[]);
    let note = 0u32.to_note_vec();
    assert_eq!(tx.data_root.0, hash_all_sha256(vec![&data_hash, &note]));
}

#[test]
fn merklize_twice_yields_identical_transactions() {
    let data = pattern(600_000);
    let tx1 = merklize(data.clone()).unwrap();
    let tx2 = merklize(data).unwrap();
    assert_eq!(tx1.data_root, tx2.data_root);
    assert_eq!(tx1.chunks, tx2.chunks);
    assert_eq!(tx1.proofs, tx2.proofs);
}

#[test]
fn every_kept_chunk_of_a_merklized_transaction_validates() {
    for &len in [1usize, 1000, MAX_CHUNK_SIZE, 257 * 1024, 300 * 1024, 600_000].iter() {
        let tx = merklize(pattern(len)).unwrap();
        assert_eq!(tx.chunks.len(), tx.proofs.len());
        for i in 0..tx.chunks.len() {
            assert_eq!(
                validate_chunk(
                    tx.data_root.0.clone(),
                    tx.chunks[i].clone(),
                    tx.proofs[i].clone(),
                ),
                Ok(()),
                "length {} chunk {}",
                len,
                i
            );
        }
    }
}

#[test]
fn clone_with_no_data_drops_data_chunks_and_proofs() {
    let mut tx = merklize(pattern(1000)).unwrap();
    tx.tags = vec![Tag::from_utf8_strs("a", "b").unwrap()];
    tx.quantity = 9;
    let bare = tx.clone_with_no_data().unwrap();
    assert_eq!(bare.format, tx.format);
    assert_eq!(bare.data_root, tx.data_root);
    assert_eq!(bare.quantity, 9);
    assert_eq!(bare.tags.len(), 1);
    assert_eq!(bare.data, Base64(Vec::new()));
    assert!(bare.chunks.is_empty());
    assert!(bare.proofs.is_empty());
}

#[test]
fn get_chunk_slices_the_data_and_carries_the_proof() {
    let data = pattern(300 * 1024);
    let tx = merklize(data.clone()).unwrap();
    let chunk = tx.get_chunk(1).unwrap();
    assert_eq!(chunk.data_root, tx.data_root);
    assert_eq!(chunk.data_size, tx.data_size);
    assert_eq!(chunk.offset, tx.proofs[1].offset);
    assert_eq!(chunk.data_path.0, tx.proofs[1].proof);
    assert_eq!(
        chunk.chunk.0,
        data[tx.chunks[1].min_byte_range..tx.chunks[1].max_byte_range].to_vec()
    );
}
