use arweave_tx::crypto::{address_of_modulus, Provider};
use arweave_tx::error::Error;
use arweave_tx::hashing::hash_sha256;
use arweave_tx::merkle::deep_hash;
use arweave_tx::transaction::{DeepHashItem, ToItems};

/// A throwaway RSA-2048 key pair in JWK form, generated for these tests
/// only; it protects nothing.
const TEST_JWK: &str = r#"{"kty":"RSA","n":"x4jRixn_Qoh1ZQ1wJpxwSV-Tljq3vASoopY7iI8EirVK4vC_QoFJUDSc2np6milEvH_8Kp_aP_zfC0HBrtKfg4fPDJZw93RlGKUBDTp0itxY-LO8dKGwJyGMDLysa1UWDbL3Rc4qwejgWt2lp8eT_4Ixeg_o0561kpngpaUMKJRJoX8J2XAU7S9PR-hq2TtdslY1bGAOaynO9vFs2I2XOy3ueUhDHiIQycOi7-iw02QFnWGFFNrGX1SxAQf5kiw2xO6cgdG-sZLFy9Om9Mm726ugKUjLuDzY3Sq7i0sut5LUiddERFJgP4h-H4W2v_T3n2u4LOR2faZTAo4fE3-4RQ","e":"AQAB","d":"Q-N_OA6-VMrM9nbeA6USZ0SHmIOd4_DJ15e55bqTVwZb1l8HE_-dDBb6jzNA55bG9kOtbms4_LByyweyeGLdNwlMHwJIqUkG5J2vf-q1oFFcTDILGruwjX_SgLrpBxPKDxsnGq8MyTEMtJ3ZMP6skjCf2OH025uSN7D3SCShwGQp1f1NUYMpd21FuVGUn9uuHHp-FdofgzDtbtEdBtNRp1XAHflpzcoPjfCA4tP6wGceNKepu4BtTvfWGOXJiC3eDPTVsTbs2Cj9ea6Wr7pQfnrTO0qahTvekeOVc4mcsKVY9q7GBDLuSsGj4vB0RlY-3B0dt0g1QJukED6g-DhBQQ","p":"6G4-uAqj5lUtlSoldVNFTyrlVdDgS1EuoBcqrgKuQx5OSGiHqrtB7Bhu5ghs1KEgr6FWiKjR0WCf2s67imQk5kgXOxYY4OcsYgQqUDN9HJ_H3ZNPRQE4hMU4M204lE5OvIYyfXeWK3GwvUxsE2A3uszhivm5ThZ44nW94sVe5pk","q":"28Sb1HNV6wK_SR1s1JRmi-Xr33FWyGP7UE8uJM8eH5GkBgCpXE37YilCYczE-Zsbjylqr5oMZFfagS8P8sAvyxIa7SpGMejq_234639RoAdK0MZbXkIdSkTKMhEtz2dh-LGyRR-1OGPCsKFE8_XhOlDCr_BxWHm4ZWo5o4gAJo0","dp":"vRwFt6QgmmUvQzAZbg4kVDdohJwAAge5UdPHi_Dua_maY9t4lnbpOfjfMhYkxhObDorMZ0BEBoEBTvvpJr44L4z0KcTe1Q4B1HXjH4HlB4cRDLywQEqv-4ajJWR2JmRYN5dQOTk1W3-S91HYlSMx9LCByZtJI7mw_UAjEQDZJ_E","dq":"Eb7yhlk52txB7fl-TDwfe7R5M3XHeC76oCWEqFxBJnNwNzvecSGq5uZGAfezACTSOOEzSDK8RW4CquPN-eAi-9bebcA4IteYAkAzFXEWekGcfPdHcXkNPG4JlbllZZYHhzlyF7rTu1Xy5qhfFQQJx9e1oNddj7NkfGvzc40L1hE","qi":"BK9vT1aiDPjkp4fTfIdYDQ6b9QBR95plCsh9l71ULrqhuYt4HdD9m4GZsFioUIAwR4MTAWwyi_WYevUN55--n5oGl-fWG5eYz3qlZC1I_bfwHDgJTePvCPLd6XBxK0OjXAxJavg5th_ZnK6kP9VctLGUyS493OYhWhMxuPM3qPY"}"#;

#[test]
fn signing_then_verifying_succeeds_and_tampering_fails() {
    let provider = Provider::from_keypair_string(TEST_JWK.to_string()).unwrap();
    let tx = arweave_tx::transaction::merklize((0..5000u32).map(|i| (i % 256) as u8).collect()).unwrap();
    let message = deep_hash(tx.to_deep_hash_item().unwrap()).unwrap();
    let signature = provider.sign(&message).unwrap();
    assert_eq!(signature.len(), 256);
    assert_eq!(provider.verify(&signature, &message), Ok(()));
    for byte in [0usize, 100, 255] {
        let mut corrupted = signature.clone();
        corrupted[byte] ^= 1;
        assert_eq!(
            provider.verify(&corrupted, &message),
            Err(Error::InvalidHash),
            "byte {}",
            byte
        );
    }
    let mut other_message = message.clone();
    other_message[0] ^= 1;
    assert_eq!(provider.verify(&signature, &other_message), Err(Error::InvalidHash));
}

#[test]
fn the_wallet_address_is_the_hash_of_the_modulus() {
    let provider = Provider::from_keypair_string(TEST_JWK.to_string()).unwrap();
    let modulus = provider.keypair_modulus().unwrap();
    assert_eq!(modulus.0.len(), 256);
    let address = provider.wallet_address().unwrap();
    assert_eq!(address.0, hash_sha256(&modulus.0));
    assert_eq!(address.0.len(), 32);
    assert_eq!(address_of_modulus(&modulus).0, address.0);
}

#[test]
fn text_that_is_not_a_key_is_rejected() {
    assert!(matches!(
        Provider::from_keypair_string("not a key".to_string()),
        Err(Error::InvalidHash)
    ));
    assert!(matches!(
        Provider::from_keypair_string("{}".to_string()),
        Err(Error::InvalidHash)
    ));
}

#[test]
fn fill_rand_keeps_the_buffer_length() {
    let provider = Provider::from_keypair_string(TEST_JWK.to_string()).unwrap();
    let mut buffer = vec![0u8; 64];
    provider.fill_rand(&mut buffer).unwrap();
    assert_eq!(buffer.len(), 64);
    let mut other = vec![0u8; 64];
    provider.fill_rand(&mut other).unwrap();
    // two 64-byte draws from a secure source collide with negligible odds
    assert_ne!(buffer, other);
}
