//! Key handling and signatures: an RSA-PSS signer and verifier over the
//! deep-hash digest, built on an already-parsed key pair and a secure
//! randomness source.

use ring::rand::SecureRandom;
use ring::signature::KeyPair;
use vstd::prelude::*;

use crate::error::Error;
use crate::hashing::{hash_sha256_old, sha256_of};
use crate::transaction::Base64;

verus! {

/// ring's RSA key pair.
#[verifier::external_type_specification]
#[verifier::external_body]
pub struct ExRsaKeyPair(ring::signature::RsaKeyPair);

/// ring's system randomness source.
#[verifier::external_type_specification]
#[verifier::external_body]
pub struct ExSystemRandom(ring::rand::SystemRandom);

/// The jsonwebkey crate's parsed key.
#[verifier::external_type_specification]
#[verifier::external_body]
pub struct ExJsonWebKey(jsonwebkey::JsonWebKey);

/// Holds the key pair and the randomness source the signer works with.
pub struct Provider {
    pub keypair: ring::signature::RsaKeyPair,
    pub sr: ring::rand::SystemRandom,
}

/// Whether `signature` is an RSA-PSS-over-SHA-256 signature of `message`
/// that verifies under the public half of `kp`: the verifier's acceptance
/// condition, a function of the key, message and signature alone. Its
/// value comes only from the trusted wrappers below.
pub uninterp spec fn pss_ok_of(
    kp: ring::signature::RsaKeyPair,
    message: Seq<u8>,
    signature: Seq<u8>,
) -> bool;

/// The public modulus of `kp`, big-endian without leading zero bytes.
pub uninterp spec fn modulus_of(kp: ring::signature::RsaKeyPair) -> Seq<u8>;

/// Relies on `jsonwebkey::JsonWebKey`'s `FromStr`: parses a JWK from its
/// JSON text; text that is not a valid JWK is rejected.
#[verifier::external_body]
fn parse_jwk(data: &str) -> Result<jsonwebkey::JsonWebKey, Error> {
    data.parse::<jsonwebkey::JsonWebKey>().map_err(|_| Error::InvalidHash)
}

/// Relies on `jsonwebkey::Key::try_to_der`: re-encodes an asymmetric key
/// as DER PKCS#8; symmetric keys and keys with missing components are
/// rejected.
#[verifier::external_body]
fn jwk_to_der(key: &jsonwebkey::JsonWebKey) -> Result<Vec<u8>, Error> {
    key.key.try_to_der().map_err(|_| Error::InvalidHash)
}

/// Relies on `RsaKeyPair::from_pkcs8`: accepts a DER-encoded PKCS#8 RSA
/// private key and rejects anything else.
#[verifier::external_body]
fn rsa_from_pkcs8(der: &[u8]) -> Result<ring::signature::RsaKeyPair, Error> {
    ring::signature::RsaKeyPair::from_pkcs8(der).map_err(|_| Error::InvalidHash)
}

/// Relies on `SystemRandom::new`: a fresh handle to the system's secure
/// randomness source.
#[verifier::external_body]
fn new_system_random() -> (r: ring::rand::SystemRandom) {
    ring::rand::SystemRandom::new()
}

/// Relies on `KeyPair::public_key` and `Positive::
/// big_endian_without_leading_zero`: the key's public modulus, big-endian,
/// without leading zero bytes, a function of the key alone.
#[verifier::external_body]
fn keypair_modulus_bytes(keypair: &ring::signature::RsaKeyPair) -> (r: Vec<u8>)
    ensures
        r@ == modulus_of(*keypair),
{
    keypair.public_key().modulus().big_endian_without_leading_zero().to_vec()
}

/// Relies on `RsaKeyPair::sign` with `RSA_PSS_SHA256`: writes a signature
/// over the message into a buffer of exactly the public modulus length,
/// drawing padding salt from the given randomness source. The signature is
/// probabilistic, so nothing pins its bytes; but RSA-PSS is correct
/// (RFC 8017), so any signature it does produce verifies under the paired
/// public key — `from_pkcs8` only accepts key sizes the verifier's
/// algorithm covers — and its length is the public modulus length.
#[verifier::external_body]
fn rsa_sign_pss(
    keypair: &ring::signature::RsaKeyPair,
    rng: &ring::rand::SystemRandom,
    message: &[u8],
) -> (r: Result<Vec<u8>, Error>)
    ensures
        r is Ok ==> pss_ok_of(*keypair, message@, r->Ok_0@),
        r is Ok ==> r->Ok_0@.len() == modulus_of(*keypair).len(),
{
    let mut signature = vec![0; keypair.public_modulus_len()];
    match keypair.sign(&ring::signature::RSA_PSS_SHA256, rng, message, &mut signature) {
        Ok(()) => Ok(signature),
        Err(_) => Err(Error::InvalidHash),
    }
}

/// Relies on `UnparsedPublicKey::verify` with `RSA_PSS_2048_8192_SHA256`
/// over the pair's own public key bytes: it accepts exactly the signatures
/// that verify against that key, deterministically in the key, message and
/// signature — the condition named `pss_ok_of`.
#[verifier::external_body]
fn rsa_verify_pss(
    keypair: &ring::signature::RsaKeyPair,
    message: &[u8],
    signature: &[u8],
) -> (r: Result<(), Error>)
    ensures
        r is Ok <==> pss_ok_of(*keypair, message@, signature@),
{
    let public_key = ring::signature::UnparsedPublicKey::new(
        &ring::signature::RSA_PSS_2048_8192_SHA256,
        keypair.public_key().as_ref(),
    );
    public_key.verify(message, signature).map_err(|_| Error::InvalidHash)
}

/// Relies on `SecureRandom::fill`: fills the buffer with secure random
/// bytes; the buffer keeps its length whether or not the source fails.
#[verifier::external_body]
fn sr_fill(sr: &ring::rand::SystemRandom, dest: &mut Vec<u8>) -> (r: Result<(), Error>)
    ensures
        final(dest)@.len() == old(dest)@.len(),
{
    sr.fill(dest.as_mut_slice()).map_err(|_| Error::InvalidHash)
}

/// The network address derived from a public modulus: its SHA-256 digest.
pub fn address_of_modulus(modulus: &Base64) -> (r: Base64)
    ensures
        r.0@ == sha256_of(modulus.0@),
        r.0@.len() == 32,
{
    Base64(hash_sha256_old(modulus.0.as_slice()))
}

impl Provider {
    /// Parses a JWK string into a provider holding the RSA key pair and a
    /// fresh randomness source; text that is not an RSA private JWK is
    /// rejected with a signing error.
    pub fn from_keypair_string(data: String) -> (r: Result<Provider, Error>)
        ensures
            r is Err ==> r == Err::<Provider, Error>(Error::InvalidHash),
    {
        let jwk = match parse_jwk(data.as_str()) {
            Ok(j) => j,
            Err(_) => {
                return Err(Error::InvalidHash);
            },
        };
        let der = match jwk_to_der(&jwk) {
            Ok(d) => d,
            Err(_) => {
                return Err(Error::InvalidHash);
            },
        };
        let keypair = match rsa_from_pkcs8(der.as_slice()) {
            Ok(k) => k,
            Err(_) => {
                return Err(Error::InvalidHash);
            },
        };
        Ok(Self { keypair, sr: new_system_random() })
    }

    /// The full public modulus of the stored key pair, big-endian without
    /// leading zeros. Rendered as base64url it is the associated network
    /// address's preimage, and it enters the signing digest as the owner
    /// field.
    pub fn keypair_modulus(&self) -> (r: Result<Base64, Error>)
        ensures
            r is Ok,
            r->Ok_0.0@ == modulus_of(self.keypair),
    {
        Ok(Base64(keypair_modulus_bytes(&self.keypair)))
    }

    /// The network address: the SHA-256 digest of the public modulus.
    pub fn wallet_address(&self) -> (r: Result<Base64, Error>)
        ensures
            r is Ok,
            r->Ok_0.0@ == sha256_of(modulus_of(self.keypair)),
            r->Ok_0.0@.len() == 32,
    {
        let modulus = match self.keypair_modulus() {
            Ok(m) => m,
            Err(e) => {
                return Err(e);
            },
        };
        Ok(address_of_modulus(&modulus))
    }

    /// Signs a message with RSA-PSS over SHA-256, using fresh system
    /// randomness for the padding salt. The scheme is probabilistic: two
    /// signatures of one message may differ, so nothing pins the
    /// signature's bytes; but any signature returned is as long as the
    /// public modulus and satisfies the verifier's acceptance condition
    /// for this key pair. A key or randomness failure is a signing error.
    pub fn sign(&self, message: &[u8]) -> (r: Result<Vec<u8>, Error>)
        ensures
            r is Ok ==> pss_ok_of(self.keypair, message@, r->Ok_0@),
            r is Ok ==> r->Ok_0@.len() == modulus_of(self.keypair).len(),
            r is Err ==> r == Err::<Vec<u8>, Error>(Error::InvalidHash),
    {
        let rng = new_system_random();
        match rsa_sign_pss(&self.keypair, &rng, message) {
            Ok(signature) => Ok(signature),
            Err(_) => Err(Error::InvalidHash),
        }
    }

    /// Verifies a signature over a message against the paired public key:
    /// it succeeds exactly on signatures satisfying the key's acceptance
    /// condition — so everything `sign` returns passes — and rejects
    /// anything else with a signing error.
    pub fn verify(&self, signature: &[u8], message: &[u8]) -> (r: Result<(), Error>)
        ensures
            r is Ok <==> pss_ok_of(self.keypair, message@, signature@),
            r is Err ==> r == Err::<(), Error>(Error::InvalidHash),
    {
        match rsa_verify_pss(&self.keypair, message, signature) {
            Ok(()) => Ok(()),
            Err(_) => Err(Error::InvalidHash),
        }
    }

    /// Fills the buffer with secure random bytes, keeping its length.
    pub fn fill_rand(&self, dest: &mut Vec<u8>) -> (r: Result<(), Error>)
        ensures
            final(dest)@.len() == old(dest)@.len(),
            r is Err ==> r == Err::<(), Error>(Error::InvalidHash),
    {
        match sr_fill(&self.sr, dest) {
            Ok(()) => Ok(()),
            Err(_) => Err(Error::InvalidHash),
        }
    }
}

} // verus!
