//! Hashing and Ed25519 signatures over plain byte values, and the key and
//! signature types that the protocol carries around.
use sha2::Digest;
use ed25519_dalek::Signer;
use ed25519_dalek::Verifier;
use vstd::prelude::*;

verus! {

/// A SHA-256 digest.
pub type Sha256Hash = [u8; 32];

/// The SHA-256 digest of a byte string.
pub uninterp spec fn sha256_digest(data: Seq<u8>) -> Seq<u8>;

/// The Ed25519 public key that belongs to a 32-byte secret key.
pub uninterp spec fn ed25519_public_key(secret: Seq<u8>) -> Seq<u8>;

/// The Ed25519 signature of `message` under `secret` (Ed25519 signing is deterministic).
pub uninterp spec fn ed25519_signature(secret: Seq<u8>, message: Seq<u8>) -> Seq<u8>;

/// Whether `signature` is a valid Ed25519 signature of `message` under `public`.
pub uninterp spec fn ed25519_verifies(public: Seq<u8>, message: Seq<u8>, signature: Seq<u8>) -> bool;

/// An Ed25519 public key, as its 32 compressed bytes.
#[derive(Clone, Copy, Debug)]
pub struct PublicKey {
    pub bytes: [u8; 32],
}

/// An Ed25519 signature, as its 64 bytes.
#[derive(Clone, Copy, Debug)]
pub struct Signature {
    pub bytes: [u8; 64],
}

/// An Ed25519 key pair: the secret key and the public key derived from it.
#[derive(Clone, Copy, Debug)]
pub struct Keypair {
    pub secret: [u8; 32],
    pub public: PublicKey,
}

impl Keypair {
    /// The public half is the key derived from the secret half.
    pub open spec fn wf(&self) -> bool {
        self.public.bytes@ == ed25519_public_key(self.secret@)
    }

    /// A fresh key pair drawn from the operating system's random source.
    pub fn generate() -> (kp: Keypair)
        ensures
            kp.wf(),
    {
        let (secret, public) = generate_keypair_bytes();
        Keypair { secret, public: PublicKey { bytes: public } }
    }

    /// Signs `message` with this key pair.
    pub fn sign(&self, message: &[u8]) -> (sig: Signature)
        requires
            self.wf(),
        ensures
            sig.bytes@ == ed25519_signature(self.secret@, message@),
            ed25519_verifies(self.public.bytes@, message@, sig.bytes@),
    {
        Signature { bytes: ed25519_sign(&self.secret, &self.public.bytes, message) }
    }
}

impl PublicKey {
    /// Checks `signature` on `message` against this key.
    pub fn verify(&self, message: &[u8], signature: &Signature) -> (ok: bool)
        ensures
            ok == ed25519_verifies(self.bytes@, message@, signature.bytes@),
    {
        ed25519_verify(&self.bytes, message, &signature.bytes)
    }
}

/// Calls `sha2::Sha256::digest` (new, update, finalize) on `data`.
/// Trusted: the result is the SHA-256 digest of exactly the bytes given.
#[verifier::external_body]
pub(crate) fn sha256(data: &[u8]) -> (digest: Sha256Hash)
    ensures
        digest@ == sha256_digest(data@),
{
    let out = sha2::Sha256::digest(data);
    let mut bytes = [0u8; 32];
    bytes.copy_from_slice(&out);
    bytes
}

/// Calls `ed25519_dalek::Keypair::generate` with `rand::rngs::OsRng`.
/// Trusted: the public key returned is the one derived from the secret key
/// returned (the source derives it with `PublicKey::from(&secret)`); the
/// secret itself is random and nothing is said of it.
#[verifier::external_body]
fn generate_keypair_bytes() -> (kp: ([u8; 32], [u8; 32]))
    ensures
        kp.1@ == ed25519_public_key(kp.0@),
{
    let kp = ed25519_dalek::Keypair::generate(&mut rand::rngs::OsRng {});
    (kp.secret.to_bytes(), kp.public.to_bytes())
}

/// Calls `ed25519_dalek::Keypair::sign` on a key pair rebuilt from its bytes.
/// Trusted: the signature is the deterministic Ed25519 signature of the
/// message under the secret key, and it verifies under the matching public key.
#[verifier::external_body]
fn ed25519_sign(secret: &[u8; 32], public: &[u8; 32], message: &[u8]) -> (sig: [u8; 64])
    requires
        public@ == ed25519_public_key(secret@),
    ensures
        sig@ == ed25519_signature(secret@, message@),
        ed25519_verifies(public@, message@, sig@),
{
    let mut both = [0u8; 64];
    both[..32].copy_from_slice(secret);
    both[32..].copy_from_slice(public);
    let kp = ed25519_dalek::Keypair::from_bytes(&both).unwrap();
    kp.sign(message).to_bytes()
}

/// Calls `ed25519_dalek::PublicKey::verify` after parsing the key and the
/// signature from bytes (a key or signature that does not parse verifies nothing).
/// Trusted: the result is whether the signature is valid for the message
/// under the key.
#[verifier::external_body]
fn ed25519_verify(public: &[u8; 32], message: &[u8], signature: &[u8; 64]) -> (ok: bool)
    ensures
        ok == ed25519_verifies(public@, message@, signature@),
{
    match ed25519_dalek::PublicKey::from_bytes(public) {
        Ok(pk) => match ed25519_dalek::Signature::from_bytes(signature) {
            Ok(sig) => pk.verify(message, &sig).is_ok(),
            Err(_) => false,
        },
        Err(_) => false,
    }
}

/// Whether two byte strings are equal.
pub fn bytes_equal(a: &[u8], b: &[u8]) -> (eq: bool)
    ensures
        eq == (a@ == b@),
{
    if a.len() != b.len() {
        return false;
    }
    let mut i: usize = 0;
    while i < a.len()
        invariant
            a@.len() == b@.len(),
            i <= a@.len(),
            forall|j: int| 0 <= j < i ==> a@[j] == b@[j],
        decreases a@.len() - i,
    {
        if a[i] != b[i] {
            return false;
        }
        i = i + 1;
    }
    assert(a@ =~= b@);
    true
}

/// Whether two hashes are equal.
pub fn hash_equal(a: &Sha256Hash, b: &Sha256Hash) -> (eq: bool)
    ensures
        eq == (a@ == b@),
{
    bytes_equal(a.as_slice(), b.as_slice())
}

/// Whether two signatures are equal.
pub fn signature_equal(a: &Signature, b: &Signature) -> (eq: bool)
    ensures
        eq == (a.bytes@ == b.bytes@),
{
    bytes_equal(a.bytes.as_slice(), b.bytes.as_slice())
}

} // verus!
