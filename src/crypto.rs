//! Keys, signatures, hashes and commitments.
use vstd::prelude::*;

use ed25519_dalek::Verifier;
use sha2::Digest;

use crate::codec::{bytes_equal, bytes_to_vec};

verus! {

/// The Ed25519 signature that a 32-byte secret key gives for a message
/// (Ed25519 signing is deterministic).
pub uninterp spec fn signature_of(secret: Seq<u8>, msg: Seq<u8>) -> Seq<u8>;

/// Whether Ed25519 verification accepts `sig` for `msg` under the public key `key`.
pub uninterp spec fn ed25519_accepts(key: Seq<u8>, msg: Seq<u8>, sig: Seq<u8>) -> bool;

/// The SHA-256 digest of `data`.
pub uninterp spec fn sha256_of(data: Seq<u8>) -> Seq<u8>;

/// The standard (padded) base64 text of `data`.
pub uninterp spec fn base64_of(data: Seq<u8>) -> Seq<char>;

/// A commitment to a public key: base64 of its SHA-256 digest.
pub open spec fn commit_of(key: Seq<u8>) -> Seq<char> {
    base64_of(sha256_of(key))
}

/// An Ed25519 public key, as its byte encoding.
#[derive(Debug)]
pub struct PublicKey {
    pub bytes: Vec<u8>,
}

/// An Ed25519 signature, as its byte encoding.
#[derive(Debug)]
pub struct Signature {
    pub bytes: Vec<u8>,
}

impl View for PublicKey {
    type V = Seq<u8>;

    open spec fn view(&self) -> Seq<u8> {
        self.bytes@
    }
}

impl View for Signature {
    type V = Seq<u8>;

    open spec fn view(&self) -> Seq<u8> {
        self.bytes@
    }
}

impl Clone for PublicKey {
    fn clone(&self) -> (r: Self)
        ensures
            r@ == self@,
    {
        PublicKey { bytes: bytes_to_vec(self.bytes.as_slice()) }
    }
}

impl Clone for Signature {
    fn clone(&self) -> (r: Self)
        ensures
            r@ == self@,
    {
        Signature { bytes: bytes_to_vec(self.bytes.as_slice()) }
    }
}

impl PartialEq for Signature {
    fn eq(&self, o: &Signature) -> (r: bool) {
        bytes_equal(self.bytes.as_slice(), o.bytes.as_slice())
    }
}

impl vstd::std_specs::cmp::PartialEqSpecImpl for Signature {
    open spec fn obeys_eq_spec() -> bool {
        true
    }

    open spec fn eq_spec(&self, o: &Signature) -> bool {
        self@ == o@
    }
}

impl PartialEq for PublicKey {
    fn eq(&self, o: &PublicKey) -> (r: bool) {
        bytes_equal(self.bytes.as_slice(), o.bytes.as_slice())
    }
}

impl vstd::std_specs::cmp::PartialEqSpecImpl for PublicKey {
    open spec fn obeys_eq_spec() -> bool {
        true
    }

    open spec fn eq_spec(&self, o: &PublicKey) -> bool {
        self@ == o@
    }
}

/// Relies on ed25519_dalek's `PublicKey::from(&SecretKey)`: the public key of a
/// 32-byte secret key, under which Ed25519 accepts every signature that the
/// secret key makes.
#[verifier::external_body]
fn public_from_secret(secret: &[u8]) -> (r: PublicKey)
    requires
        secret@.len() == 32,
    ensures
        r@.len() == 32,
        forall|m: Seq<u8>| #[trigger] ed25519_accepts(r@, m, signature_of(secret@, m)),
{
    let sk = ed25519_dalek::SecretKey::from_bytes(secret).unwrap();
    let pk = ed25519_dalek::PublicKey::from(&sk);
    PublicKey { bytes: pk.to_bytes().to_vec() }
}

/// Relies on ed25519_dalek's `ExpandedSecretKey::sign`: the deterministic
/// Ed25519 signature of `msg` under a 32-byte secret key.
#[verifier::external_body]
fn sign_with_secret(secret: &[u8], msg: &[u8]) -> (r: Signature)
    requires
        secret@.len() == 32,
    ensures
        r@ == signature_of(secret@, msg@),
{
    let sk = ed25519_dalek::SecretKey::from_bytes(secret).unwrap();
    let pk = ed25519_dalek::PublicKey::from(&sk);
    let esk = ed25519_dalek::ExpandedSecretKey::from(&sk);
    Signature { bytes: esk.sign(msg, &pk).to_bytes().to_vec() }
}

/// Relies on ed25519_dalek's `PublicKey::verify` (with the key and signature
/// parsed from bytes): whether Ed25519 accepts the signature.
#[verifier::external_body]
fn ed25519_verify(key: &[u8], msg: &[u8], sig: &[u8]) -> (r: bool)
    ensures
        r == ed25519_accepts(key@, msg@, sig@),
{
    let pk = match ed25519_dalek::PublicKey::from_bytes(key) {
        Ok(pk) => pk,
        Err(_) => return false,
    };
    let s = match ed25519_dalek::Signature::from_bytes(sig) {
        Ok(s) => s,
        Err(_) => return false,
    };
    pk.verify(msg, &s).is_ok()
}

/// Relies on sha2's `Sha256::digest`: the SHA-256 digest of `data`.
#[verifier::external_body]
fn sha256(data: &[u8]) -> (r: Vec<u8>)
    ensures
        r@ == sha256_of(data@),
        r@.len() == 32,
{
    sha2::Sha256::digest(data).to_vec()
}

/// Relies on base64's `encode`: the standard base64 text of `data`.
#[verifier::external_body]
fn base64_encode(data: &[u8]) -> (r: String)
    ensures
        r@ == base64_of(data@),
{
    base64::encode(data)
}

/// The commitment to a public key: base64 of the SHA-256 digest of its bytes.
pub fn commit(key: &PublicKey) -> (r: String)
    ensures
        r@ == commit_of(key@),
{
    let digest = sha256(key.bytes.as_slice());
    base64_encode(digest.as_slice())
}

/// The base64 text of the SHA-256 digest of `data`.
pub fn hash_text(data: &[u8]) -> (r: String)
    ensures
        r@ == base64_of(sha256_of(data@)),
{
    let digest = sha256(data);
    base64_encode(digest.as_slice())
}

/// Whether `sig` is a valid Ed25519 signature of `msg` under `key`.
pub fn verify_signature(key: &PublicKey, msg: &[u8], sig: &Signature) -> (r: bool)
    ensures
        r == ed25519_accepts(key@, msg@, sig@),
{
    ed25519_verify(key.bytes.as_slice(), msg, sig.bytes.as_slice())
}

/// An Ed25519 key pair: a 32-byte secret key and its public key.
pub struct Keypair {
    secret: Vec<u8>,
    public: PublicKey,
}

impl Keypair {
    /// The secret key is 32 bytes, and every signature it makes verifies under
    /// the public key.
    #[verifier::type_invariant]
    pub closed spec fn inv(&self) -> bool {
        &&& self.secret@.len() == 32
        &&& forall|m: Seq<u8>|
            #[trigger] ed25519_accepts(self.public@, m, signature_of(self.secret@, m))
    }

    /// The secret key's bytes.
    pub closed spec fn secret_bytes(&self) -> Seq<u8> {
        self.secret@
    }

    /// The public key.
    pub closed spec fn public_key(&self) -> Seq<u8> {
        self.public@
    }

    /// The key pair of a secret key; `None` unless the secret key is 32 bytes.
    pub fn from_secret(secret: &[u8]) -> (r: Option<Keypair>)
        ensures
            r is Some <==> secret@.len() == 32,
            r matches Some(kp) ==> kp.secret_bytes() == secret@,
    {
        if secret.len() != 32 {
            return None;
        }
        let public = public_from_secret(secret);
        Some(Keypair { secret: bytes_to_vec(secret), public })
    }

    /// The public key.
    pub fn public(&self) -> (r: &PublicKey)
        ensures
            r@ == self.public_key(),
    {
        &self.public
    }

    /// Signs `msg`; the signature verifies under the public key.
    pub fn sign(&self, msg: &[u8]) -> (r: Signature)
        ensures
            r@ == signature_of(self.secret_bytes(), msg@),
            ed25519_accepts(self.public_key(), msg@, r@),
    {
        proof {
            use_type_invariant(self);
        }
        let r = sign_with_secret(self.secret.as_slice(), msg);
        proof {
            assert(ed25519_accepts(self.public@, msg@, signature_of(self.secret@, msg@)));
        }
        r
    }
}

/// Every signature that a key pair makes verifies under its public key.
pub proof fn lemma_keypair_signatures_verify(kp: &Keypair, msg: Seq<u8>)
    requires
        kp.inv(),
    ensures
        ed25519_accepts(kp.public_key(), msg, signature_of(kp.secret_bytes(), msg)),
{
    assert(ed25519_accepts(kp.public@, msg, signature_of(kp.secret@, msg)));
}

} // verus!
