//! Anchors: published records that bind a profile key to an identity without
//! revealing it, and the hashes that link them to profile streams.
use vstd::prelude::*;

use crate::codec::{
    append, enc_str, enc_u64, encoded_at, lemma_encoded_at_split, lemma_str_unique, push_str,
    push_u64, read_str, read_u64,
};
use crate::error::Error;
use crate::crypto::{
    base64_of, ed25519_accepts, hash_text, sha256_of, signature_of, Keypair, PublicKey, Signature,
};

verus! {

/// The registry domain reserved for anchors.
pub const DOMAIN: &'static str = "raiap.io";

/// The registry type reserved for anchors.
pub const TYPE: &'static str = "anchor";

/// The bytes a profile key signs to link itself to identity `udi` with salt `r`.
pub open spec fn link_payload(udi: Seq<char>, r: Seq<char>) -> Seq<u8> {
    enc_str(udi) + enc_str(r)
}

/// The anchor locator of a link signature: base64 of its SHA-256 digest.
pub open spec fn al_of(sig: Seq<u8>) -> Seq<char> {
    base64_of(sha256_of(sig))
}

/// The anchor-stream identifier: base64 of the SHA-256 digest of the public
/// key's bytes followed by the link signature's bytes.
pub open spec fn asi_of(key: Seq<u8>, sig: Seq<u8>) -> Seq<char> {
    base64_of(sha256_of(key + sig))
}

/// The stored form of an anchor: salt, sequence number, locator.
pub open spec fn anchor_bytes(r: Seq<char>, sn: usize, al: Seq<char>) -> Seq<u8> {
    enc_str(r) + enc_u64(sn as u64) + enc_str(al)
}

/// The anchor locator of a link signature.
pub fn al(sig: &Signature) -> (r: String)
    ensures
        r@ == al_of(sig@),
{
    hash_text(sig.bytes.as_slice())
}

/// The anchor-stream identifier of a public key and a link signature.
pub fn asi(key: &PublicKey, sig: &Signature) -> (r: String)
    ensures
        r@ == asi_of(key@, sig@),
{
    let mut data: Vec<u8> = Vec::new();
    append(&mut data, key.bytes.as_slice());
    append(&mut data, sig.bytes.as_slice());
    proof {
        assert(data@ =~= key@ + sig@);
    }
    hash_text(data.as_slice())
}

/// The bytes a profile key signs to link itself to identity `udi` with salt `r`.
pub fn link_data(udi: &str, r: &str) -> (out: Vec<u8>)
    ensures
        out@ == link_payload(udi@, r@),
{
    let mut data: Vec<u8> = Vec::new();
    push_str(&mut data, udi);
    push_str(&mut data, r);
    proof {
        assert(data@ =~= link_payload(udi@, r@));
    }
    data
}

/// A published anchor: a salt, a sequence number and the locator of the
/// profile key's link signature.
#[derive(Debug, Clone)]
pub struct Anchor {
    pub r: String,
    pub sn: usize,
    pub al: String,
}

impl PartialEq for Anchor {
    fn eq(&self, o: &Anchor) -> (res: bool) {
        self.r == o.r && self.sn == o.sn && self.al == o.al
    }
}

impl vstd::std_specs::cmp::PartialEqSpecImpl for Anchor {
    open spec fn obeys_eq_spec() -> bool {
        true
    }

    open spec fn eq_spec(&self, o: &Anchor) -> bool {
        self.r@ == o.r@ && self.sn == o.sn && self.al@ == o.al@
    }
}

impl Anchor {
    /// The anchor of the key pair's link to identity `udi` with salt `r`.
    pub fn new(keypair: &Keypair, udi: &str, r: &str, sn: usize) -> (res: Self)
        ensures
            res.r@ == r@,
            res.sn == sn,
            res.al@ == al_of(signature_of(keypair.secret_bytes(), link_payload(udi@, r@))),
    {
        let data = link_data(udi, r);
        let sig = keypair.sign(data.as_slice());
        Anchor { r: r.to_owned(), sn, al: al(&sig) }
    }

    /// The key pair's link signature for identity `udi` and this anchor's
    /// salt, which the holder of a stream shows as the link's witness.
    pub fn al_signature(&self, keypair: &Keypair, udi: &str) -> (res: Signature)
        ensures
            res@ == signature_of(keypair.secret_bytes(), link_payload(udi@, self.r@)),
            ed25519_accepts(keypair.public_key(), link_payload(udi@, self.r@), res@),
    {
        let data = link_data(udi, self.r.as_str());
        keypair.sign(data.as_slice())
    }

    /// The stored form of the anchor.
    pub fn to_bytes(&self) -> (res: Vec<u8>)
        ensures
            res@ == anchor_bytes(self.r@, self.sn, self.al@),
    {
        let mut data: Vec<u8> = Vec::new();
        push_str(&mut data, self.r.as_str());
        push_u64(&mut data, self.sn as u64);
        push_str(&mut data, self.al.as_str());
        proof {
            assert(data@ =~= anchor_bytes(self.r@, self.sn, self.al@));
        }
        data
    }

    /// The anchor whose stored form starts `bytes`; rejected when no anchor's
    /// stored form does.
    pub fn from_bytes(bytes: &[u8]) -> (res: Result<Anchor, Error>)
        ensures
            res matches Ok(a) ==> encoded_at(bytes@, 0, anchor_bytes(a.r@, a.sn, a.al@)),
            res matches Err(e) ==> e == Error::Decode && forall|r: Seq<char>, sn: usize, al: Seq<char>|
                !encoded_at(bytes@, 0, #[trigger] anchor_bytes(r, sn, al)),
    {
        let blen = bytes.len();
        let (r, p1) = match read_str(bytes, 0) {
            None => {
                proof {
                    assert forall|x: Seq<char>, sn: usize, y: Seq<char>|
                        !encoded_at(bytes@, 0, #[trigger] anchor_bytes(x, sn, y)) by {
                        if encoded_at(bytes@, 0, anchor_bytes(x, sn, y)) {
                            Self::lemma_parts(bytes@, x, sn, y);
                        }
                    }
                }
                return Err(Error::Decode);
            },
            Some(v) => v,
        };
        let n = match read_u64(bytes, p1) {
            None => {
                proof {
                    assert forall|x: Seq<char>, sn: usize, y: Seq<char>|
                        !encoded_at(bytes@, 0, #[trigger] anchor_bytes(x, sn, y)) by {
                        if encoded_at(bytes@, 0, anchor_bytes(x, sn, y)) {
                            Self::lemma_parts(bytes@, x, sn, y);
                            lemma_str_unique(bytes@, 0, r@, x);
                            vstd::bytes::lemma_auto_spec_u64_to_from_le_bytes();
                        }
                    }
                }
                return Err(Error::Decode);
            },
            Some(n) => n,
        };
        if n > usize::MAX as u64 {
            proof {
                assert forall|x: Seq<char>, sn: usize, y: Seq<char>|
                    !encoded_at(bytes@, 0, #[trigger] anchor_bytes(x, sn, y)) by {
                    if encoded_at(bytes@, 0, anchor_bytes(x, sn, y)) {
                        Self::lemma_parts(bytes@, x, sn, y);
                        lemma_str_unique(bytes@, 0, r@, x);
                        vstd::bytes::lemma_auto_spec_u64_to_from_le_bytes();
                    }
                }
            }
            return Err(Error::Decode);
        }
        let p2 = p1 + 8;
        let (al, p3) = match read_str(bytes, p2) {
            None => {
                proof {
                    assert forall|x: Seq<char>, sn: usize, y: Seq<char>|
                        !encoded_at(bytes@, 0, #[trigger] anchor_bytes(x, sn, y)) by {
                        if encoded_at(bytes@, 0, anchor_bytes(x, sn, y)) {
                            Self::lemma_parts(bytes@, x, sn, y);
                            lemma_str_unique(bytes@, 0, r@, x);
                            vstd::bytes::lemma_auto_spec_u64_to_from_le_bytes();
                        }
                    }
                }
                return Err(Error::Decode);
            },
            Some(v) => v,
        };
        let a = Anchor { r, sn: n as usize, al };
        proof {
            vstd::bytes::lemma_auto_spec_u64_to_from_le_bytes();
            assert(a.sn as u64 == n);
            let er = enc_str(a.r@);
            let en = enc_u64(n);
            let ea = enc_str(a.al@);
            assert(bytes@.subrange(0, p3 as int) =~= bytes@.subrange(0, p1 as int) + bytes@.subrange(
                p1 as int,
                p2 as int,
            ) + bytes@.subrange(p2 as int, p3 as int));
            assert(bytes@.subrange(0, p3 as int) =~= er + en + ea);
        }
        Ok(a)
    }

    proof fn lemma_parts(b: Seq<u8>, r: Seq<char>, sn: usize, al: Seq<char>)
        requires
            encoded_at(b, 0, anchor_bytes(r, sn, al)),
        ensures
            encoded_at(b, 0, enc_str(r)),
            encoded_at(b, enc_str(r).len() as int, enc_u64(sn as u64)),
            encoded_at(b, (enc_str(r).len() + enc_u64(sn as u64).len()) as int, enc_str(al)),
    {
        lemma_encoded_at_split(b, 0, enc_str(r) + enc_u64(sn as u64), enc_str(al));
        lemma_encoded_at_split(b, 0, enc_str(r), enc_u64(sn as u64));
    }
}

/// Bytes that start with an anchor's stored form start with no other anchor's:
/// decoding an anchor's stored form gives back that anchor.
pub proof fn lemma_anchor_bytes_unique(
    b: Seq<u8>,
    r1: Seq<char>,
    sn1: usize,
    al1: Seq<char>,
    r2: Seq<char>,
    sn2: usize,
    al2: Seq<char>,
)
    requires
        b.len() <= 0xffff_ffff_ffff_ffff,
        encoded_at(b, 0, anchor_bytes(r1, sn1, al1)),
        encoded_at(b, 0, anchor_bytes(r2, sn2, al2)),
    ensures
        r1 == r2,
        sn1 == sn2,
        al1 == al2,
{
    Anchor::lemma_parts(b, r1, sn1, al1);
    Anchor::lemma_parts(b, r2, sn2, al2);
    lemma_str_unique(b, 0, r1, r2);
    vstd::bytes::lemma_auto_spec_u64_to_from_le_bytes();
    assert(enc_u64(sn1 as u64) =~= enc_u64(sn2 as u64));
    lemma_str_unique(b, (enc_str(r1).len() + 8) as int, al1, al2);
}

} // verus!
