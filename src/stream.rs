//! Profile streams, their blocks, and chains of streams that rotate their
//! signing key under a master group.
use vstd::prelude::*;

pub use crate::anchor::asi;
use crate::anchor::{al_of, asi_of, link_data, link_payload, Anchor};
use crate::codec::{bytes_to_vec, enc_bool, enc_bytes, enc_str, enc_tag, push_bool, push_bytes, push_str};
use crate::crypto::{
    commit, commit_of, ed25519_accepts, lemma_keypair_signatures_verify, signature_of,
    verify_signature, Keypair, PublicKey, Signature,
};
use crate::error::Error;
use crate::groups::{enc_groups, group_map, has_group, index_groups, push_groups, unique_commits, TLGroup};
use crate::identity::{otype_tag, push_otype, OType, Renew};

verus! {

/// A renew block that opens a stream in a chain: the renew, signed by a master
/// key of the previous stream, and the previous stream's signing key.
#[derive(Debug, Clone)]
pub struct ExtRenew {
    pub renew: Renew,
    pub key: PublicKey,
}

/// A stream record: an operation and its data.
#[derive(Debug, Clone)]
pub struct Record {
    pub oper: OType,
    pub info: Vec<u8>,
}

/// A signed stream block extending the stream's tip.
#[derive(Debug, Clone)]
pub struct StreamBlock {
    pub record: Record,
    pub prev: Signature,
    pub sig: Signature,
}

/// A profile stream: its genesis, signed by the profile key, and its blocks.
#[derive(Debug, Clone)]
pub struct Stream {
    pub asi: String,
    pub groups: Vec<TLGroup>,
    pub genesis: Record,
    pub renew: Option<ExtRenew>,
    pub sig: Signature,
    pub blocks: Vec<StreamBlock>,
}

/// An encoded record.
pub open spec fn enc_record(rec: Record) -> Seq<u8> {
    enc_tag(otype_tag(rec.oper)) + enc_bytes(rec.info@)
}

/// An encoded optional key: a presence flag, then the key's bytes.
pub open spec fn enc_opt_key(k: Option<PublicKey>) -> Seq<u8> {
    match k {
        None => enc_bool(false),
        Some(k) => enc_bool(true) + enc_bytes(k@),
    }
}

/// An encoded renew with all its fields.
pub open spec fn enc_renew(rn: Renew) -> Seq<u8> {
    enc_str(rn.commit@) + enc_bytes(rn.prev@) + enc_bytes(rn.sig@) + enc_opt_key(rn.key)
}

/// An encoded optional renew block.
pub open spec fn enc_opt_ext_renew(e: Option<ExtRenew>) -> Seq<u8> {
    match e {
        None => enc_bool(false),
        Some(e) => enc_bool(true) + enc_renew(e.renew) + enc_bytes(e.key@),
    }
}

/// The bytes a stream's genesis signature covers.
pub open spec fn stream_payload(
    asi: Seq<char>,
    groups: Seq<TLGroup>,
    genesis: Record,
    renew: Option<ExtRenew>,
) -> Seq<u8> {
    enc_str(asi) + enc_groups(groups) + enc_record(genesis) + enc_opt_ext_renew(renew)
}

/// The bytes a block's signature covers.
pub open spec fn block_payload(record: Record, prev: Seq<u8>) -> Seq<u8> {
    enc_record(record) + enc_bytes(prev)
}

fn push_record(out: &mut Vec<u8>, rec: &Record)
    ensures
        final(out)@ == old(out)@ + enc_record(*rec),
{
    push_otype(out, rec.oper);
    push_bytes(out, rec.info.as_slice());
    proof {
        assert(final(out)@ =~= old(out)@ + enc_record(*rec));
    }
}

fn push_opt_key(out: &mut Vec<u8>, k: &Option<PublicKey>)
    ensures
        final(out)@ == old(out)@ + enc_opt_key(*k),
{
    match k {
        None => push_bool(out, false),
        Some(k) => {
            push_bool(out, true);
            push_bytes(out, k.bytes.as_slice());
        },
    }
    proof {
        assert(final(out)@ =~= old(out)@ + enc_opt_key(*k));
    }
}

fn push_opt_ext_renew(out: &mut Vec<u8>, e: &Option<ExtRenew>)
    ensures
        final(out)@ == old(out)@ + enc_opt_ext_renew(*e),
{
    match e {
        None => push_bool(out, false),
        Some(e) => {
            push_bool(out, true);
            push_str(out, e.renew.commit.as_str());
            push_bytes(out, e.renew.prev.bytes.as_slice());
            push_bytes(out, e.renew.sig.bytes.as_slice());
            push_opt_key(out, &e.renew.key);
            push_bytes(out, e.key.bytes.as_slice());
        },
    }
    proof {
        assert(final(out)@ =~= old(out)@ + enc_opt_ext_renew(*e));
    }
}

impl Record {
    /// A record of an operation and its data.
    pub fn new(oper: OType, info: &[u8]) -> (r: Self)
        ensures
            r.oper == oper,
            r.info@ == info@,
    {
        Record { oper, info: bytes_to_vec(info) }
    }
}

impl StreamBlock {
    /// The block's signature verifies under `key`.
    pub open spec fn verifies_under(&self, key: Seq<u8>) -> bool {
        ed25519_accepts(key, block_payload(self.record, self.prev@), self.sig@)
    }

    /// A block holding `record` that extends `prev`, signed by the key pair.
    pub fn new(keypair: &Keypair, record: Record, prev: &Signature) -> (r: Self)
        ensures
            r.record == record,
            r.prev@ == prev@,
            r.sig@ == signature_of(keypair.secret_bytes(), block_payload(record, prev@)),
            r.verifies_under(keypair.public_key()),
    {
        let data = Self::data(&record, prev);
        let sig = keypair.sign(data.as_slice());
        StreamBlock { record, prev: prev.clone(), sig }
    }

    /// Whether the block's signature verifies under `key`.
    pub fn verify(&self, key: &PublicKey) -> (r: bool)
        ensures
            r == self.verifies_under(key@),
    {
        let data = Self::data(&self.record, &self.prev);
        verify_signature(key, data.as_slice(), &self.sig)
    }

    fn data(record: &Record, prev: &Signature) -> (r: Vec<u8>)
        ensures
            r@ == block_payload(*record, prev@),
    {
        let mut data: Vec<u8> = Vec::new();
        push_record(&mut data, record);
        push_bytes(&mut data, prev.bytes.as_slice());
        proof {
            assert(data@ =~= block_payload(*record, prev@));
        }
        data
    }
}

impl Stream {
    /// The stream's tip: the last block's signature, or the genesis
    /// signature while there is no block.
    pub open spec fn tip(&self) -> Seq<u8> {
        if self.blocks@.len() == 0 {
            self.sig@
        } else {
            self.blocks@.last().sig@
        }
    }

    /// `sig` links the stream to identity `udi` and salt `r` under `key`: the
    /// stream's identifier derives from `key` and `sig`, and `sig` is `key`'s
    /// signature of the link.
    pub open spec fn linked_by(&self, udi: Seq<char>, r: Seq<char>, key: Seq<u8>, sig: Seq<u8>) -> bool {
        asi_of(key, sig) == self.asi@ && ed25519_accepts(key, link_payload(udi, r), sig)
    }

    /// The genesis signature verifies under `key`.
    pub open spec fn verifies_under(&self, key: Seq<u8>) -> bool {
        ed25519_accepts(
            key,
            stream_payload(self.asi@, self.groups@, self.genesis, self.renew),
            self.sig@,
        )
    }

    /// What `verify_stream` returns: the genesis is checked first, then the
    /// blocks.
    pub open spec fn verify_result(&self, key: Seq<u8>) -> Result<(), Error> {
        if !self.verifies_under(key) {
            Err(Error::InvalidGenesisSignature)
        } else if exists|i: int|
            0 <= i < self.blocks@.len() && !(#[trigger] self.blocks@[i]).verifies_under(key) {
            Err(Error::InvalidBlockSignature)
        } else {
            Ok(())
        }
    }

    /// A stream of the key pair for identity `udi` and salt `r`: its
    /// identifier derives from the key pair's link signature, and its genesis
    /// is signed by the key pair.
    pub fn new(
        keypair: &Keypair,
        udi: &str,
        r: &str,
        groups: &[TLGroup],
        genesis: Record,
        renew: Option<ExtRenew>,
    ) -> (res: Self)
        ensures
            res.asi@ == asi_of(
                keypair.public_key(),
                signature_of(keypair.secret_bytes(), link_payload(udi@, r@)),
            ),
            unique_commits(res.groups@),
            group_map(res.groups@) == group_map(groups@),
            res.genesis == genesis,
            res.renew == renew,
            res.sig@ == signature_of(
                keypair.secret_bytes(),
                stream_payload(res.asi@, res.groups@, genesis, renew),
            ),
            res.blocks@.len() == 0,
            res.verifies_under(keypair.public_key()),
    {
        let g_map = index_groups(groups);
        let link = link_data(udi, r);
        let link_sig = keypair.sign(link.as_slice());
        let asi = asi(keypair.public(), &link_sig);
        let data = Self::data(&asi, &g_map, &genesis, &renew);
        let sig = keypair.sign(data.as_slice());
        Stream { asi, groups: g_map, genesis, renew, sig, blocks: Vec::new() }
    }

    /// The stream's tip.
    pub fn prev(&self) -> (r: &Signature)
        ensures
            r@ == self.tip(),
    {
        if self.blocks.len() == 0 {
            &self.sig
        } else {
            &self.blocks[self.blocks.len() - 1].sig
        }
    }

    /// Appends a block that extends the tip; any other block is rejected and
    /// the stream left as it was.
    pub fn save(&mut self, block: StreamBlock) -> (r: Result<(), Error>)
        ensures
            r is Ok <==> block.prev@ == old(self).tip(),
            r matches Err(e) ==> e == Error::InvalidStreamChain && *final(self) == *old(self),
            r is Ok ==> {
                &&& final(self).blocks@ == old(self).blocks@.push(block)
                &&& final(self).asi == old(self).asi
                &&& final(self).groups == old(self).groups
                &&& final(self).genesis == old(self).genesis
                &&& final(self).renew == old(self).renew
                &&& final(self).sig == old(self).sig
            },
    {
        if !(block.prev == *self.prev()) {
            return Err(Error::InvalidStreamChain);
        }
        self.blocks.push(block);
        Ok(())
    }

    /// Whether `sig` links this stream to identity `udi` and salt `r` under
    /// `key`: the stream's identifier derives from `key` and `sig`, and `sig`
    /// is `key`'s signature of the link.
    pub fn check_asi(&self, udi: &str, r: &str, key: &PublicKey, sig: &Signature) -> (res: bool)
        ensures
            res == self.linked_by(udi@, r@, key@, sig@),
    {
        let asi = asi(key, sig);
        if !(asi == self.asi) {
            return false;
        }
        let data = link_data(udi, r);
        verify_signature(key, data.as_slice(), sig)
    }

    /// Verifies the genesis and then every block under `key`.
    pub fn verify_stream(&self, key: &PublicKey) -> (r: Result<(), Error>)
        ensures
            r == self.verify_result(key@),
    {
        if !self.verify(key) {
            return Err(Error::InvalidGenesisSignature);
        }
        let mut i: usize = 0;
        while i < self.blocks.len()
            invariant
                self.verifies_under(key@),
                i <= self.blocks@.len(),
                forall|j: int| 0 <= j < i ==> (#[trigger] self.blocks@[j]).verifies_under(key@),
            decreases self.blocks.len() - i,
        {
            if !self.blocks[i].verify(key) {
                proof {
                    assert(!self.blocks@[i as int].verifies_under(key@));
                }
                return Err(Error::InvalidBlockSignature);
            }
            i = i + 1;
        }
        Ok(())
    }

    /// Whether the genesis signature verifies under `key`.
    pub fn verify(&self, key: &PublicKey) -> (r: bool)
        ensures
            r == self.verifies_under(key@),
    {
        let data = Self::data(&self.asi, &self.groups, &self.genesis, &self.renew);
        verify_signature(key, data.as_slice(), &self.sig)
    }

    fn data(
        asi: &String,
        groups: &Vec<TLGroup>,
        genesis: &Record,
        renew: &Option<ExtRenew>,
    ) -> (r: Vec<u8>)
        ensures
            r@ == stream_payload(asi@, groups@, *genesis, *renew),
    {
        let mut data: Vec<u8> = Vec::new();
        push_str(&mut data, asi.as_str());
        push_groups(&mut data, groups);
        push_record(&mut data, genesis);
        push_opt_ext_renew(&mut data, renew);
        proof {
            assert(data@ =~= stream_payload(asi@, groups@, *genesis, *renew));
        }
        data
    }
}

/// `next` may follow `prev` in a chain: it carries a renew block whose
/// previous-stream key verifies all of `prev`, whose renew verifies under the
/// master key it carries, that key being a group of `prev`, and which extends
/// `prev`'s tip.
pub open spec fn link_valid(prev: Stream, next: Stream) -> bool {
    match next.renew {
        None => false,
        Some(ext) => match ext.renew.key {
            None => false,
            Some(mk) => {
                &&& prev.verify_result(ext.key@) is Ok
                &&& ext.renew.verifies_under(mk@)
                &&& group_map(prev.groups@).contains_key(commit_of(mk@))
                &&& ext.renew.prev@ == prev.tip()
            },
        },
    }
}

/// What appending `s` to a chain whose latest stream is `cur` returns.
pub open spec fn chain_save_result(cur: Stream, s: Stream) -> Result<(), Error> {
    match s.renew {
        None => Err(Error::MissingStreamRenew),
        Some(ext) => {
            if cur.verify_result(ext.key@) is Err {
                cur.verify_result(ext.key@)
            } else {
                match ext.renew.key {
                    None => Err(Error::MissingMasterKey),
                    Some(mk) => {
                        if !ext.renew.verifies_under(mk@) {
                            Err(Error::InvalidRenew)
                        } else if !group_map(cur.groups@).contains_key(commit_of(mk@)) {
                            Err(Error::NoStreamGroup)
                        } else if ext.renew.prev@ != cur.tip() {
                            Err(Error::InvalidStreamChain)
                        } else {
                            Ok(())
                        }
                    },
                }
            }
        },
    }
}

/// The views of an optional key.
pub open spec fn key_view(k: Option<PublicKey>) -> Option<Seq<u8>> {
    match k {
        None => None,
        Some(k) => Some(k@),
    }
}

/// The views of an optional text.
pub open spec fn text_view(s: Option<String>) -> Option<Seq<char>> {
    match s {
        None => None,
        Some(s) => Some(s@),
    }
}

/// The views of an optional signature.
pub open spec fn sig_view(s: Option<Signature>) -> Option<Seq<u8>> {
    match s {
        None => None,
        Some(s) => Some(s@),
    }
}

/// What checking the first `n` streams of `chain`, newest first, returns when
/// the newest of them must verify under `skey`, hold the group `mcommit` and
/// end at tip `prev` (each as demanded by the stream after it).
pub open spec fn check_walk(
    chain: Seq<Stream>,
    n: nat,
    skey: Option<Seq<u8>>,
    mcommit: Option<Seq<char>>,
    prev: Option<Seq<u8>>,
) -> Result<(), Error>
    decreases n,
{
    if n == 0 {
        if skey is Some {
            Err(Error::InvalidChainEnd)
        } else {
            Ok(())
        }
    } else {
        let st = chain[n - 1];
        match skey {
            None => Err(Error::MissingStreamKey),
            Some(k) => {
                if mcommit matches Some(c) && !group_map(st.groups@).contains_key(c) {
                    Err(Error::NoStreamGroup)
                } else if prev matches Some(p) && p != st.tip() {
                    Err(Error::InvalidStreamChain)
                } else if st.verify_result(k) is Err {
                    st.verify_result(k)
                } else {
                    match st.renew {
                        None => check_walk(chain, (n - 1) as nat, None, mcommit, prev),
                        Some(ext) => match ext.renew.key {
                            None => Err(Error::MissingMasterKey),
                            Some(mk) => {
                                if !ext.renew.verifies_under(mk@) {
                                    Err(Error::InvalidRenew)
                                } else {
                                    check_walk(
                                        chain,
                                        (n - 1) as nat,
                                        Some(ext.key@),
                                        Some(commit_of(mk@)),
                                        Some(ext.renew.prev@),
                                    )
                                }
                            },
                        },
                    }
                }
            },
        }
    }
}

/// A chain of streams, oldest first, each after the first authorized by a
/// master group of the one before it.
#[derive(Debug, Clone)]
pub struct Chain {
    chain: Vec<Stream>,
}

impl View for Chain {
    type V = Seq<Stream>;

    closed spec fn view(&self) -> Seq<Stream> {
        self.chain@
    }
}

impl Chain {
    /// The chain is non-empty and each stream may follow the one before it.
    pub open spec fn links_hold(&self) -> bool {
        &&& self@.len() > 0
        &&& forall|i: int| 0 < i < self@.len() ==> link_valid(self@[i - 1], #[trigger] self@[i])
    }

    /// The latest stream.
    pub open spec fn latest(&self) -> Stream {
        self@.last()
    }

    /// A chain that opens with `genesis`.
    pub fn new(genesis: Stream) -> (r: Self)
        ensures
            r@ == seq![genesis],
            r.links_hold(),
    {
        let mut chain: Vec<Stream> = Vec::new();
        chain.push(genesis);
        proof {
            assert(chain@ =~= seq![genesis]);
        }
        Chain { chain }
    }

    /// The latest stream.
    pub fn current(&self) -> (r: &Stream)
        requires
            self.links_hold(),
        ensures
            *r == self.latest(),
    {
        &self.chain[self.chain.len() - 1]
    }

    /// Appends a stream whose renew block is authorized by a master group of
    /// the latest stream; a rejected stream leaves the chain as it was.
    pub fn save(&mut self, stream: Stream) -> (r: Result<(), Error>)
        requires
            old(self).links_hold(),
        ensures
            r == chain_save_result(old(self).latest(), stream),
            r is Ok ==> final(self)@ == old(self)@.push(stream),
            r is Err ==> *final(self) == *old(self),
            final(self).links_hold(),
    {
        let n = self.chain.len();
        let srenew = match &stream.renew {
            None => {
                return Err(Error::MissingStreamRenew);
            },
            Some(e) => e,
        };
        let st = &self.chain[n - 1];
        match st.verify_stream(&srenew.key) {
            Err(e) => {
                return Err(e);
            },
            Ok(()) => {},
        }
        let mkey = match &srenew.renew.key {
            None => {
                return Err(Error::MissingMasterKey);
            },
            Some(k) => k,
        };
        let mcommit = commit(mkey);
        if !srenew.renew.verify(mkey) {
            return Err(Error::InvalidRenew);
        }
        if !has_group(&st.groups, &mcommit) {
            return Err(Error::NoStreamGroup);
        }
        if !(srenew.renew.prev == *st.prev()) {
            return Err(Error::InvalidStreamChain);
        }
        let ghost pre = self.chain@;
        proof {
            assert(link_valid(pre.last(), stream));
        }
        self.chain.push(stream);
        proof {
            assert forall|i: int|
                0 < i < self.chain@.len() implies link_valid(self.chain@[i - 1], #[trigger] self.chain@[i]) by {
                if i < pre.len() {
                    assert(link_valid(pre[i - 1], pre[i]));
                }
            }
        }
        Ok(())
    }

    /// Walks the chain from the latest stream back to the first: each stream
    /// must verify under the key of the walk, hold the master group that the
    /// stream after it named and end at the tip its renew extends; a stream's
    /// renew block then names the key of the stream before it. The walk must
    /// run out of keys exactly at the first stream.
    pub fn check(&self, key: &PublicKey) -> (r: Result<(), Error>)
        ensures
            r == check_walk(self@, self@.len(), Some(key@), None, None),
    {
        let mut mcommit: Option<String> = None;
        let mut prev: Option<Signature> = None;
        let mut skey: Option<PublicKey> = Some(key.clone());
        let mut i: usize = self.chain.len();
        while i > 0
            invariant
                i <= self.chain@.len(),
                check_walk(self.chain@, i as nat, key_view(skey), text_view(mcommit), sig_view(prev))
                    == check_walk(self.chain@, self.chain@.len(), Some(key@), None, None),
            decreases i,
        {
            let st = &self.chain[i - 1];
            let k = match &skey {
                None => {
                    return Err(Error::MissingStreamKey);
                },
                Some(k) => k,
            };
            match &mcommit {
                Some(c) => {
                    if !has_group(&st.groups, c) {
                        return Err(Error::NoStreamGroup);
                    }
                },
                None => {},
            }
            match &prev {
                Some(p) => {
                    if !(*p == *st.prev()) {
                        return Err(Error::InvalidStreamChain);
                    }
                },
                None => {},
            }
            match st.verify_stream(k) {
                Err(e) => {
                    return Err(e);
                },
                Ok(()) => {},
            }
            let next_key = match &st.renew {
                None => None,
                Some(ext) => {
                    let mkey = match &ext.renew.key {
                        None => {
                            return Err(Error::MissingMasterKey);
                        },
                        Some(mk) => mk,
                    };
                    if !ext.renew.verify(mkey) {
                        return Err(Error::InvalidRenew);
                    }
                    mcommit = Some(commit(mkey));
                    prev = Some(ext.renew.prev.clone());
                    Some(ext.key.clone())
                },
            };
            skey = next_key;
            i = i - 1;
        }
        if skey.is_some() {
            return Err(Error::InvalidChainEnd);
        }
        Ok(())
    }
}

/// The renew block of a stream, if any, names the key of the stream before it.
pub open spec fn predecessor_key(s: Stream) -> Seq<u8> {
    match s.renew {
        Some(ext) => ext.key@,
        None => Seq::empty(),
    }
}

/// The stream carries a renew block with a master key under which the renew
/// verifies.
pub open spec fn renew_block_verifies(s: Stream) -> bool {
    match s.renew {
        Some(ext) => match ext.renew.key {
            Some(mk) => ext.renew.verifies_under(mk@),
            None => false,
        },
        None => false,
    }
}

/// Every stream of a chain but the latest verifies, genesis and blocks, under
/// the key that the next stream's renew block names for it; that renew block
/// verifies under its master key.
pub proof fn lemma_chain_signatures(c: Chain)
    requires
        c.links_hold(),
    ensures
        forall|i: int|
            0 < i < c@.len() ==> (#[trigger] c@[i - 1]).verify_result(predecessor_key(c@[i])) is Ok,
        forall|i: int| 0 < i < c@.len() ==> renew_block_verifies(#[trigger] c@[i]),
{
    assert forall|i: int| 0 < i < c@.len() implies (#[trigger] c@[i - 1]).verify_result(
        predecessor_key(c@[i]),
    ) is Ok by {
        assert(link_valid(c@[i - 1], c@[i]));
    }
    assert forall|i: int| 0 < i < c@.len() implies renew_block_verifies(#[trigger] c@[i]) by {
        assert(link_valid(c@[i - 1], c@[i]));
    }
}

/// A stream and an anchor made by one key pair for one identity and salt are
/// bound: the anchor's link signature links the stream under the key pair's
/// public key, and its locator is the anchor's.
pub proof fn lemma_anchor_stream_binding(
    keypair: Keypair,
    udi: Seq<char>,
    r: Seq<char>,
    stream: Stream,
    anchor: Anchor,
    sig: Signature,
)
    requires
        keypair.inv(),
        stream.asi@ == asi_of(
            keypair.public_key(),
            signature_of(keypair.secret_bytes(), link_payload(udi, r)),
        ),
        anchor.r@ == r,
        anchor.al@ == al_of(signature_of(keypair.secret_bytes(), link_payload(udi, r))),
        sig@ == signature_of(keypair.secret_bytes(), link_payload(udi, anchor.r@)),
    ensures
        stream.linked_by(udi, r, keypair.public_key(), sig@),
        al_of(sig@) == anchor.al@,
{
    lemma_keypair_signatures_verify(&keypair, link_payload(udi, r));
}

} // verus!
