//! Identity chains: cards, cancel and renew events, evolutions, and the
//! identity's per-topic registry chains.
use vstd::prelude::*;

use crate::codec::{bytes_to_vec, enc_bool, enc_bytes, enc_str, enc_tag, push_bool, push_bytes, push_str, push_tag};
use crate::crypto::{
    commit, commit_of, ed25519_accepts, signature_of, verify_signature, Keypair, PublicKey,
    Signature,
};
use crate::error::Error;
pub use crate::groups::{TLGroup, TLType};
use crate::groups::{
    enc_groups, find_group, group_map, index_groups, push_groups, unique_commits,
};

verus! {

/// The operation that a registry entry or a stream record performs.
#[allow(non_camel_case_types)]
#[derive(Debug, Clone, Copy, PartialEq, Eq, Structural)]
pub enum OType {
    SET,
    DEL,
}

/// The variant index of an operation.
pub open spec fn otype_tag(o: OType) -> u32 {
    match o {
        OType::SET => 0,
        OType::DEL => 1,
    }
}

/// Appends the variant index of an operation.
pub fn push_otype(out: &mut Vec<u8>, o: OType)
    ensures
        final(out)@ == old(out)@ + enc_tag(otype_tag(o)),
{
    let t: u32 = match o {
        OType::SET => 0,
        OType::DEL => 1,
    };
    push_tag(out, t);
}

/// The bytes a card's key signs.
pub open spec fn card_payload(is_genesis: bool, info: Seq<u8>, groups: Seq<TLGroup>) -> Seq<u8> {
    enc_bool(is_genesis) + enc_bytes(info) + enc_groups(groups)
}

/// The bytes a cancel's key signs.
pub open spec fn cancel_payload(is_close: bool, prev: Seq<u8>) -> Seq<u8> {
    enc_bool(is_close) + enc_bytes(prev)
}

/// The bytes a renew's key signs.
pub open spec fn renew_payload(commit: Seq<char>, prev: Seq<u8>) -> Seq<u8> {
    enc_str(commit) + enc_bytes(prev)
}

/// The bytes a registry entry's key signs.
pub open spec fn registry_payload(
    id: Seq<char>,
    typ: Seq<char>,
    oper: OType,
    info: Seq<u8>,
    prev: Seq<u8>,
) -> Seq<u8> {
    enc_str(id) + enc_str(typ) + enc_tag(otype_tag(oper)) + enc_bytes(info) + enc_bytes(prev)
}

/// A signed binding of a public key to a set of trust-line groups.
#[derive(Debug, Clone)]
pub struct Card {
    pub is_genesis: bool,
    pub info: Vec<u8>,
    pub groups: Vec<TLGroup>,
    pub sig: Signature,
    pub key: PublicKey,
}

impl Card {
    /// The card's signature verifies under its key.
    pub open spec fn verifies(&self) -> bool {
        ed25519_accepts(self.key@, card_payload(self.is_genesis, self.info@, self.groups@), self.sig@)
    }

    /// A card for the key pair's public key, signed by it, whose groups are
    /// `groups` indexed by commit.
    pub fn new(is_genesis: bool, keypair: &Keypair, info: &[u8], groups: &[TLGroup]) -> (r: Self)
        ensures
            r.is_genesis == is_genesis,
            r.info@ == info@,
            unique_commits(r.groups@),
            group_map(r.groups@) == group_map(groups@),
            r.key@ == keypair.public_key(),
            r.sig@ == signature_of(
                keypair.secret_bytes(),
                card_payload(is_genesis, info@, r.groups@),
            ),
            r.verifies(),
    {
        let g_map = index_groups(groups);
        let data = Self::data(is_genesis, info, &g_map);
        let sig = keypair.sign(data.as_slice());
        Card { is_genesis, info: bytes_to_vec(info), groups: g_map, sig, key: keypair.public().clone() }
    }

    /// Whether the card's signature verifies under its key.
    pub fn verify(&self) -> (r: bool)
        ensures
            r == self.verifies(),
    {
        let data = Self::data(self.is_genesis, self.info.as_slice(), &self.groups);
        verify_signature(&self.key, data.as_slice(), &self.sig)
    }

    fn data(is_genesis: bool, info: &[u8], groups: &Vec<TLGroup>) -> (r: Vec<u8>)
        ensures
            r@ == card_payload(is_genesis, info@, groups@),
    {
        let mut data: Vec<u8> = Vec::new();
        push_bool(&mut data, is_genesis);
        push_bytes(&mut data, info);
        push_groups(&mut data, groups);
        proof {
            assert(data@ =~= card_payload(is_genesis, info@, groups@));
        }
        data
    }
}

/// A signed event that disables an identity, for good when `is_close` is set.
#[derive(Debug, Clone)]
pub struct Cancel {
    pub is_close: bool,
    pub prev: Signature,
    pub sig: Signature,
    pub key: PublicKey,
}

impl Cancel {
    /// The cancel's signature verifies under its key.
    pub open spec fn verifies(&self) -> bool {
        ed25519_accepts(self.key@, cancel_payload(self.is_close, self.prev@), self.sig@)
    }

    /// A cancel extending `prev`, signed by the key pair.
    pub fn new(is_close: bool, keypair: &Keypair, prev: &Signature) -> (r: Self)
        ensures
            r.is_close == is_close,
            r.prev@ == prev@,
            r.key@ == keypair.public_key(),
            r.sig@ == signature_of(keypair.secret_bytes(), cancel_payload(is_close, prev@)),
            r.verifies(),
    {
        let data = Self::data(is_close, prev);
        let sig = keypair.sign(data.as_slice());
        Cancel { is_close, prev: prev.clone(), sig, key: keypair.public().clone() }
    }

    /// Whether the cancel's signature verifies under its key.
    pub fn verify(&self) -> (r: bool)
        ensures
            r == self.verifies(),
    {
        let data = Self::data(self.is_close, &self.prev);
        verify_signature(&self.key, data.as_slice(), &self.sig)
    }

    fn data(is_close: bool, prev: &Signature) -> (r: Vec<u8>)
        ensures
            r@ == cancel_payload(is_close, prev@),
    {
        let mut data: Vec<u8> = Vec::new();
        push_bool(&mut data, is_close);
        push_bytes(&mut data, prev.bytes.as_slice());
        proof {
            assert(data@ =~= cancel_payload(is_close, prev@));
        }
        data
    }
}

/// A signed event that commits to the key of the next card.
#[derive(Debug, Clone)]
pub struct Renew {
    pub commit: String,
    pub prev: Signature,
    pub sig: Signature,
    pub key: Option<PublicKey>,
}

impl Renew {
    /// The renew's signature verifies under `key`.
    pub open spec fn verifies_under(&self, key: Seq<u8>) -> bool {
        ed25519_accepts(key, renew_payload(self.commit@, self.prev@), self.sig@)
    }

    /// A renew extending `prev` that commits to `next`, signed by the key pair,
    /// which carries the key pair's public key when `inc_key` is set.
    pub fn new(keypair: &Keypair, next: &PublicKey, prev: &Signature, inc_key: bool) -> (r: Self)
        ensures
            r.commit@ == commit_of(next@),
            r.prev@ == prev@,
            r.sig@ == signature_of(keypair.secret_bytes(), renew_payload(r.commit@, prev@)),
            r.verifies_under(keypair.public_key()),
            inc_key ==> (r.key matches Some(k) && k@ == keypair.public_key()),
            !inc_key ==> r.key is None,
    {
        let commit = commit(next);
        let data = Self::data(&commit, prev);
        let sig = keypair.sign(data.as_slice());
        let key = if inc_key {
            Some(keypair.public().clone())
        } else {
            None
        };
        Renew { commit, prev: prev.clone(), sig, key }
    }

    /// Whether the renew's signature verifies under `key`.
    pub fn verify(&self, key: &PublicKey) -> (r: bool)
        ensures
            r == self.verifies_under(key@),
    {
        let data = Self::data(&self.commit, &self.prev);
        verify_signature(key, data.as_slice(), &self.sig)
    }

    fn data(commit: &String, prev: &Signature) -> (r: Vec<u8>)
        ensures
            r@ == renew_payload(commit@, prev@),
    {
        let mut data: Vec<u8> = Vec::new();
        push_str(&mut data, commit.as_str());
        push_bytes(&mut data, prev.bytes.as_slice());
        proof {
            assert(data@ =~= renew_payload(commit@, prev@));
        }
        data
    }
}

/// One evolution of an identity: a cancel, a renew, or a cancel followed by
/// a renew.
#[derive(Debug, Clone)]
pub struct Evolve {
    pub cancel: Option<Cancel>,
    pub renew: Option<Renew>,
}

/// A signed operation in one of an identity's registry chains, signed by the
/// key of the card at `key_index`.
#[derive(Debug, Clone)]
pub struct Registry {
    pub id: String,
    pub typ: String,
    pub oper: OType,
    pub info: Vec<u8>,
    pub prev: Signature,
    pub sig: Signature,
    pub key_index: usize,
}

impl Registry {
    /// The entry's signature verifies under `key`.
    pub open spec fn verifies_under(&self, key: Seq<u8>) -> bool {
        ed25519_accepts(
            key,
            registry_payload(self.id@, self.typ@, self.oper, self.info@, self.prev@),
            self.sig@,
        )
    }

    /// A registry entry extending `prev`, signed by the key pair.
    pub fn new(
        keypair: &Keypair,
        id: &str,
        typ: &str,
        oper: OType,
        info: &[u8],
        prev: &Signature,
        key_index: usize,
    ) -> (r: Self)
        ensures
            r.id@ == id@,
            r.typ@ == typ@,
            r.oper == oper,
            r.info@ == info@,
            r.prev@ == prev@,
            r.key_index == key_index,
            r.sig@ == signature_of(
                keypair.secret_bytes(),
                registry_payload(id@, typ@, oper, info@, prev@),
            ),
            r.verifies_under(keypair.public_key()),
    {
        let data = Self::data(id, typ, oper, info, prev);
        let sig = keypair.sign(data.as_slice());
        Registry {
            id: id.to_owned(),
            typ: typ.to_owned(),
            oper,
            info: bytes_to_vec(info),
            prev: prev.clone(),
            sig,
            key_index,
        }
    }

    /// Whether the entry's signature verifies under `key`.
    pub fn verify(&self, key: &PublicKey) -> (r: bool)
        ensures
            r == self.verifies_under(key@),
    {
        let data = Self::data(
            self.id.as_str(),
            self.typ.as_str(),
            self.oper,
            self.info.as_slice(),
            &self.prev,
        );
        verify_signature(key, data.as_slice(), &self.sig)
    }

    fn data(id: &str, typ: &str, oper: OType, info: &[u8], prev: &Signature) -> (r: Vec<u8>)
        ensures
            r@ == registry_payload(id@, typ@, oper, info@, prev@),
    {
        let mut data: Vec<u8> = Vec::new();
        push_str(&mut data, id);
        push_str(&mut data, typ);
        push_otype(&mut data, oper);
        push_bytes(&mut data, info);
        push_bytes(&mut data, prev.bytes.as_slice());
        proof {
            assert(data@ =~= registry_payload(id@, typ@, oper, info@, prev@));
        }
        data
    }
}

/// The registry chain of one topic: its entries, oldest first.
#[derive(Debug, Clone)]
pub struct RegistryChain {
    pub id: String,
    pub entries: Vec<Registry>,
}

/// An identity: its cards, its evolutions and its registry chains.
#[derive(Debug, Clone)]
pub struct Identity {
    pub udi: String,
    pub cards: Vec<Card>,
    pub evols: Vec<Evolve>,
    pub db: Vec<RegistryChain>,
    pub enabled: bool,
}

/// A cancel is accepted against `card`: it extends the card, verifies under its
/// own key, and that key's commit names a group of the card, a master group
/// when the cancel closes the identity.
pub open spec fn cancel_authorized(card: Card, c: Cancel) -> bool {
    &&& c.prev@ == card.sig@
    &&& c.verifies()
    &&& group_map(card.groups@).contains_key(commit_of(c.key@))
    &&& (c.is_close ==> group_map(card.groups@)[commit_of(c.key@)].typ == TLType::MASTER)
}

/// A renew is accepted against `card`: after a cancel it extends the cancel and
/// verifies under the cancel's key, which must not have closed the identity;
/// without one it extends the card and verifies under the key it carries. The
/// verifying key's commit names a group of the card.
pub open spec fn renew_authorized(card: Card, cancel: Option<Cancel>, rn: Renew) -> bool {
    match cancel {
        Some(c) => {
            &&& !c.is_close
            &&& rn.prev@ == c.sig@
            &&& rn.verifies_under(c.key@)
            &&& group_map(card.groups@).contains_key(commit_of(c.key@))
        },
        None => match rn.key {
            Some(k) => {
                &&& rn.prev@ == card.sig@
                &&& rn.verifies_under(k@)
                &&& group_map(card.groups@).contains_key(commit_of(k@))
            },
            None => false,
        },
    }
}

/// The evolution at index `i` was accepted against card `i`, and when card
/// `i + 1` exists, that card's key is the one its renew committed to.
pub open spec fn evolution_valid(cards: Seq<Card>, evols: Seq<Evolve>, i: int) -> bool {
    let e = evols[i];
    &&& (e.cancel is Some || e.renew is Some)
    &&& (e.cancel matches Some(c) ==> cancel_authorized(cards[i], c))
    &&& (e.renew matches Some(rn) ==> renew_authorized(cards[i], e.cancel, rn))
    &&& (i + 1 < cards.len() ==> (e.renew matches Some(rn) && rn.commit@ == commit_of(
        cards[i + 1].key@,
    )))
}

/// A registry entry belongs to topic `id` with type `typ`, and verifies under
/// the key of the card it names.
pub open spec fn entry_valid(cards: Seq<Card>, id: Seq<char>, typ: Seq<char>, r: Registry) -> bool {
    &&& r.id@ == id
    &&& r.typ@ == typ
    &&& r.key_index < cards.len()
    &&& r.verifies_under(cards[r.key_index as int].key@)
}

/// A registry chain is non-empty, its entries share its topic and the first
/// entry's type, each verifies, and each extends the one before it.
pub open spec fn registry_chain_valid(cards: Seq<Card>, ch: RegistryChain) -> bool {
    let es = ch.entries@;
    &&& es.len() > 0
    &&& forall|m: int| 0 <= m < es.len() ==> entry_valid(cards, ch.id@, es[0].typ@, #[trigger] es[m])
    &&& forall|m: int| 1 <= m < es.len() ==> #[trigger] es[m].prev@ == es[m - 1].sig@
}

impl Identity {
    /// The current card.
    pub open spec fn current(&self) -> Card {
        self.cards@.last()
    }

    /// The chain's tip: the current card's signature while enabled, else the
    /// signature of the last renew, or of the last cancel when no renew
    /// followed it.
    pub open spec fn tip(&self) -> Seq<u8> {
        if self.enabled {
            self.current().sig@
        } else {
            let e = self.evols@.last();
            match e.renew {
                Some(rn) => rn.sig@,
                None => match e.cancel {
                    Some(c) => c.sig@,
                    None => Seq::empty(),
                },
            }
        }
    }

    /// Whether a registry chain exists for topic `id`.
    pub open spec fn has_chain(&self, id: Seq<char>) -> bool {
        exists|k: int| 0 <= k < self.db@.len() && #[trigger] self.db@[k].id@ == id
    }

    /// The index of the registry chain for topic `id`.
    pub open spec fn chain_index(&self, id: Seq<char>) -> int {
        choose|k: int| 0 <= k < self.db@.len() && #[trigger] self.db@[k].id@ == id
    }

    /// The first card is the only genesis card, and the identifier is the
    /// commitment of its key.
    pub open spec fn genesis_fixed(&self) -> bool {
        &&& self.cards@.len() >= 1
        &&& self.cards@[0].is_genesis
        &&& forall|i: int| 1 <= i < self.cards@.len() ==> !(#[trigger] self.cards@[i]).is_genesis
        &&& self.udi@ == commit_of(self.cards@[0].key@)
    }

    /// Every card's signature verifies under its key.
    pub open spec fn cards_verified(&self) -> bool {
        forall|i: int| 0 <= i < self.cards@.len() ==> (#[trigger] self.cards@[i]).verifies()
    }

    /// Evolution `i` follows card `i`; while enabled every evolution has its
    /// card, while disabled the last one waits for it; each was accepted.
    pub open spec fn evolutions_valid(&self) -> bool {
        &&& (if self.enabled {
            self.evols@.len() + 1 == self.cards@.len()
        } else {
            self.evols@.len() == self.cards@.len()
        })
        &&& forall|i: int|
            0 <= i < self.evols@.len() ==> #[trigger] evolution_valid(self.cards@, self.evols@, i)
    }

    /// Every registry chain is valid, and no two share a topic.
    pub open spec fn registries_valid(&self) -> bool {
        &&& forall|k: int|
            0 <= k < self.db@.len() ==> #[trigger] registry_chain_valid(self.cards@, self.db@[k])
        &&& forall|k1: int, k2: int|
            0 <= k1 < self.db@.len() && 0 <= k2 < self.db@.len() && k1 != k2 ==> #[trigger] self.db@[k1].id@
                != #[trigger] self.db@[k2].id@
    }

    /// The identity's invariant.
    pub open spec fn wf(&self) -> bool {
        &&& self.genesis_fixed()
        &&& self.cards_verified()
        &&& self.evolutions_valid()
        &&& self.registries_valid()
    }

    /// What `save` returns.
    pub open spec fn save_result(&self, r: Registry) -> Result<(), Error> {
        if !self.enabled {
            Err(Error::Disabled)
        } else if r.key_index != self.cards@.len() - 1 {
            Err(Error::InvalidKeyIndex)
        } else if !r.verifies_under(self.current().key@) {
            Err(Error::InvalidRegistry)
        } else if !self.has_chain(r.id@) {
            if r.prev@ != self.current().sig@ {
                Err(Error::InvalidChain)
            } else {
                Ok(())
            }
        } else {
            let last = self.db@[self.chain_index(r.id@)].entries@.last();
            if r.prev@ != last.sig@ {
                Err(Error::InvalidChain)
            } else if r.typ@ != last.typ@ {
                Err(Error::ChainTypeMismatch)
            } else {
                Ok(())
            }
        }
    }

    /// What `cancel` returns.
    pub open spec fn cancel_result(&self, ev: Cancel) -> Result<(), Error> {
        let card = self.current();
        let c = commit_of(ev.key@);
        if !self.enabled {
            Err(Error::EvolveInProgress)
        } else if ev.prev@ != card.sig@ {
            Err(Error::InvalidChain)
        } else if !ev.verifies() {
            Err(Error::InvalidCancel)
        } else if !group_map(card.groups@).contains_key(c) {
            Err(Error::NoGroup)
        } else if ev.is_close && group_map(card.groups@)[c].typ != TLType::MASTER {
            Err(Error::MasterRequired)
        } else {
            Ok(())
        }
    }

    /// What `renew` returns once the verifying key is known.
    pub open spec fn renew_key_result(&self, ev: Renew, key: Seq<u8>) -> Result<(), Error> {
        if !ev.verifies_under(key) {
            Err(Error::InvalidRenew)
        } else if !group_map(self.current().groups@).contains_key(commit_of(key)) {
            Err(Error::NoGroup)
        } else {
            Ok(())
        }
    }

    /// What `renew` returns.
    pub open spec fn renew_result(&self, ev: Renew) -> Result<(), Error> {
        if self.enabled {
            if ev.prev@ != self.current().sig@ {
                Err(Error::InvalidChain)
            } else {
                match ev.key {
                    None => Err(Error::MissingRenewKey),
                    Some(k) => self.renew_key_result(ev, k@),
                }
            }
        } else {
            let e = self.evols@.last();
            match e.cancel {
                None => Err(Error::InvalidRenewState),
                Some(c) => {
                    if e.renew is Some {
                        Err(Error::InvalidRenewState)
                    } else if c.is_close {
                        Err(Error::ClosedPermanently)
                    } else if c.sig@ != ev.prev@ {
                        Err(Error::InvalidChain)
                    } else {
                        self.renew_key_result(ev, c.key@)
                    }
                },
            }
        }
    }

    /// What `evolve` returns.
    pub open spec fn evolve_result(&self, card: Card) -> Result<(), Error> {
        if self.enabled {
            Err(Error::EvolveEnabled)
        } else if card.is_genesis {
            Err(Error::EvolveToGenesis)
        } else {
            match self.evols@.last().renew {
                None => Err(Error::MissingRenew),
                Some(rn) => {
                    if rn.commit@ != commit_of(card.key@) {
                        Err(Error::InvalidCardKey)
                    } else if !card.verifies() {
                        Err(Error::InvalidCard)
                    } else {
                        Ok(())
                    }
                },
            }
        }
    }

    /// An identity whose first card is `genesis`; rejected unless the card
    /// is a genesis card whose signature verifies.
    pub fn new(genesis: Card) -> (r: Result<Identity, Error>)
        ensures
            r is Ok <==> genesis.is_genesis && genesis.verifies(),
            r matches Err(e) ==> e == Error::InvalidGenesis,
            r matches Ok(id) ==> {
                &&& id.wf()
                &&& id.enabled
                &&& id.cards@ == seq![genesis]
                &&& id.evols@.len() == 0
                &&& id.db@.len() == 0
                &&& id.udi@ == commit_of(genesis.key@)
            },
    {
        if !genesis.is_genesis || !genesis.verify() {
            return Err(Error::InvalidGenesis);
        }
        let udi = commit(&genesis.key);
        let mut cards: Vec<Card> = Vec::new();
        cards.push(genesis);
        let id = Identity { udi, cards, evols: Vec::new(), db: Vec::new(), enabled: true };
        proof {
            assert(id.cards@ =~= seq![genesis]);
        }
        Ok(id)
    }

    /// Whether the identity accepts registry entries and cancels.
    pub fn is_enabled(&self) -> (r: bool)
        ensures
            r == self.enabled,
    {
        self.enabled
    }

    /// The current card.
    pub fn card(&self) -> (r: &Card)
        requires
            self.wf(),
        ensures
            *r == self.current(),
    {
        &self.cards[self.cards.len() - 1]
    }

    fn find_chain(&self, id: &str) -> (r: Option<usize>)
        requires
            self.wf(),
        ensures
            match r {
                Some(k) => self.has_chain(id@) && k == self.chain_index(id@),
                None => !self.has_chain(id@),
            },
    {
        let mut k: usize = 0;
        while k < self.db.len()
            invariant
                self.wf(),
                k <= self.db@.len(),
                forall|j: int| 0 <= j < k ==> #[trigger] self.db@[j].id@ != id@,
            decreases self.db.len() - k,
        {
            if crate::codec::str_equal(self.db[k].id.as_str(), id) {
                proof {
                    assert(self.db@[k as int].id@ == id@);
                    assert(self.has_chain(id@));
                    let c = self.chain_index(id@);
                    assert(self.db@[c].id@ == id@);
                    if c != k as int {
                        assert(self.db@[c].id@ != self.db@[k as int].id@);
                    }
                }
                return Some(k);
            }
            k = k + 1;
        }
        None
    }

    /// The registry chain of topic `id`, if there is one.
    pub fn registry(&self, id: &str) -> (r: Option<&Vec<Registry>>)
        requires
            self.wf(),
        ensures
            match r {
                Some(v) => self.has_chain(id@) && *v == self.db@[self.chain_index(id@)].entries,
                None => !self.has_chain(id@),
            },
    {
        match self.find_chain(id) {
            Some(k) => Some(&self.db[k].entries),
            None => None,
        }
    }

    /// The chain's tip, which the next event or first registry entry extends.
    pub fn prev(&self) -> (r: Result<&Signature, Error>)
        requires
            self.wf(),
        ensures
            r matches Ok(s) && s@ == self.tip(),
    {
        if self.enabled {
            Ok(&self.cards[self.cards.len() - 1].sig)
        } else {
            proof {
                assert(evolution_valid(self.cards@, self.evols@, self.evols@.len() - 1));
            }
            let e = &self.evols[self.evols.len() - 1];
            match &e.renew {
                Some(rn) => Ok(&rn.sig),
                None => match &e.cancel {
                    Some(c) => Ok(&c.sig),
                    None => Err(Error::InvalidRenewState),
                },
            }
        }
    }

    /// Disables the identity with a cancel signed by a group of the current
    /// card. A rejected cancel leaves the identity as it was.
    pub fn cancel(&mut self, ev: Cancel) -> (r: Result<(), Error>)
        requires
            old(self).wf(),
        ensures
            final(self).wf(),
            r == old(self).cancel_result(ev),
            r is Ok ==> {
                &&& !final(self).enabled
                &&& final(self).evols@ == old(self).evols@.push(
                    Evolve { cancel: Some(ev), renew: None },
                )
                &&& final(self).udi == old(self).udi
                &&& final(self).cards == old(self).cards
                &&& final(self).db == old(self).db
            },
            r is Err ==> *final(self) == *old(self),
    {
        let n = self.cards.len();
        if !self.enabled {
            return Err(Error::EvolveInProgress);
        }
        if !(self.cards[n - 1].sig == ev.prev) {
            return Err(Error::InvalidChain);
        }
        if !ev.verify() {
            return Err(Error::InvalidCancel);
        }
        let c = commit(&ev.key);
        match find_group(&self.cards[n - 1].groups, &c) {
            None => Err(Error::NoGroup),
            Some(j) => {
                if ev.is_close && self.cards[n - 1].groups[j].typ != TLType::MASTER {
                    return Err(Error::MasterRequired);
                }
                let ghost pre = *self;
                self.enabled = false;
                self.evols.push(Evolve { cancel: Some(ev), renew: None });
                proof {
                    assert forall|i: int| 0 <= i < self.evols@.len() implies #[trigger] evolution_valid(
                        self.cards@,
                        self.evols@,
                        i,
                    ) by {
                        if i < pre.evols@.len() {
                            assert(evolution_valid(pre.cards@, pre.evols@, i));
                        }
                    }
                }
                Ok(())
            },
        }
    }

    /// Appends a card whose key is the one the pending renew committed to,
    /// and enables the identity again. A rejected card leaves the identity as
    /// it was.
    pub fn evolve(&mut self, card: Card) -> (r: Result<(), Error>)
        requires
            old(self).wf(),
        ensures
            final(self).wf(),
            r == old(self).evolve_result(card),
            r is Ok ==> {
                &&& final(self).enabled
                &&& final(self).cards@ == old(self).cards@.push(card)
                &&& final(self).udi == old(self).udi
                &&& final(self).evols == old(self).evols
                &&& final(self).db == old(self).db
            },
            r is Err ==> *final(self) == *old(self),
    {
        if self.enabled {
            return Err(Error::EvolveEnabled);
        }
        if card.is_genesis {
            return Err(Error::EvolveToGenesis);
        }
        let m = self.evols.len();
        let rn = match &self.evols[m - 1].renew {
            None => {
                return Err(Error::MissingRenew);
            },
            Some(rn) => rn,
        };
        let c = commit(&card.key);
        if !(rn.commit == c) {
            return Err(Error::InvalidCardKey);
        }
        if !card.verify() {
            return Err(Error::InvalidCard);
        }
        let ghost pre = *self;
        self.enabled = true;
        self.cards.push(card);
        proof {
            assert forall|i: int| 0 <= i < self.evols@.len() implies #[trigger] evolution_valid(
                self.cards@,
                self.evols@,
                i,
            ) by {
                assert(evolution_valid(pre.cards@, pre.evols@, i));
            }
            assert forall|i: int| 0 <= i < self.cards@.len() implies (#[trigger] self.cards@[i]).verifies() by {
                if i < pre.cards@.len() {
                    assert(pre.cards@[i].verifies());
                }
            }
            assert forall|k: int| 0 <= k < self.db@.len() implies #[trigger] registry_chain_valid(
                self.cards@,
                self.db@[k],
            ) by {
                let es = self.db@[k].entries@;
                assert(registry_chain_valid(pre.cards@, pre.db@[k]));
                assert forall|m: int| 0 <= m < es.len() implies entry_valid(
                    self.cards@,
                    self.db@[k].id@,
                    es[0].typ@,
                    #[trigger] es[m],
                ) by {
                    assert(entry_valid(pre.cards@, pre.db@[k].id@, es[0].typ@, es[m]));
                }
            }
        }
        Ok(())
    }

    /// Commits to the next card's key. On an enabled identity the renew
    /// carries its signing key and stands as a cancel too; on a disabled one it
    /// follows the pending cancel and verifies under the cancel's key. A
    /// rejected renew leaves the identity as it was.
    pub fn renew(&mut self, ev: Renew) -> (r: Result<(), Error>)
        requires
            old(self).wf(),
        ensures
            final(self).wf(),
            r == old(self).renew_result(ev),
            r is Ok ==> {
                &&& !final(self).enabled
                &&& (if old(self).enabled {
                    final(self).evols@ == old(self).evols@.push(
                        Evolve { cancel: None, renew: Some(ev) },
                    )
                } else {
                    &&& final(self).evols@.len() == old(self).evols@.len()
                    &&& final(self).evols@.drop_last() == old(self).evols@.drop_last()
                    &&& final(self).evols@.last().cancel == old(self).evols@.last().cancel
                    &&& final(self).evols@.last().renew == Some(ev)
                })
                &&& final(self).udi == old(self).udi
                &&& final(self).cards == old(self).cards
                &&& final(self).db == old(self).db
            },
            r is Err ==> *final(self) == *old(self),
    {
        let n = self.cards.len();
        let ghost pre = *self;
        if self.enabled {
            if !(self.cards[n - 1].sig == ev.prev) {
                return Err(Error::InvalidChain);
            }
            let key = match &ev.key {
                None => {
                    return Err(Error::MissingRenewKey);
                },
                Some(k) => k.clone(),
            };
            if !ev.verify(&key) {
                return Err(Error::InvalidRenew);
            }
            let c = commit(&key);
            if find_group(&self.cards[n - 1].groups, &c).is_none() {
                return Err(Error::NoGroup);
            }
            self.enabled = false;
            self.evols.push(Evolve { cancel: None, renew: Some(ev) });
            proof {
                assert forall|i: int| 0 <= i < self.evols@.len() implies #[trigger] evolution_valid(
                    self.cards@,
                    self.evols@,
                    i,
                ) by {
                    if i < pre.evols@.len() {
                        assert(evolution_valid(pre.cards@, pre.evols@, i));
                    }
                }
            }
            Ok(())
        } else {
            let m = self.evols.len();
            proof {
                assert(evolution_valid(pre.cards@, pre.evols@, m - 1));
            }
            let e = &self.evols[m - 1];
            let cancel = match &e.cancel {
                None => {
                    return Err(Error::InvalidRenewState);
                },
                Some(c) => c,
            };
            if e.renew.is_some() {
                return Err(Error::InvalidRenewState);
            }
            if cancel.is_close {
                return Err(Error::ClosedPermanently);
            }
            if !(cancel.sig == ev.prev) {
                return Err(Error::InvalidChain);
            }
            if !ev.verify(&cancel.key) {
                return Err(Error::InvalidRenew);
            }
            let c = commit(&cancel.key);
            if find_group(&self.cards[n - 1].groups, &c).is_none() {
                return Err(Error::NoGroup);
            }
            let mut last = self.evols.pop().unwrap();
            last.renew = Some(ev);
            self.evols.push(last);
            proof {
                assert(self.evols@.drop_last() =~= pre.evols@.drop_last());
                assert forall|i: int| 0 <= i < self.evols@.len() implies #[trigger] evolution_valid(
                    self.cards@,
                    self.evols@,
                    i,
                ) by {
                    assert(evolution_valid(pre.cards@, pre.evols@, i));
                }
            }
            Ok(())
        }
    }

    /// Appends a registry entry signed by the current card's key, opening the
    /// chain of its topic at the identity's tip or extending that chain's last
    /// entry. A rejected entry leaves the identity as it was.
    pub fn save(&mut self, registry: Registry) -> (r: Result<(), Error>)
        requires
            old(self).wf(),
        ensures
            final(self).wf(),
            r == old(self).save_result(registry),
            r is Ok ==> {
                &&& final(self).enabled == old(self).enabled
                &&& final(self).udi == old(self).udi
                &&& final(self).cards == old(self).cards
                &&& final(self).evols == old(self).evols
                &&& (if old(self).has_chain(registry.id@) {
                    let k = old(self).chain_index(registry.id@);
                    &&& final(self).db@.len() == old(self).db@.len()
                    &&& final(self).db@[k].id == old(self).db@[k].id
                    &&& final(self).db@[k].entries@ == old(self).db@[k].entries@.push(registry)
                    &&& forall|j: int|
                        0 <= j < old(self).db@.len() && j != k ==> final(self).db@[j]
                            == old(self).db@[j]
                } else {
                    &&& final(self).db@.len() == old(self).db@.len() + 1
                    &&& final(self).db@.last().id == registry.id
                    &&& final(self).db@.last().entries@ == seq![registry]
                    &&& registry.prev@ == old(self).tip()
                    &&& forall|j: int|
                        0 <= j < old(self).db@.len() ==> final(self).db@[j] == old(self).db@[j]
                })
            },
            r is Err ==> *final(self) == *old(self),
    {
        let ghost pre = *self;
        if !self.enabled {
            return Err(Error::Disabled);
        }
        let n = self.cards.len();
        if n - 1 != registry.key_index {
            return Err(Error::InvalidKeyIndex);
        }
        if !registry.verify(&self.cards[n - 1].key) {
            return Err(Error::InvalidRegistry);
        }
        match self.find_chain(registry.id.as_str()) {
            None => {
                if !(self.cards[n - 1].sig == registry.prev) {
                    return Err(Error::InvalidChain);
                }
                let id = registry.id.clone();
                let mut entries: Vec<Registry> = Vec::new();
                entries.push(registry);
                self.db.push(RegistryChain { id, entries });
                proof {
                    let es = self.db@.last().entries@;
                    assert(es =~= seq![registry]);
                    assert(entry_valid(self.cards@, registry.id@, es[0].typ@, es[0]));
                    assert(registry_chain_valid(self.cards@, self.db@.last()));
                    assert forall|k: int| 0 <= k < self.db@.len() implies #[trigger] registry_chain_valid(
                        self.cards@,
                        self.db@[k],
                    ) by {
                        if k < pre.db@.len() {
                            assert(registry_chain_valid(pre.cards@, pre.db@[k]));
                        }
                    }
                    assert forall|k1: int, k2: int|
                        0 <= k1 < self.db@.len() && 0 <= k2 < self.db@.len() && k1 != k2 implies #[trigger] self.db@[k1].id@
                            != #[trigger] self.db@[k2].id@ by {
                        if k1 < pre.db@.len() && k2 < pre.db@.len() {
                            assert(pre.db@[k1].id@ != pre.db@[k2].id@);
                        } else if k1 < pre.db@.len() {
                            assert(pre.db@[k1].id@ != registry.id@);
                        } else {
                            assert(pre.db@[k2].id@ != registry.id@);
                        }
                    }
                }
                Ok(())
            },
            Some(k) => {
                let len = self.db[k].entries.len();
                proof {
                    assert(registry_chain_valid(pre.cards@, pre.db@[k as int]));
                }
                let last = &self.db[k].entries[len - 1];
                if !(last.sig == registry.prev) {
                    return Err(Error::InvalidChain);
                }
                if !(registry.typ == last.typ) {
                    return Err(Error::ChainTypeMismatch);
                }
                let mut chain = self.db.remove(k);
                chain.entries.push(registry);
                self.db.insert(k, chain);
                proof {
                    let old_es = pre.db@[k as int].entries@;
                    let es = self.db@[k as int].entries@;
                    assert(self.db@ =~= pre.db@.update(k as int, self.db@[k as int]));
                    assert(es =~= old_es.push(registry));
                    assert(entry_valid(pre.cards@, pre.db@[k as int].id@, old_es[0].typ@, old_es[len - 1]));
                    assert forall|m: int| 0 <= m < es.len() implies entry_valid(
                        self.cards@,
                        self.db@[k as int].id@,
                        es[0].typ@,
                        #[trigger] es[m],
                    ) by {
                        if m < old_es.len() {
                            assert(entry_valid(pre.cards@, pre.db@[k as int].id@, old_es[0].typ@, old_es[m]));
                        }
                    }
                    assert forall|m: int| 1 <= m < es.len() implies #[trigger] es[m].prev@ == es[m - 1].sig@ by {
                        if m < old_es.len() {
                            assert(old_es[m].prev@ == old_es[m - 1].sig@);
                        }
                    }
                    assert forall|j: int| 0 <= j < self.db@.len() implies #[trigger] registry_chain_valid(
                        self.cards@,
                        self.db@[j],
                    ) by {
                        if j != k as int {
                            assert(registry_chain_valid(pre.cards@, pre.db@[j]));
                        }
                    }
                    assert forall|k1: int, k2: int|
                        0 <= k1 < self.db@.len() && 0 <= k2 < self.db@.len() && k1 != k2 implies #[trigger] self.db@[k1].id@
                            != #[trigger] self.db@[k2].id@ by {
                        assert(pre.db@[k1].id@ != pre.db@[k2].id@);
                    }
                }
                Ok(())
            },
        }
    }
}

/// The key under which the renew of an evolution verifies: the cancel's key
/// when the renew follows a cancel, else the key the renew carries.
pub open spec fn renew_signer(e: Evolve) -> Seq<u8> {
    match e.cancel {
        Some(c) => c.key@,
        None => match e.renew {
            Some(rn) => match rn.key {
                Some(k) => k@,
                None => Seq::empty(),
            },
            None => Seq::empty(),
        },
    }
}

/// The first card of an identity is a genesis card, no later card is, and
/// the identifier is the commitment of the first card's key.
pub proof fn lemma_genesis_immutable(id: Identity)
    requires
        id.wf(),
    ensures
        id.cards@[0].is_genesis,
        forall|i: int| 0 < i < id.cards@.len() ==> !(#[trigger] id.cards@[i]).is_genesis,
        id.udi@ == commit_of(id.cards@[0].key@),
{
}

/// A cancel or renew that an identity accepts extends the identity's tip.
pub proof fn lemma_accepted_events_extend_tip(id: Identity, c: Cancel, rn: Renew)
    requires
        id.wf(),
    ensures
        id.cancel_result(c) is Ok ==> c.prev@ == id.tip(),
        id.renew_result(rn) is Ok ==> rn.prev@ == id.tip(),
{
}

/// A card that an identity accepts carries the key its pending renew
/// committed to, and the renew extends the identity's tip.
pub proof fn lemma_accepted_card_is_committed(id: Identity, card: Card)
    requires
        id.wf(),
        id.evolve_result(card) is Ok,
    ensures
        id.evols@.last().renew matches Some(rn) && rn.commit@ == commit_of(card.key@)
            && rn.sig@ == id.tip(),
{
}

/// Each registry entry extends the entry before it in its chain, and an entry
/// that opens a chain extends the identity's tip at the time it is saved.
pub proof fn lemma_registry_linkage(id: Identity, r: Registry)
    requires
        id.wf(),
    ensures
        forall|k: int, m: int|
            0 <= k < id.db@.len() && 1 <= m < id.db@[k].entries@.len() ==> (#[trigger] id.db@[k].entries@[m]).prev@
                == id.db@[k].entries@[m - 1].sig@,
        id.save_result(r) is Ok && !id.has_chain(r.id@) ==> r.prev@ == id.tip(),
{
    assert forall|k: int, m: int|
        0 <= k < id.db@.len() && 1 <= m < id.db@[k].entries@.len() implies (#[trigger] id.db@[k].entries@[m]).prev@
            == id.db@[k].entries@[m - 1].sig@ by {
        assert(registry_chain_valid(id.cards@, id.db@[k]));
    }
}

/// Every card, cancel, renew and registry entry an identity holds verifies
/// under the key that signed it.
pub proof fn lemma_signatures_cover(id: Identity)
    requires
        id.wf(),
    ensures
        forall|i: int| 0 <= i < id.cards@.len() ==> (#[trigger] id.cards@[i]).verifies(),
        forall|i: int|
            0 <= i < id.evols@.len() ==> ((#[trigger] id.evols@[i]).cancel matches Some(c)
                ==> c.verifies()),
        forall|i: int|
            0 <= i < id.evols@.len() ==> ((#[trigger] id.evols@[i]).renew matches Some(rn)
                ==> rn.verifies_under(renew_signer(id.evols@[i]))),
        forall|k: int, m: int|
            0 <= k < id.db@.len() && 0 <= m < id.db@[k].entries@.len() ==> {
                let e = #[trigger] id.db@[k].entries@[m];
                e.key_index < id.cards@.len() && e.verifies_under(id.cards@[e.key_index as int].key@)
            },
{
    assert forall|i: int| 0 <= i < id.evols@.len() implies ((#[trigger] id.evols@[i]).renew matches Some(
        rn,
    ) ==> rn.verifies_under(renew_signer(id.evols@[i]))) by {
        assert(evolution_valid(id.cards@, id.evols@, i));
    }
    assert forall|i: int| 0 <= i < id.evols@.len() implies ((#[trigger] id.evols@[i]).cancel matches Some(
        c,
    ) ==> c.verifies()) by {
        assert(evolution_valid(id.cards@, id.evols@, i));
    }
    assert forall|k: int, m: int|
        0 <= k < id.db@.len() && 0 <= m < id.db@[k].entries@.len() implies {
            let e = #[trigger] id.db@[k].entries@[m];
            e.key_index < id.cards@.len() && e.verifies_under(id.cards@[e.key_index as int].key@)
        } by {
        assert(registry_chain_valid(id.cards@, id.db@[k]));
        let es = id.db@[k].entries@;
        assert(entry_valid(id.cards@, id.db@[k].id@, es[0].typ@, es[m]));
    }
}

/// Every cancel and renew an identity holds was signed by a key whose commit
/// names a group of the card it followed; a closing cancel's group is a master
/// group.
pub proof fn lemma_authority(id: Identity)
    requires
        id.wf(),
    ensures
        forall|i: int|
            0 <= i < id.evols@.len() ==> ((#[trigger] id.evols@[i]).cancel matches Some(c) ==> {
                let g = group_map(id.cards@[i].groups@);
                &&& g.contains_key(commit_of(c.key@))
                &&& (c.is_close ==> g[commit_of(c.key@)].typ == TLType::MASTER)
            }),
        forall|i: int|
            0 <= i < id.evols@.len() ==> ((#[trigger] id.evols@[i]).renew is Some ==> group_map(
                id.cards@[i].groups@,
            ).contains_key(commit_of(renew_signer(id.evols@[i])))),
{
    assert forall|i: int| 0 <= i < id.evols@.len() implies ((#[trigger] id.evols@[i]).renew is Some
        ==> group_map(id.cards@[i].groups@).contains_key(commit_of(renew_signer(id.evols@[i])))) by {
        assert(evolution_valid(id.cards@, id.evols@, i));
    }
    assert forall|i: int| 0 <= i < id.evols@.len() implies ((#[trigger] id.evols@[i]).cancel matches Some(
        c,
    ) ==> {
        let g = group_map(id.cards@[i].groups@);
        &&& g.contains_key(commit_of(c.key@))
        &&& (c.is_close ==> g[commit_of(c.key@)].typ == TLType::MASTER)
    }) by {
        assert(evolution_valid(id.cards@, id.evols@, i));
    }
}

/// All entries of a registry chain share one type.
pub proof fn lemma_registry_types(id: Identity)
    requires
        id.wf(),
    ensures
        forall|k: int, m: int|
            0 <= k < id.db@.len() && 0 <= m < id.db@[k].entries@.len() ==> (#[trigger] id.db@[k].entries@[m]).typ@
                == id.db@[k].entries@[0].typ@,
{
    assert forall|k: int, m: int|
        0 <= k < id.db@.len() && 0 <= m < id.db@[k].entries@.len() implies (#[trigger] id.db@[k].entries@[m]).typ@
            == id.db@[k].entries@[0].typ@ by {
        assert(registry_chain_valid(id.cards@, id.db@[k]));
        let es = id.db@[k].entries@;
        assert(entry_valid(id.cards@, id.db@[k].id@, es[0].typ@, es[m]));
    }
}

} // verus!
