use sigchain::crypto::Keypair;
use sigchain::error::Error;
use sigchain::identity::{
    Cancel, Card, Identity, OType, Registry, Renew, TLGroup, TLType,
};

fn keypair() -> Keypair {
    let secret: [u8; 32] = rand::random();
    Keypair::from_secret(&secret).unwrap()
}

fn create() -> (Identity, TLGroup, Keypair, Keypair) {
    // create master group
    let m_keypair = keypair();
    let master = TLGroup::new(TLType::MASTER, m_keypair.public());

    // create genesis card and identity
    let id_keypair = keypair();
    let genesis = Card::new(true, &id_keypair, b"No important info!", &vec![master.clone()]);
    let identity = Identity::new(genesis).unwrap();

    (identity, master, m_keypair, id_keypair)
}

fn msg<T>(r: Result<T, Error>) -> Result<T, &'static str> {
    r.map_err(|e| e.message())
}

#[test]
fn create_and_evolve() {
    let (mut identity, master, m_keypair, _) = create();
    assert!(identity.is_enabled());

    // cancel identity with the master group
    let cancel = Cancel::new(false, &m_keypair, identity.prev().unwrap());
    identity.cancel(cancel).unwrap();
    assert!(!identity.is_enabled());

    // renew identity with the master group
    let id_keypair2 = keypair();
    let renew = Renew::new(&m_keypair, id_keypair2.public(), identity.prev().unwrap(), false);
    identity.renew(renew).unwrap();
    assert!(!identity.is_enabled());

    // evolve identity to the new card (commited in the renew)
    let card2 = Card::new(false, &id_keypair2, b"No info!", &vec![master.clone()]);
    identity.evolve(card2).unwrap();
    assert!(identity.is_enabled());
    assert_eq!(identity.cards.len(), 2);
    assert_eq!(identity.evols.len(), 1);
}

#[test]
fn direct_renew() {
    let (mut identity, master, m_keypair, _) = create();

    // renew performs an implicit cancel
    let id_keypair2 = keypair();
    let renew = Renew::new(&m_keypair, id_keypair2.public(), identity.prev().unwrap(), true);
    identity.renew(renew).unwrap();

    // evolve identity to the new card (commited in the renew)
    let card2 = Card::new(false, &id_keypair2, b"No info!", &vec![master.clone()]);
    identity.evolve(card2).unwrap();
    assert!(identity.is_enabled());
    assert!(identity.evols.last().unwrap().cancel.is_none());
}

#[test]
fn closed_permanently() {
    let (mut identity, _, m_keypair, _) = create();

    // close identity permanently
    let cancel = Cancel::new(true, &m_keypair, identity.prev().unwrap());
    identity.cancel(cancel).unwrap();

    // renew must fail
    let id_keypair2 = keypair();
    let renew = Renew::new(&m_keypair, id_keypair2.public(), identity.prev().unwrap(), false);
    assert!(msg(identity.renew(renew)) == Err("Identity closed permanently!"));
}

#[test]
fn fail_on_wrong_key() {
    let (mut identity, master, m_keypair, _) = create();

    // renew performs an implicit cancel
    let id_keypair2 = keypair();
    let renew = Renew::new(&m_keypair, id_keypair2.public(), identity.prev().unwrap(), true);
    identity.renew(renew).unwrap();

    // fail when evolving the identity to a wrong card (different key from the one in renew/commit)
    let id_keypair3 = keypair();
    let card2 = Card::new(false, &id_keypair3, b"No info!", &vec![master.clone()]);
    assert!(msg(identity.evolve(card2)) == Err("The card key is not valid!"));
}

#[test]
fn fail_when_disabled() {
    let (mut identity, master, m_keypair, _) = create();

    // cancel identity with the master group
    let cancel = Cancel::new(false, &m_keypair, identity.prev().unwrap());
    identity.cancel(cancel).unwrap();

    // fail when identity is disabled
    let id_keypair2 = keypair();
    let card2 = Card::new(false, &id_keypair2, b"No info!", &vec![master.clone()]);
    assert!(msg(identity.evolve(card2)) == Err("A renew must exist to evolve!"));
}

#[test]
fn invalid_chain() {
    let (mut identity, _, m_keypair, _) = create();

    let previous_card = identity.prev().unwrap().clone();

    // cancel identity with the master group
    let cancel = Cancel::new(false, &m_keypair, &previous_card);
    identity.cancel(cancel).unwrap();

    // fail when renewing with an invalid chain (pointing to the previous card instead of cancel)
    let id_keypair2 = keypair();
    let renew = Renew::new(&m_keypair, id_keypair2.public(), &previous_card, false);
    assert!(msg(identity.renew(renew)) == Err("Invalid chain!"));
}

#[test]
fn signature_failed() {
    let (mut identity, _, m_keypair, _) = create();

    // cancel identity with the master group
    let mut cancel1 = Cancel::new(true, &m_keypair, identity.prev().unwrap());
    let cancel2 = Cancel::new(false, &m_keypair, identity.prev().unwrap());
    cancel1.sig = cancel2.sig;
    assert!(msg(identity.cancel(cancel1)) == Err("Invalid cancel!"));
}

#[test]
fn no_group_found() {
    let (mut identity, _, _, _) = create();

    // cancel identity with a non existing group
    let m_keypair = keypair();
    let cancel = Cancel::new(false, &m_keypair, identity.prev().unwrap());
    assert!(msg(identity.cancel(cancel)) == Err("No group found to evolve!"))
}

#[test]
fn insert_registry() {
    let (mut identity, _, _, id_keypair) = create();

    let reg1 = Registry::new(&id_keypair, "idp.io", "test", OType::SET, b"Not important!", identity.prev().unwrap(), 0);
    assert!(msg(identity.save(reg1.clone())) == Ok(()));

    let reg2 = Registry::new(&id_keypair, "idp.io", "test", OType::SET, b"More info!", &reg1.sig, 0);
    assert!(msg(identity.save(reg2)) == Ok(()));
}

#[test]
fn insert_registry_invalid_chain() {
    let (mut identity, _, _, id_keypair) = create();

    let reg1 = Registry::new(&id_keypair, "idp.io", "test", OType::SET, b"Not important!", identity.prev().unwrap(), 0);
    assert!(msg(identity.save(reg1)) == Ok(()));

    let reg2 = Registry::new(&id_keypair, "idp.io", "test", OType::SET, b"More info!", identity.prev().unwrap(), 0);
    assert!(msg(identity.save(reg2)) == Err("Invalid chain!"));
}

#[test]
fn insert_registry_invalid_key_index() {
    let (mut identity, _, _, id_keypair) = create();

    let reg = Registry::new(&id_keypair, "idp.io", "test", OType::SET, b"Not important!", identity.prev().unwrap(), 1);
    assert!(msg(identity.save(reg)) == Err("Invalid key index!"));
}

#[test]
fn genesis_must_be_marked_and_valid() {
    let kp = keypair();
    let card = Card::new(false, &kp, b"x", &[]);
    assert!(matches!(Identity::new(card), Err(Error::InvalidGenesis)));

    let mut card = Card::new(true, &kp, b"x", &[]);
    card.info = b"y".to_vec();
    assert!(matches!(Identity::new(card), Err(Error::InvalidGenesis)));
}

#[test]
fn udi_is_commit_of_genesis_key() {
    let (identity, _, _, id_keypair) = create();
    let expected = base64::encode(<sha2::Sha256 as sha2::Digest>::digest(&id_keypair.public().bytes));
    assert_eq!(identity.udi, expected);
    assert_eq!(sigchain::crypto::commit(id_keypair.public()), expected);
    assert_eq!(identity.udi.len(), 44);
    assert!(identity.cards[0].is_genesis);
}

#[test]
fn udi_stays_after_evolution() {
    let (mut identity, master, m_keypair, _) = create();
    let udi = identity.udi.clone();
    let next = keypair();
    let renew = Renew::new(&m_keypair, next.public(), identity.prev().unwrap(), true);
    identity.renew(renew).unwrap();
    identity.evolve(Card::new(false, &next, b"n", &[master])).unwrap();
    assert_eq!(identity.udi, udi);
    assert!(!identity.cards[1].is_genesis);
}

#[test]
fn evolve_to_genesis_card_fails() {
    let (mut identity, master, m_keypair, _) = create();
    let next = keypair();
    let renew = Renew::new(&m_keypair, next.public(), identity.prev().unwrap(), true);
    identity.renew(renew).unwrap();
    let card = Card::new(true, &next, b"n", &[master]);
    assert!(msg(identity.evolve(card)) == Err("Cannot evolve to a genesis card!"));
}

#[test]
fn evolve_enabled_fails() {
    let (mut identity, master, _, _) = create();
    let card = Card::new(false, &keypair(), b"n", &[master]);
    assert!(msg(identity.evolve(card)) == Err("Cannot evolve an enabled identity!"));
}

#[test]
fn evolve_with_bad_card_signature_fails() {
    let (mut identity, master, m_keypair, _) = create();
    let next = keypair();
    let renew = Renew::new(&m_keypair, next.public(), identity.prev().unwrap(), true);
    identity.renew(renew).unwrap();
    let mut card = Card::new(false, &next, b"n", &[master]);
    card.info = b"m".to_vec();
    assert!(matches!(identity.evolve(card), Err(Error::InvalidCard)));
}

#[test]
fn cancel_on_disabled_fails() {
    let (mut identity, _, m_keypair, _) = create();
    let cancel = Cancel::new(false, &m_keypair, identity.prev().unwrap());
    identity.cancel(cancel).unwrap();
    let cancel = Cancel::new(false, &m_keypair, identity.prev().unwrap());
    assert!(matches!(identity.cancel(cancel), Err(Error::EvolveInProgress)));
}

#[test]
fn cancel_with_wrong_prev_fails() {
    let (mut identity, _, m_keypair, _) = create();
    let other = Cancel::new(false, &m_keypair, identity.prev().unwrap());
    let cancel = Cancel::new(false, &m_keypair, &other.sig);
    assert!(matches!(identity.cancel(cancel), Err(Error::InvalidChain)));
}

#[test]
fn slave_cannot_close() {
    let m_keypair = keypair();
    let s_keypair = keypair();
    let groups = vec![
        TLGroup::new(TLType::MASTER, m_keypair.public()),
        TLGroup::new(TLType::SLAVE, s_keypair.public()),
    ];
    let mut identity = Identity::new(Card::new(true, &keypair(), b"g", &groups)).unwrap();
    let cancel = Cancel::new(true, &s_keypair, identity.prev().unwrap());
    assert!(msg(identity.cancel(cancel)) == Err("Only master groups can close permanently!"));
    assert!(identity.is_enabled());

    // a slave may still disable without closing
    let cancel = Cancel::new(false, &s_keypair, identity.prev().unwrap());
    identity.cancel(cancel).unwrap();
    assert!(!identity.is_enabled());
}

#[test]
fn renew_without_key_on_enabled_fails() {
    let (mut identity, _, m_keypair, _) = create();
    let renew = Renew::new(&m_keypair, keypair().public(), identity.prev().unwrap(), false);
    assert!(msg(identity.renew(renew)) == Err("Renew(cancel) must have a key!"));
}

#[test]
fn renew_twice_fails() {
    let (mut identity, _, m_keypair, _) = create();
    let cancel = Cancel::new(false, &m_keypair, identity.prev().unwrap());
    identity.cancel(cancel).unwrap();
    let renew = Renew::new(&m_keypair, keypair().public(), identity.prev().unwrap(), false);
    identity.renew(renew).unwrap();
    let renew = Renew::new(&m_keypair, keypair().public(), identity.prev().unwrap(), false);
    assert!(msg(identity.renew(renew)) == Err("Identity in invalid state to perform a renew!"));
}

#[test]
fn renew_with_bad_signature_fails() {
    let (mut identity, _, m_keypair, _) = create();
    let mut renew = Renew::new(&m_keypair, keypair().public(), identity.prev().unwrap(), true);
    renew.commit = "other".to_string();
    assert!(matches!(identity.renew(renew), Err(Error::InvalidRenew)));
}

#[test]
fn renew_by_unknown_key_fails() {
    let (mut identity, _, _, _) = create();
    let stranger = keypair();
    let renew = Renew::new(&stranger, keypair().public(), identity.prev().unwrap(), true);
    assert!(matches!(identity.renew(renew), Err(Error::NoGroup)));
}

#[test]
fn renew_keeps_cancel_and_tip_moves() {
    let (mut identity, _, m_keypair, _) = create();
    let cancel = Cancel::new(false, &m_keypair, identity.prev().unwrap());
    let cancel_sig = cancel.sig.clone();
    identity.cancel(cancel).unwrap();
    assert!(*identity.prev().unwrap() == cancel_sig);
    let renew = Renew::new(&m_keypair, keypair().public(), identity.prev().unwrap(), false);
    let renew_sig = renew.sig.clone();
    identity.renew(renew).unwrap();
    assert_eq!(identity.evols.len(), 1);
    assert!(identity.evols[0].cancel.is_some());
    assert!(*identity.prev().unwrap() == renew_sig);
}

#[test]
fn rejected_calls_leave_identity_unchanged() {
    let (mut identity, master, m_keypair, id_keypair) = create();
    let tip = identity.prev().unwrap().clone();

    let stranger = keypair();
    assert!(identity.cancel(Cancel::new(false, &stranger, &tip)).is_err());
    assert!(identity.renew(Renew::new(&stranger, stranger.public(), &tip, true)).is_err());
    assert!(identity.evolve(Card::new(false, &stranger, b"x", &[master])).is_err());
    let reg = Registry::new(&m_keypair, "t", "x", OType::DEL, b"", &tip, 0);
    assert!(identity.save(reg).is_err());

    assert!(identity.is_enabled());
    assert_eq!(identity.cards.len(), 1);
    assert_eq!(identity.evols.len(), 0);
    assert!(identity.registry("t").is_none());
    assert!(*identity.prev().unwrap() == tip);
    let _ = id_keypair;
}

#[test]
fn registry_type_is_stable() {
    let (mut identity, _, _, id_keypair) = create();
    let reg1 = Registry::new(&id_keypair, "idp.io", "test", OType::SET, b"a", identity.prev().unwrap(), 0);
    identity.save(reg1.clone()).unwrap();
    let reg2 = Registry::new(&id_keypair, "idp.io", "other", OType::SET, b"b", &reg1.sig, 0);
    assert!(msg(identity.save(reg2)) == Err("Invalid chain (dif type)!"));
    let reg3 = Registry::new(&id_keypair, "idp.io", "test", OType::DEL, b"", &reg1.sig, 0);
    identity.save(reg3).unwrap();
    let chain = identity.registry("idp.io").unwrap();
    assert_eq!(chain.len(), 2);
    assert!(chain[1].prev == chain[0].sig);
    assert!(chain.iter().all(|r| r.typ == "test"));
}

#[test]
fn registry_rejects_bad_signature_and_disabled() {
    let (mut identity, _, m_keypair, id_keypair) = create();
    let reg = Registry::new(&m_keypair, "idp.io", "test", OType::SET, b"a", identity.prev().unwrap(), 0);
    assert!(msg(identity.save(reg)) == Err("Invalid registry!"));

    let cancel = Cancel::new(false, &m_keypair, identity.prev().unwrap());
    identity.cancel(cancel).unwrap();
    let reg = Registry::new(&id_keypair, "idp.io", "test", OType::SET, b"a", identity.prev().unwrap(), 0);
    assert!(msg(identity.save(reg)) == Err("Identity is disabled!"));
}

#[test]
fn registries_of_several_topics() {
    let (mut identity, _, _, id_keypair) = create();
    let tip = identity.prev().unwrap().clone();
    let a = Registry::new(&id_keypair, "a", "t", OType::SET, b"1", &tip, 0);
    let b = Registry::new(&id_keypair, "b", "u", OType::SET, b"2", &tip, 0);
    identity.save(a).unwrap();
    identity.save(b).unwrap();
    assert_eq!(identity.registry("a").unwrap().len(), 1);
    assert_eq!(identity.registry("b").unwrap()[0].typ, "u");
    assert!(identity.registry("c").is_none());
}

#[test]
fn registry_after_evolution_uses_new_card() {
    let (mut identity, master, m_keypair, id_keypair) = create();
    let next = keypair();
    let renew = Renew::new(&m_keypair, next.public(), identity.prev().unwrap(), true);
    identity.renew(renew).unwrap();
    identity.evolve(Card::new(false, &next, b"n", &[master])).unwrap();

    let old_key = Registry::new(&id_keypair, "r", "t", OType::SET, b"", identity.prev().unwrap(), 1);
    assert!(matches!(identity.save(old_key), Err(Error::InvalidRegistry)));
    let reg = Registry::new(&next, "r", "t", OType::SET, b"", identity.prev().unwrap(), 1);
    identity.save(reg).unwrap();
    assert_eq!(identity.card().info, b"n".to_vec());
}

#[test]
fn card_groups_are_indexed_by_commit() {
    let kp = keypair();
    let g = keypair();
    let groups = vec![
        TLGroup::new(TLType::SLAVE, g.public()),
        TLGroup::new(TLType::MASTER, g.public()),
    ];
    let card = Card::new(true, &kp, b"", &groups);
    assert_eq!(card.groups.len(), 1);
    assert!(card.groups[0].typ == TLType::MASTER);
    assert!(card.verify());
}

#[test]
fn keypair_needs_32_bytes() {
    assert!(Keypair::from_secret(&[0u8; 31]).is_none());
    assert!(Keypair::from_secret(&[7u8; 32]).is_some());
}

#[test]
fn signatures_are_deterministic_and_checked() {
    let kp = Keypair::from_secret(&[7u8; 32]).unwrap();
    let a = kp.sign(b"message");
    let b = kp.sign(b"message");
    assert!(a == b);
    assert_eq!(a.bytes.len(), 64);
    assert!(sigchain::crypto::verify_signature(kp.public(), b"message", &a));
    assert!(!sigchain::crypto::verify_signature(kp.public(), b"messagf", &a));
    let dalek = ed25519_dalek::SecretKey::from_bytes(&[7u8; 32]).unwrap();
    let public = ed25519_dalek::PublicKey::from(&dalek);
    assert_eq!(kp.public().bytes, public.to_bytes().to_vec());
}
