use sigchain::anchor::{Anchor, DOMAIN, TYPE};
use sigchain::codec::{push_bool, push_bytes, push_str, push_u64};
use sigchain::crypto::Keypair;
use sigchain::error::Error;
use sigchain::identity::{Card, Identity, OType, Registry, TLGroup, TLType};

fn keypair() -> Keypair {
    let secret: [u8; 32] = rand::random();
    Keypair::from_secret(&secret).unwrap()
}

fn create() -> (Identity, Keypair) {
    // create master group
    let m_keypair = keypair();
    let master = TLGroup::new(TLType::MASTER, m_keypair.public());

    // create genesis card and identity
    let id_keypair = keypair();
    let genesis = Card::new(true, &id_keypair, b"No important info!", &vec![master.clone()]);
    let identity = Identity::new(genesis).unwrap();

    (identity, id_keypair)
}

#[test]
fn create_anchor() {
    let (mut identity, id_keypair) = create();

    // write anchor
    let profile_keypair = keypair();
    let anchor1 = Anchor::new(&profile_keypair, &identity.udi, "some-random", 0);
    let anchor_reg = Registry::new(&id_keypair, "raiap.io/test", "anchor", OType::SET, &anchor1.to_bytes(), identity.prev().unwrap(), 0);
    identity.save(anchor_reg).unwrap();

    // read anchor
    let anchor_reg_vec = identity.registry("raiap.io/test").unwrap();
    let anchor_reg = anchor_reg_vec.last().unwrap();
    let anchor2 = Anchor::from_bytes(&anchor_reg.info).unwrap();

    assert!(anchor1 == anchor2);
}

#[test]
fn anchor_bytes_match_bincode_layout() {
    let k = keypair();
    let a = Anchor::new(&k, "udi", "salt", 42);
    let expected = bincode::serialize(&(a.r.clone(), 42u64, a.al.clone())).unwrap();
    assert_eq!(a.to_bytes(), expected);
    let mut longer = expected.clone();
    longer.extend_from_slice(b"tail");
    assert!(Anchor::from_bytes(&longer).unwrap() == a);
}

#[test]
fn anchor_decode_errors() {
    assert!(matches!(Anchor::from_bytes(&[1, 2, 3]), Err(Error::Decode)));
    assert_eq!(Error::Decode.message(), "Unable to deserialize anchor!");
    let k = keypair();
    let bytes = Anchor::new(&k, "udi", "salt", 1).to_bytes();
    assert!(Anchor::from_bytes(&bytes[..bytes.len() - 1]).is_err());
    let mut bad = bytes.clone();
    bad[8] = 0xff;
    assert!(matches!(Anchor::from_bytes(&bad), Err(Error::Decode)));
}

#[test]
fn reserved_anchor_topic() {
    assert_eq!(DOMAIN, "raiap.io");
    assert_eq!(TYPE, "anchor");
}

#[test]
fn payload_fields_match_bincode() {
    let mut out = Vec::new();
    push_bool(&mut out, true);
    push_str(&mut out, "héllo");
    push_bytes(&mut out, &[9, 8, 7]);
    push_u64(&mut out, 513);
    let mut expected = bincode::serialize(&true).unwrap();
    expected.extend(bincode::serialize("héllo").unwrap());
    expected.extend(bincode::serialize(&vec![9u8, 8, 7]).unwrap());
    expected.extend(bincode::serialize(&513u64).unwrap());
    assert_eq!(out, expected);
}
