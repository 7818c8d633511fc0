use sigchain::anchor::{al, Anchor};
use sigchain::crypto::Keypair;
use sigchain::error::Error;
use sigchain::identity::{OType, Renew, TLGroup, TLType};
use sigchain::stream::{Chain, ExtRenew, Record, Stream, StreamBlock};

fn keypair() -> Keypair {
    let secret: [u8; 32] = rand::random();
    Keypair::from_secret(&secret).unwrap()
}

#[test]
fn create_and_check_stream() {
    // anchor
    let udi = "udi-random";
    let r = "r-random";
    let profile_keypair = keypair();
    let anchor = Anchor::new(&profile_keypair, udi, r, 0);

    // create stream
    let genesis = Record { oper: OType::SET, info: b"Not important!".to_vec() };
    let mut stream = Stream::new(&profile_keypair, udi, r, &vec![], genesis, None);

    // add block to stream
    let record = Record { oper: OType::SET, info: b"New info!".to_vec() };
    let block = StreamBlock::new(&profile_keypair, record, &stream.sig);
    stream.save(block).unwrap();

    // check if the stream is valid with the public key (verify all signatures)
    stream.verify_stream(profile_keypair.public()).unwrap();

    // check if ASI is connected to the anchor AL ?
    let al_sig = anchor.al_signature(&profile_keypair, udi);
    assert!(stream.check_asi(udi, r, profile_keypair.public(), &al_sig));
}

#[test]
fn create_and_check_chain() {
    let udi = "udi-random";

    let keypair1 = keypair();
    let keypair2 = keypair();

    // anchor-1 and anchor-2
    let r1 = "r1-random";
    let r2 = "r2-random";

    // master group for stream
    let m_keypair = keypair();
    let master = TLGroup::new(TLType::MASTER, m_keypair.public());

    // stream-1
    let genesis = Record { oper: OType::SET, info: b"Not important!".to_vec() };
    let mut stream1 = Stream::new(&keypair1, udi, r1, &vec![master], genesis, None);

    // add block to stream
    let record = Record { oper: OType::SET, info: b"New info!".to_vec() };
    let block = StreamBlock::new(&keypair1, record, &stream1.sig);
    stream1.save(block).unwrap();

    // stream-2
    let ext_renew = ExtRenew {
        renew: Renew::new(&m_keypair, keypair2.public(), stream1.prev(), true),
        key: keypair1.public().clone(),
    };

    let genesis = Record { oper: OType::SET, info: b"Not important!".to_vec() };
    let stream2 = Stream::new(&keypair2, udi, r2, &vec![], genesis, Some(ext_renew));

    // create and check chain
    let mut chain = Chain::new(stream1);
    chain.save(stream2).unwrap();

    // check chain (verify all signatures, master groups and renew blocks)
    chain.check(keypair2.public()).unwrap();
}

fn two_streams() -> (Stream, Keypair, Keypair, Keypair) {
    let k1 = keypair();
    let m = keypair();
    let mut s1 = Stream::new(&k1, "u", "r1", &[TLGroup::new(TLType::MASTER, m.public())], Record::new(OType::SET, b"g"), None);
    let b = StreamBlock::new(&k1, Record::new(OType::DEL, b"b"), &s1.sig);
    s1.save(b).unwrap();
    let k2 = keypair();
    (s1, k1, k2, m)
}

fn follower(s1: &Stream, k1: &Keypair, k2: &Keypair, m: &Keypair, inc_key: bool) -> Stream {
    let ext = ExtRenew { renew: Renew::new(m, k2.public(), s1.prev(), inc_key), key: k1.public().clone() };
    Stream::new(k2, "u", "r2", &[], Record::new(OType::SET, b"g2"), Some(ext))
}

#[test]
fn stream_save_rejects_wrong_prev() {
    let (mut s1, k1, _, _) = two_streams();
    let before = s1.blocks.len();
    let b = StreamBlock::new(&k1, Record::new(OType::SET, b"x"), &s1.sig);
    assert!(matches!(s1.save(b), Err(Error::InvalidStreamChain)));
    assert_eq!(s1.blocks.len(), before);
    assert_eq!(Error::InvalidStreamChain.message(), "Invalid stream chain!");
}

#[test]
fn stream_verification_errors() {
    let (mut s1, k1, k2, _) = two_streams();
    assert!(matches!(s1.verify_stream(k2.public()), Err(Error::InvalidGenesisSignature)));
    assert!(s1.verify(k1.public()));
    s1.blocks[0].record.info = b"tampered".to_vec();
    assert!(matches!(s1.verify_stream(k1.public()), Err(Error::InvalidBlockSignature)));
}

#[test]
fn check_asi_rejects_other_salt_or_key() {
    let k = keypair();
    let anchor = Anchor::new(&k, "udi", "salt", 3);
    let s = Stream::new(&k, "udi", "salt", &[], Record::new(OType::SET, b""), None);
    let sig = anchor.al_signature(&k, "udi");
    assert!(s.check_asi("udi", "salt", k.public(), &sig));
    assert_eq!(al(&sig), anchor.al);
    assert!(!s.check_asi("udi", "other", k.public(), &sig));
    let other = keypair();
    assert!(!s.check_asi("udi", "salt", other.public(), &sig));
}

#[test]
fn anchor_and_stream_are_bound() {
    let k = keypair();
    for (udi, r) in [("a", "b"), ("udi-x", ""), ("", "salt")] {
        let anchor = Anchor::new(&k, udi, r, 9);
        let s = Stream::new(&k, udi, r, &[], Record::new(OType::DEL, b"z"), None);
        let sig = anchor.al_signature(&k, udi);
        assert!(s.check_asi(udi, r, k.public(), &sig));
        let digest = <sha2::Sha256 as sha2::Digest>::digest(&sig.bytes);
        assert_eq!(base64::encode(digest), anchor.al);
    }
}

#[test]
fn asi_hashes_key_then_signature() {
    let k = keypair();
    let sig = k.sign(b"x");
    let mut data = k.public().bytes.clone();
    data.extend_from_slice(&sig.bytes);
    let expected = base64::encode(<sha2::Sha256 as sha2::Digest>::digest(&data));
    assert_eq!(sigchain::anchor::asi(k.public(), &sig), expected);
}

#[test]
fn chain_save_errors() {
    let (s1, k1, k2, m) = two_streams();
    let mut chain = Chain::new(s1.clone());

    let plain = Stream::new(&k2, "u", "r2", &[], Record::new(OType::SET, b""), None);
    assert!(matches!(chain.save(plain), Err(Error::MissingStreamRenew)));

    let no_master = follower(&s1, &k1, &k2, &m, false);
    assert!(matches!(chain.save(no_master), Err(Error::MissingMasterKey)));

    let wrong_prev_key = follower(&s1, &k2, &k2, &m, true);
    assert!(matches!(chain.save(wrong_prev_key), Err(Error::InvalidGenesisSignature)));

    let outsider = keypair();
    let not_master = follower(&s1, &k1, &k2, &outsider, true);
    assert!(matches!(chain.save(not_master), Err(Error::NoStreamGroup)));

    let ext = ExtRenew { renew: Renew::new(&m, k2.public(), &s1.sig, true), key: k1.public().clone() };
    let stale = Stream::new(&k2, "u", "r2", &[], Record::new(OType::SET, b""), Some(ext));
    assert!(matches!(chain.save(stale), Err(Error::InvalidStreamChain)));

    let mut ext = ExtRenew { renew: Renew::new(&m, k2.public(), s1.prev(), true), key: k1.public().clone() };
    ext.renew.commit = "x".to_string();
    let forged = Stream::new(&k2, "u", "r2", &[], Record::new(OType::SET, b""), Some(ext));
    assert!(matches!(chain.save(forged), Err(Error::InvalidRenew)));

    assert!(chain.current().sig == s1.sig);
    chain.save(follower(&s1, &k1, &k2, &m, true)).unwrap();
    assert!(chain.check(k2.public()).is_ok());
}

#[test]
fn chain_check_errors() {
    let (s1, k1, k2, m) = two_streams();
    let single = Chain::new(s1.clone());
    assert!(single.check(k1.public()).is_ok());
    assert!(matches!(single.check(k2.public()), Err(Error::InvalidGenesisSignature)));

    let s2 = follower(&s1, &k1, &k2, &m, true);
    let rooted_late = Chain::new(s2);
    assert!(matches!(rooted_late.check(k2.public()), Err(Error::InvalidChainEnd)));

    let mut chain = Chain::new(s1.clone());
    chain.save(follower(&s1, &k1, &k2, &m, true)).unwrap();
    assert!(matches!(chain.check(k1.public()), Err(Error::InvalidGenesisSignature)));
}
