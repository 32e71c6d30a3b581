use libcommon::errors::Error;
use libcommon::peer::{Peer, PeerId};
use libcommon::registry::PeerList;

fn peer(id: &str, addr: &str) -> Peer {
    Peer::new(PeerId::new(id.to_owned()), addr.to_owned())
}

#[test]
fn empty_registry() {
    let reg = PeerList::new();
    assert_eq!(reg.len(), 0);
    assert!(reg.at(0).is_none());
    assert!(reg.iter().next().is_none());
    match reg.get_base_address(&PeerId::new("nobody".to_owned())) {
        Err(Error::Absent) => {}
        _ => panic!("lookup in an empty registry must report Absent"),
    }
}

#[test]
fn add_then_look_up() {
    let mut reg = PeerList::new();
    assert!(reg.add(peer("k1", "tcp://one:1")).is_ok());
    assert!(reg.add(peer("k2", "tcp://two:2")).is_ok());
    assert_eq!(reg.len(), 2);
    let a = reg.get_base_address(&PeerId::new("k1".to_owned())).unwrap();
    assert_eq!(a, "tcp://one:1");
    let b = reg.get_base_address(&PeerId::new("k2".to_owned())).unwrap();
    assert_eq!(b, "tcp://two:2");
}

#[test]
fn duplicate_add_rejected_and_harmless() {
    let mut reg = PeerList::new();
    assert!(reg.add(peer("k1", "tcp://one:1")).is_ok());
    match reg.add(peer("k1", "tcp://elsewhere:9")) {
        Err(Error::Unsupported(_)) => {}
        _ => panic!("a duplicate identity must be refused as Unsupported"),
    }
    assert_eq!(reg.len(), 1);
    let a = reg.get_base_address(&PeerId::new("k1".to_owned())).unwrap();
    assert_eq!(a, "tcp://one:1");
}

#[test]
fn index_and_key_agree() {
    let mut reg = PeerList::new();
    assert!(reg.add(peer("k1", "tcp://one:1")).is_ok());
    assert!(reg.add(peer("k2", "tcp://two:2")).is_ok());
    assert!(reg.add(peer("k3", "tcp://three:3")).is_ok());
    for i in 0..reg.len() {
        let record = reg.at(i).expect("every position below len is filled");
        let keyed = reg.get_base_address(&record.get_id()).unwrap();
        assert_eq!(keyed, record.get_base_addr());
    }
}

#[test]
fn iteration_in_insertion_order_under_mutation() {
    let mut reg = PeerList::new();
    assert!(reg.add(peer("k1", "tcp://one:1")).is_ok());
    assert!(reg.add(peer("k2", "tcp://two:2")).is_ok());
    assert!(reg
        .set_net_address(&PeerId::new("k1".to_owned()), 0, "udp://alt:7".to_owned())
        .is_ok());
    assert!(reg.add(peer("k3", "tcp://three:3")).is_ok());
    assert!(reg
        .set_net_address(&PeerId::new("k3".to_owned()), 0, "udp://alt:8".to_owned())
        .is_ok());
    let ids: Vec<String> = reg.iter().map(|p| p.get_id().as_text().clone()).collect();
    assert_eq!(ids, vec!["k1".to_owned(), "k2".to_owned(), "k3".to_owned()]);
}

#[test]
fn secondary_address_positions() {
    let mut reg = PeerList::new();
    assert!(reg.add(peer("k1", "tcp://one:1")).is_ok());
    let id = PeerId::new("k1".to_owned());
    assert!(reg.set_net_address(&id, 0, "udp://a:1".to_owned()).is_ok());
    assert!(reg.set_net_address(&id, 1, "udp://b:2".to_owned()).is_ok());
    // the peer now has 2 secondary addresses
    match reg.get_net_address(&id, 5) {
        Err(Error::Absent) => {}
        _ => panic!("a position past the list must report Absent"),
    }
    match reg.set_net_address(&id, 3, "udp://d:4".to_owned()) {
        Err(Error::Absent) => {}
        _ => panic!("a sparse position must report Absent"),
    }
    assert!(reg.set_net_address(&id, 2, "udp://c:3".to_owned()).is_ok());
    assert_eq!(reg.get_net_address(&id, 0).unwrap(), "udp://a:1");
    assert_eq!(reg.get_net_address(&id, 1).unwrap(), "udp://b:2");
    assert_eq!(reg.get_net_address(&id, 2).unwrap(), "udp://c:3");
}

#[test]
fn overwrite_secondary_address_in_place() {
    let mut reg = PeerList::new();
    assert!(reg.add(peer("k1", "tcp://one:1")).is_ok());
    let id = PeerId::new("k1".to_owned());
    assert!(reg.set_net_address(&id, 0, "udp://a:1".to_owned()).is_ok());
    assert!(reg.set_net_address(&id, 0, "udp://z:9".to_owned()).is_ok());
    assert_eq!(reg.get_net_address(&id, 0).unwrap(), "udp://z:9");
    assert_eq!(reg.at(0).unwrap().net_addr_count(), 1);
}

#[test]
fn set_net_address_on_missing_peer() {
    let mut reg = PeerList::new();
    match reg.set_net_address(&PeerId::new("ghost".to_owned()), 0, "udp://a:1".to_owned()) {
        Err(Error::Absent) => {}
        _ => panic!("a missing peer must report Absent"),
    }
    assert_eq!(reg.len(), 0);
}

#[test]
fn distinct_adds_all_land() {
    let mut reg = PeerList::new();
    for i in 0..8 {
        let key = format!("peer-{}", i);
        let addr = format!("tcp://host{}:100{}", i, i);
        assert!(reg.add(peer(&key, &addr)).is_ok());
    }
    assert_eq!(reg.len(), 8);
    for i in 0..8 {
        let key = format!("peer-{}", i);
        assert!(reg.get_base_address(&PeerId::new(key)).is_ok());
    }
}

#[test]
fn ingest_is_all_or_nothing() {
    let mut reg = PeerList::new();
    assert!(reg.add(peer("k1", "tcp://one:1")).is_ok());
    let batch = vec![peer("k2", "a"), peer("k3", "b"), peer("k1", "c"), peer("k4", "d")];
    match reg.ingest(batch) {
        Err(Error::Unsupported(_)) => {}
        _ => panic!("a batch with a registered identity must be refused"),
    }
    assert_eq!(reg.len(), 1);
    assert!(reg.get_base_address(&PeerId::new("k2".to_owned())).is_err());
    let good = vec![peer("k2", "a"), peer("k3", "b")];
    assert!(reg.ingest(good).is_ok());
    assert_eq!(reg.len(), 3);
}

#[test]
fn ingest_rejects_batch_internal_duplicates() {
    let mut reg = PeerList::new();
    let batch = vec![peer("k1", "a"), peer("k2", "b"), peer("k1", "c")];
    match reg.ingest(batch) {
        Err(Error::Unsupported(_)) => {}
        _ => panic!("a batch carrying one identity twice must be refused"),
    }
    assert_eq!(reg.len(), 0);
}

#[test]
fn peer_record_accessors() {
    let mut p = peer("k1", "tcp://one:1");
    assert_eq!(p.get_id().as_text(), "k1");
    assert!(p.id_ref().as_text() == "k1");
    assert!(p.has_id(&PeerId::new("k1".to_owned())));
    assert!(!p.has_id(&PeerId::new("k2".to_owned())));
    assert_eq!(p.get_base_addr(), "tcp://one:1");
    assert_eq!(p.net_addr_count(), 0);
    assert!(p.set_net_addr(0, "udp://a:1".to_owned()).is_ok());
    assert_eq!(p.net_addr_count(), 1);
    assert_eq!(p.get_net_addr(0), "udp://a:1");
    match p.set_net_addr(3, "udp://x:0".to_owned()) {
        Err(Error::Absent) => {}
        _ => panic!("a sparse record position must report Absent"),
    }
    let q = p.clone();
    assert_eq!(q.get_base_addr(), "tcp://one:1");
    assert_eq!(q.get_net_addr(0), "udp://a:1");
}

#[test]
fn peer_id_value_semantics() {
    let a = PeerId::new("abc".to_owned());
    let b = a.clone();
    assert!(a == b);
    assert!(a != PeerId::new("abd".to_owned()));
    assert_eq!(a.as_text(), "abc");
    let d = PeerId::default();
    assert_eq!(d.as_text(), "");
}

fn shareable<T: Send + Sync>() {}

#[test]
fn values_cross_thread_boundaries() {
    shareable::<PeerId>();
    shareable::<Peer>();
    shareable::<PeerList>();
}

#[test]
fn identity_total_order() {
    let a = PeerId::new("abc".to_owned());
    let b = PeerId::new("abd".to_owned());
    let p = PeerId::new("ab".to_owned());
    assert!(a.lt(&b));
    assert!(!b.lt(&a));
    assert!(p.lt(&a));
    assert!(!a.lt(&p));
    assert!(!a.lt(&a.clone()));
}
