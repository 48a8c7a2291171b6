use peer_store::memory::InMemoryPeerDB;
use peer_store::peer::PeerData;
use peer_store::store::PeerDB;

fn peer(id: &str, address: &str, last_seen: &str) -> PeerData {
    PeerData {
        id: id.to_string(),
        address: address.to_string(),
        client_version: "Geth/v1.13.0".to_string(),
        enode_url: format!("enode://{}@{}:30303", id, address),
        tcp_port: 30303,
        chain: "mainnet".to_string(),
        genesis_block_hash: "0xd4e5".to_string(),
        best_block: "0xabc".to_string(),
        total_difficulty: "58750003716598352816469".to_string(),
        country: "DE".to_string(),
        city: "Berlin".to_string(),
        last_seen: last_seen.to_string(),
        capabilities: vec!["eth/66".to_string(), "snap/1".to_string()],
        eth_version: 66,
    }
}

#[test]
fn upsert_same_id_keeps_latest() {
    let mut db = InMemoryPeerDB::new();
    let first = peer("X", "10.0.0.1", "2024-01-01 00:00:00 UTC");
    let second = peer("X", "10.0.0.2", "2024-01-02 00:00:00 UTC");
    assert_eq!(db.add_peer(first, Some(10)), Ok(()));
    assert_eq!(db.add_peer(second.clone(), None), Ok(()));
    let found = db.node_by_id("X".to_string()).unwrap().unwrap();
    assert_eq!(found, vec![second]);
    assert_eq!(db.all_peers(None).unwrap().len(), 1);
}

#[test]
fn lookup_by_id_finds_record() {
    let mut db = InMemoryPeerDB::new();
    let record = peer("X", "10.0.0.1", "2024-01-01 00:00:00 UTC");
    db.add_peer(record.clone(), None).unwrap();
    assert_eq!(db.node_by_id("X".to_string()), Ok(Some(vec![record])));
    assert_eq!(db.node_by_id("Y".to_string()), Ok(Some(vec![])));
}

#[test]
fn lookup_on_empty_store_is_empty() {
    let db = InMemoryPeerDB::new();
    assert_eq!(db.node_by_id("X".to_string()), Ok(Some(vec![])));
    assert_eq!(db.node_by_ip("10.0.0.1".to_string()), Ok(Some(vec![])));
    assert_eq!(db.all_peers(Some(5)), Ok(vec![]));
}

#[test]
fn lookup_by_address_filters_exactly() {
    let mut db = InMemoryPeerDB::new();
    let a = peer("A", "10.0.0.1", "t");
    let b = peer("B", "10.0.0.2", "t");
    let c = peer("C", "10.0.0.1", "t");
    db.add_peer(a.clone(), None).unwrap();
    db.add_peer(b.clone(), None).unwrap();
    db.add_peer(c.clone(), None).unwrap();
    assert_eq!(db.node_by_ip("10.0.0.1".to_string()), Ok(Some(vec![a, c])));
    assert_eq!(db.node_by_ip("10.0.0.2".to_string()), Ok(Some(vec![b])));
    assert_eq!(db.node_by_ip("10.0.0.3".to_string()), Ok(Some(vec![])));
}

#[test]
fn page_holds_at_most_page_size() {
    let mut db = InMemoryPeerDB::new();
    for i in 0..60 {
        db.add_peer(peer(&format!("n{}", i), "10.0.0.1", "t"), None).unwrap();
    }
    assert_eq!(db.all_peers(Some(0)).unwrap().len(), 0);
    assert_eq!(db.all_peers(Some(7)).unwrap().len(), 7);
    assert_eq!(db.all_peers(None).unwrap().len(), 50);
    assert_eq!(db.all_peers(Some(100)).unwrap().len(), 60);
    assert_eq!(db.all_peers(Some(-1)).unwrap().len(), 60);
    let page = db.all_peers(Some(3)).unwrap();
    let ids: Vec<String> = page.iter().map(|p| p.id.clone()).collect();
    assert_eq!(ids, vec!["n0".to_string(), "n1".to_string(), "n2".to_string()]);
}

#[test]
fn distinct_adds_are_all_listed() {
    let mut db = InMemoryPeerDB::new();
    let records: Vec<PeerData> = (0..20).map(|i| peer(&format!("id{}", i), "10.0.0.9", "t")).collect();
    for r in &records {
        assert_eq!(db.add_peer(r.clone(), None), Ok(()));
    }
    let all = db.all_peers(Some(1000)).unwrap();
    assert_eq!(all.len(), records.len());
    for r in &records {
        assert!(all.contains(r));
    }
}

#[test]
fn trait_calls_reach_the_store() {
    fn store_and_read<D: PeerDB>(db: &mut D, record: PeerData) -> usize {
        db.add_peer(record, None).unwrap();
        db.all_peers(Some(10)).unwrap().len()
    }
    let mut db = InMemoryPeerDB::new();
    assert_eq!(store_and_read(&mut db, peer("A", "1.1.1.1", "t")), 1);
    assert_eq!(store_and_read(&mut db, peer("A", "1.1.1.2", "t")), 1);
    assert_eq!(store_and_read(&mut db, peer("B", "1.1.1.2", "t")), 2);
}

#[test]
fn duplicate_keeps_every_field() {
    let record = peer("A", "1.1.1.1", "t");
    assert_eq!(record.duplicate(), record);
}

