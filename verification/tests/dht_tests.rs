use lib::dht::{
    find_node, sorted_shortlist, Contact, DhtNode, Distance, KBucket, NodeId, RoutingTable,
    K_BUCKET_SIZE,
};

fn make_id(byte: u8) -> NodeId {
    [byte; 32]
}

fn make_contact(byte: u8) -> Contact {
    Contact { id: make_id(byte), address: format!("127.0.0.{byte}:8080") }
}

#[test]
fn test_distance_zero_for_same_id() {
    let id = make_id(42);
    let d = Distance::between(&id, &id);
    assert_eq!(d.0, [0u8; 32]);
    assert!(d.bucket_index().is_none());
}

#[test]
fn test_distance_bucket_index() {
    let a = [0u8; 32];
    let mut b = [0u8; 32];
    b[0] = 0b0000_0001;
    let d = Distance::between(&a, &b);
    assert_eq!(d.bucket_index(), Some(7));
}

#[test]
fn test_kbucket_update_and_refresh() {
    let mut bucket = KBucket::default();
    let c = make_contact(1);
    bucket.update(c.clone());
    bucket.update(c.clone());
    assert_eq!(bucket.len(), 1);
}

#[test]
fn test_kbucket_capacity() {
    let mut bucket = KBucket::default();
    for i in 0..=K_BUCKET_SIZE as u8 {
        bucket.update(make_contact(i));
    }
    assert_eq!(bucket.len(), K_BUCKET_SIZE);
}

#[test]
fn test_routing_table_closest() {
    let local = make_id(0);
    let mut table = RoutingTable::new(local);
    for i in 1..=10u8 {
        table.update(make_contact(i));
    }
    let target = make_id(3);
    let closest = table.closest_to(&target, 3);
    assert_eq!(closest.len(), 3);
    let dists: Vec<Distance> = closest.iter().map(|c| Distance::between(&target, &c.id)).collect();
    for w in dists.windows(2) {
        assert!(w[0] <= w[1]);
    }
}

#[test]
fn test_dht_node_bootstrap_and_lookup() {
    let mut node = DhtNode::new(make_id(0));
    let seeds: Vec<Contact> = (1..=5u8).map(make_contact).collect();
    node.bootstrap(seeds);
    assert_eq!(node.routing_table.total_contacts(), 5);
    let results = node.lookup(&make_id(3));
    assert!(!results.is_empty());
}

#[test]
fn test_sorted_shortlist() {
    let target = make_id(0);
    let contacts: Vec<Contact> = (1..=10u8).map(make_contact).collect();
    let list = sorted_shortlist(contacts, &target, 3);
    assert_eq!(list.len(), 3);
}

// ── Further cases ────────────────────────────────────────────────────────────

#[test]
fn distance_is_symmetric_xor() {
    let a = make_id(0x0F);
    let b = make_id(0xF0);
    let d = Distance::between(&a, &b);
    assert_eq!(d.0, [0xFFu8; 32]);
    assert_eq!(d, Distance::between(&b, &a));
    assert_eq!(d.bucket_index(), Some(0));
    let mut c = [0u8; 32];
    c[31] = 1;
    assert_eq!(Distance::between(&[0u8; 32], &c).bucket_index(), Some(255));
}

#[test]
fn kbucket_refresh_moves_contact_to_back() {
    let mut bucket = KBucket::new();
    bucket.update(make_contact(1));
    bucket.update(make_contact(2));
    bucket.update(make_contact(1));
    // most recently seen first
    let ids: Vec<NodeId> = bucket.closest(10).iter().map(|c| c.id).collect();
    assert_eq!(ids, vec![make_id(1), make_id(2)]);
    assert!(!bucket.is_empty());
}

#[test]
fn full_bucket_ignores_newcomer() {
    let mut bucket = KBucket::new();
    for i in 0..K_BUCKET_SIZE as u8 {
        bucket.update(make_contact(i));
    }
    bucket.update(make_contact(200));
    let ids: Vec<NodeId> = bucket.closest(K_BUCKET_SIZE).iter().map(|c| c.id).collect();
    assert!(!ids.contains(&make_id(200)));
    assert_eq!(ids[0], make_id(K_BUCKET_SIZE as u8 - 1));
    assert_eq!(ids[K_BUCKET_SIZE - 1], make_id(0));
}

#[test]
fn routing_table_skips_local_id() {
    let mut table = RoutingTable::new(make_id(7));
    table.update(make_contact(7));
    assert_eq!(table.total_contacts(), 0);
    table.update(make_contact(8));
    assert_eq!(table.total_contacts(), 1);
    assert_eq!(find_node(&table, &make_id(8))[0].id, make_id(8));
}

#[test]
fn closest_to_returns_exact_nearest() {
    let mut table = RoutingTable::new(make_id(0));
    for i in 1..=10u8 {
        table.update(make_contact(i));
    }
    let ids: Vec<NodeId> = table.closest_to(&make_id(3), 2).iter().map(|c| c.id).collect();
    // 3 xor 3 = 0, then 3 xor 2 = 1
    assert_eq!(ids, vec![make_id(3), make_id(2)]);
}

#[test]
fn shortlist_is_ascending_and_keeps_last_duplicate() {
    let target = make_id(0);
    let contacts = vec![
        make_contact(5),
        make_contact(1),
        Contact { id: make_id(1), address: "later".to_string() },
        make_contact(3),
    ];
    let list = sorted_shortlist(contacts, &target, 10);
    let ids: Vec<NodeId> = list.iter().map(|(_, c)| c.id).collect();
    assert_eq!(ids, vec![make_id(1), make_id(3), make_id(5)]);
    assert_eq!(list[0].1.address, "later");
    assert_eq!(list[0].0, Distance::between(&target, &make_id(1)));
}
