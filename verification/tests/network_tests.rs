use lib::hypercube::{HypercubeAddress, HypercubeRouter, RouteEntry};
use lib::overlay::{OverlayId, OverlayManager, OverlayMesh, OverlayMessage, OverlayPeer};

fn adnl_from_u32(v: u32) -> [u8; 32] {
    let mut id = [0u8; 32];
    let bytes = v.to_le_bytes();
    id[..4].copy_from_slice(&bytes);
    id
}

#[test]
fn test_address_from_adnl() {
    let adnl = adnl_from_u32(0b1111_1111);
    let addr = HypercubeAddress::from_adnl(&adnl, 4);
    assert_eq!(addr.0, 0b1111);
}

#[test]
fn test_hamming_distance() {
    let a = HypercubeAddress(0b0000);
    let b = HypercubeAddress(0b1010);
    assert_eq!(a.hamming_distance(&b), 2);
}

#[test]
fn test_neighbours_count() {
    let addr = HypercubeAddress(0b0000);
    let neighbours = addr.neighbours(4);
    assert_eq!(neighbours.len(), 4);
    for n in &neighbours {
        assert_eq!(addr.hamming_distance(n), 1);
    }
}

#[test]
fn test_register_and_route() {
    let local = HypercubeAddress(0b000);
    let mut router = HypercubeRouter::new(local, 3);
    for bit in 0..3u32 {
        let addr = HypercubeAddress(1u32 << bit);
        let entry = RouteEntry { address: addr, adnl_id: adnl_from_u32(1 << bit) };
        assert!(router.register_neighbour(entry));
    }
    assert_eq!(router.known_neighbours(), 3);
    let dest = HypercubeAddress(0b111);
    let hop = router.next_hop(dest).expect("route should exist");
    assert_eq!(hop.address.0, 0b100);
}

#[test]
fn test_no_route_to_self() {
    let local = HypercubeAddress(0b101);
    let router = HypercubeRouter::new(local, 3);
    assert!(router.next_hop(local).is_none());
}

#[test]
fn test_reject_non_neighbour() {
    let local = HypercubeAddress(0b000);
    let mut router = HypercubeRouter::new(local, 3);
    let entry = RouteEntry { address: HypercubeAddress(0b011), adnl_id: [0u8; 32] };
    assert!(!router.register_neighbour(entry));
}

fn make_peer(byte: u8) -> OverlayPeer {
    OverlayPeer { adnl_id: [byte; 32] }
}

#[test]
fn test_overlay_add_remove_peer() {
    let id = OverlayId([0u8; 32]);
    let mut mesh = OverlayMesh::new(id, 3);
    let p1 = make_peer(1);
    let p2 = make_peer(2);
    mesh.add_peer(p1.clone());
    mesh.add_peer(p2.clone());
    assert_eq!(mesh.peer_count(), 2);
    mesh.remove_peer(&p1);
    assert_eq!(mesh.peer_count(), 1);
}

#[test]
fn test_gossip_excludes_origin() {
    let id = OverlayId([0u8; 32]);
    let mut mesh = OverlayMesh::new(id, 10);
    let origin = make_peer(0);
    for i in 1..=5u8 {
        mesh.add_peer(make_peer(i));
    }
    mesh.add_peer(origin.clone());
    let targets = mesh.select_gossip_targets(&origin);
    assert!(!targets.contains(&&origin));
    assert_eq!(targets.len(), 5);
}

#[test]
fn test_manager_register_deregister() {
    let mut mgr = OverlayManager::new();
    let id = OverlayId([1u8; 32]);
    mgr.register(id.clone(), 4);
    assert_eq!(mgr.mesh_count(), 1);
    mgr.deregister(&id);
    assert_eq!(mgr.mesh_count(), 0);
}

// ── Further cases ────────────────────────────────────────────────────────────

#[test]
fn address_keeps_low_bits_only() {
    let adnl = adnl_from_u32(0xDEAD_BEEF);
    assert_eq!(HypercubeAddress::from_adnl(&adnl, 8).0, 0xEF);
    assert_eq!(HypercubeAddress::from_adnl(&adnl, 32).0, 0xDEAD_BEEF);
    assert_eq!(HypercubeAddress::from_adnl(&adnl, 0).0, 0);
}

#[test]
fn neighbours_flip_each_bit_in_order() {
    let n = HypercubeAddress(0b101).neighbours(3);
    assert_eq!(n, vec![HypercubeAddress(0b100), HypercubeAddress(0b111), HypercubeAddress(0b001)]);
}

#[test]
fn router_keeps_first_entry_and_falls_back_to_lower_bit() {
    let mut router = HypercubeRouter::new(HypercubeAddress(0), 3);
    assert!(router.register_neighbour(RouteEntry { address: HypercubeAddress(0b010), adnl_id: [1u8; 32] }));
    assert!(!router.register_neighbour(RouteEntry { address: HypercubeAddress(0b010), adnl_id: [2u8; 32] }));
    assert_eq!(router.known_neighbours(), 1);
    // bit 2 has no route, so the lower differing bit 1 is used
    let hop = router.next_hop(HypercubeAddress(0b110)).unwrap();
    assert_eq!(hop.adnl_id, [1u8; 32]);
    // no differing bit has a route
    assert!(router.next_hop(HypercubeAddress(0b101)).is_none());
    // out-of-range neighbour is refused
    assert!(!router.register_neighbour(RouteEntry { address: HypercubeAddress(0b1000), adnl_id: [3u8; 32] }));
}

#[test]
fn gossip_respects_fanout_and_broadcast() {
    let mut mesh = OverlayMesh::new(OverlayId([9u8; 32]), 2);
    for i in 1..=5u8 {
        mesh.add_peer(make_peer(i));
    }
    mesh.add_peer(make_peer(1));
    assert_eq!(mesh.peer_count(), 5);
    let origin = make_peer(3);
    let targets = mesh.broadcast(&origin, &OverlayMessage::Inventory([0u8; 32]));
    assert_eq!(targets.len(), 2);
    assert!(!targets.contains(&&origin));
}

#[test]
fn manager_get_and_get_mut() {
    let mut mgr = OverlayManager::new();
    let id = OverlayId([4u8; 32]);
    assert!(mgr.get(&id).is_none());
    mgr.register(id, 3);
    mgr.get_mut(&id).unwrap().add_peer(make_peer(1));
    // registering again keeps the existing mesh
    mgr.register(id, 8);
    assert_eq!(mgr.get(&id).unwrap().peer_count(), 1);
    assert_eq!(mgr.mesh_count(), 1);
}

#[test]
fn each_hop_removes_one_differing_bit() {
    let local = HypercubeAddress(0b0000);
    let mut router = HypercubeRouter::new(local, 4);
    for bit in 0..4u32 {
        router.register_neighbour(RouteEntry { address: HypercubeAddress(1 << bit), adnl_id: [bit as u8; 32] });
    }
    let dest = HypercubeAddress(0b1011);
    let hop = router.next_hop(dest).unwrap();
    assert_eq!(hop.address.0, 0b1000);
    assert_eq!(hop.address.hamming_distance(&dest) + 1, local.hamming_distance(&dest));
}

#[test]
fn registering_fills_exactly_one_slot() {
    let local = HypercubeAddress(0b0101);
    let mut router = HypercubeRouter::new(local, 4);
    assert_eq!(router.known_neighbours(), 0);
    assert!(router.register_neighbour(RouteEntry { address: HypercubeAddress(0b0100), adnl_id: [1u8; 32] }));
    assert_eq!(router.known_neighbours(), 1);
    let hop = router.next_hop(HypercubeAddress(0b0000)).unwrap();
    assert_eq!(hop.address.0, local.0 ^ 1);
}

#[test]
fn gossip_targets_are_distinct_members() {
    let mut mesh = OverlayMesh::new(OverlayId([1u8; 32]), 3);
    for i in 1..=4u8 {
        mesh.add_peer(make_peer(i));
    }
    let origin = make_peer(9);
    let t = mesh.select_gossip_targets(&origin);
    assert_eq!(t.len(), 3);
    for (i, a) in t.iter().enumerate() {
        for b in &t[i + 1..] {
            assert_ne!(a, b);
        }
    }
}
