//! Tests of the federation registry.

use resurreccion::federation::{Federation, PeerKind};

#[test]
fn new_federation_is_empty() {
    let fed = Federation::new();
    assert_eq!(fed.peer_count(), 0);
    assert!(fed.peers().is_empty());
}

#[test]
fn add_local_peer_increments_count() {
    let mut fed = Federation::new();
    fed.add_local("local-dev");
    assert_eq!(fed.peer_count(), 1);
}

#[test]
fn add_remote_peer_increments_count() {
    let mut fed = Federation::new();
    fed.add_remote("remote-prod", "prod.example.com", 22, "deploy");
    assert_eq!(fed.peer_count(), 1);
}

#[test]
fn peers_returns_all() {
    let mut fed = Federation::new();
    fed.add_local("local");
    fed.add_remote("remote-a", "a.example.com", 22, "alice");
    fed.add_remote("remote-b", "b.example.com", 2222, "bob");
    let peers = fed.peers();
    assert_eq!(peers.len(), 3);
    assert_eq!(peers[0].label, "local");
    assert_eq!(peers[1].label, "remote-a");
    assert_eq!(peers[2].label, "remote-b");
}

#[test]
fn routes_go_to_remote_peers_only() {
    let mut fed = Federation::new();
    fed.add_local("local").add_remote("remote-prod", "prod.example.com", 22, "deploy");
    let local_id = fed.peers()[0].peer_id.clone();
    let remote_id = fed.peers()[1].peer_id.clone();
    assert_eq!(local_id.len(), 26);
    assert_ne!(local_id, remote_id);
    assert!(fed.remote_route(&local_id).is_none());
    assert_eq!(
        fed.remote_route(&remote_id),
        Some(("prod.example.com".to_string(), 22, "deploy".to_string()))
    );
    assert!(fed.remote_route("nonexistent-peer-id").is_none());
    assert!(matches!(fed.peers()[1].kind, PeerKind::Remote { port: 22, .. }));
}

#[test]
fn forward_dry_run_local_peer_returns_none() {
    let mut fed = Federation::new();
    fed.add_local("local-dev");
    let peer_id = fed.peers()[0].peer_id.clone();
    let result = fed.remote_route(&peer_id);
    assert!(result.is_none(), "local peer should return None");
}

#[test]
fn forward_dry_run_unknown_peer_returns_none() {
    let fed = Federation::new();
    let result = fed.remote_route("nonexistent-peer-id");
    assert!(result.is_none(), "unknown peer_id should return None");
}
