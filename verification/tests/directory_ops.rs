use wgsdc::net::IpNet;
use wgsdc::{Directory, DirectoryError, Node};

fn named(name: &str) -> Node {
    let mut n = Node::default();
    n.with_name(Some(name.to_string()));
    n
}

fn relay_node() -> Node {
    let mut n = named("hub");
    n.with_address(Some(vec![IpNet::new("10.0.0.1/24".to_string())]));
    n.with_listen_port(Some(51820));
    n
}

#[test]
fn adding_peer_without_relay_fails_with_no_relay() {
    let mut d = Directory::new();
    let before = d.list_peers().len();
    let r = d.push(named("alice"));
    assert_eq!(r, Err(DirectoryError::NoRelay));
    assert_eq!(d.list_peers().len(), before);
    assert_eq!(d.relay, None);
}

#[test]
fn designate_relay_installs_and_merges() {
    let mut d = Directory::new();
    d.designate_relay(relay_node());
    let hub = d.get_by_name("hub").unwrap();
    assert!(hub.relay);
    assert_eq!(hub.listen_port, Some(51820));

    let mut update = named("hub");
    update.with_mtu(Some(1400));
    d.designate_relay(update);
    let hub = d.get_by_name("hub").unwrap();
    assert_eq!(hub.mtu, Some(1400));
    assert_eq!(hub.listen_port, Some(51820));
}

#[test]
fn sticky_private_key_survives_reads_and_updates() {
    let mut d = Directory::new();
    d.designate_relay(relay_node());
    let mut alice = named("alice");
    alice.with_private_key(Some("K".to_string()));
    alice.with_public_key(Some("P".to_string()));
    d.push(alice).unwrap();

    let mut update = named("alice");
    update.with_private_key(Some("OTHER".to_string()));
    update.with_public_key(Some("OTHERPUB".to_string()));
    d.push(update).unwrap();

    let stored = d.get_by_name("alice").unwrap();
    assert_eq!(stored.private_key, Some("K".to_string()));
    assert_eq!(stored.public_key, Some("P".to_string()));
}

#[test]
fn merge_is_field_local_for_mtu() {
    let mut d = Directory::new();
    d.designate_relay(relay_node());
    let mut alice = named("alice");
    alice.with_address(Some(vec![IpNet::new("10.0.0.2/32".to_string())]));
    alice.with_public_key(Some("AKEY".to_string()));
    alice.with_persistent_keepalive(Some(25));
    alice.with_post_up(Some("echo up".to_string()));
    d.push(alice).unwrap();
    let before = d.get_by_name("alice").unwrap();

    let mut update = named("alice");
    update.with_mtu(Some(1399));
    d.push(update).unwrap();

    let after = d.get_by_name("alice").unwrap();
    assert_eq!(after.mtu, Some(1399));
    assert_eq!(after.name, before.name);
    assert_eq!(after.address, before.address);
    assert_eq!(after.public_key, before.public_key);
    assert_eq!(after.private_key, before.private_key);
    assert_eq!(after.listen_port, before.listen_port);
    assert_eq!(after.allowed_ips, before.allowed_ips);
    assert_eq!(after.endpoint_allowed_ips, before.endpoint_allowed_ips);
    assert_eq!(after.persistent_keepalive, before.persistent_keepalive);
    assert_eq!(after.endpoint, before.endpoint);
    assert_eq!(after.pre_up, before.pre_up);
    assert_eq!(after.post_up, before.post_up);
    assert_eq!(after.pre_down, before.pre_down);
    assert_eq!(after.post_down, before.post_down);
}

#[test]
fn removing_missing_peer_returns_not_found_and_keeps_length() {
    let mut d = Directory::new();
    d.designate_relay(relay_node());
    d.push(named("alice")).unwrap();
    d.push(named("bob")).unwrap();
    let before = d.list_peers().len();
    let r = d.remove_by_name("carol");
    assert_eq!(r, Err(DirectoryError::NotFound));
    assert_eq!(d.list_peers().len(), before);
}

#[test]
fn remove_by_name_removes_exactly_one() {
    let mut d = Directory::new();
    d.designate_relay(relay_node());
    d.push(named("alice")).unwrap();
    d.push(named("bob")).unwrap();
    d.remove_by_name("alice").unwrap();
    let peers = d.list_peers();
    assert_eq!(peers.len(), 1);
    assert_eq!(peers[0].name, Some("bob".to_string()));
}

#[test]
fn remove_by_index_checks_bounds() {
    let mut d = Directory::new();
    d.designate_relay(relay_node());
    d.push(named("alice")).unwrap();
    assert_eq!(d.remove(5), Err(DirectoryError::IndexOutOfBounds));
    assert_eq!(d.list_peers().len(), 1);
    assert_eq!(d.remove(0), Ok(()));
    assert_eq!(d.list_peers().len(), 0);
}

#[test]
fn list_peers_keeps_insertion_order_and_excludes_relay() {
    let mut d = Directory::new();
    d.designate_relay(relay_node());
    d.push(named("alice")).unwrap();
    d.push(named("bob")).unwrap();
    d.push(named("carol")).unwrap();
    let names: Vec<Option<String>> = d.list_peers().into_iter().map(|n| n.name).collect();
    assert_eq!(
        names,
        vec![
            Some("alice".to_string()),
            Some("bob".to_string()),
            Some("carol".to_string())
        ]
    );
    let all = d.list();
    assert_eq!(all.len(), 4);
    assert_eq!(all[0].name, Some("hub".to_string()));
}

#[test]
fn list_by_relay_splits_relay_and_peers() {
    let mut d = Directory::new();
    d.designate_relay(relay_node());
    d.push(named("alice")).unwrap();
    assert_eq!(d.list_by_relay(true).len(), 1);
    assert_eq!(d.list_by_relay(false).len(), 1);
}

#[test]
fn get_by_name_reports_not_found() {
    let d = Directory::new();
    assert_eq!(d.get_by_name("nobody"), Err(DirectoryError::NotFound));
}

#[test]
fn remove_all_keeps_relay_and_clear_drops_it() {
    let mut d = Directory::new();
    d.designate_relay(relay_node());
    d.push(named("alice")).unwrap();
    d.remove_all();
    assert_eq!(d.list_peers().len(), 0);
    assert!(d.relay.is_some());
    d.clear();
    assert!(d.relay.is_none());
    assert_eq!(d.list_peers().len(), 0);
}

#[test]
fn appended_peer_is_stored_as_non_relay() {
    let mut d = Directory::new();
    d.designate_relay(relay_node());
    let mut n = named("alice");
    n.with_relay(true);
    d.push(n).unwrap();
    assert!(!d.list_peers()[0].relay);
}
