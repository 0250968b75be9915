use wgsdc::net::IpNet;
use wgsdc::render::{render_peer_config, render_relay_config};
use wgsdc::{Directory, DirectoryError, Endpoint, Node};

fn named(name: &str) -> Node {
    let mut n = Node::default();
    n.with_name(Some(name.to_string()));
    n
}

fn hub() -> Node {
    let mut n = named("hub");
    n.with_address(Some(vec![IpNet::new("10.0.0.1/24".to_string())]));
    n.with_endpoint(Some(Endpoint::new("hub.example".to_string(), 51820)));
    n.with_public_key(Some("HUBKEY".to_string()));
    n.with_private_key(Some("HUBPRIV".to_string()));
    n.with_listen_port(Some(51820));
    n
}

fn alice() -> Node {
    let mut n = named("alice");
    n.with_private_key(Some("ALICEPRIV".to_string()));
    n.with_public_key(Some("ALICEKEY".to_string()));
    n.with_address(Some(vec![IpNet::new("10.0.0.2/32".to_string())]));
    n.with_endpoint_allowed_ips(Some(vec![IpNet::new("10.0.0.0/24".to_string())]));
    n.with_persistent_keepalive(Some(25));
    n
}

fn sample_directory() -> Directory {
    let mut d = Directory::new();
    d.designate_relay(hub());
    d.push(alice()).unwrap();
    d
}

#[test]
fn peer_config_shows_exactly_one_peer_stanza_for_the_relay() {
    let d = sample_directory();
    let text = render_peer_config(&d, "alice").unwrap();
    let expected = "[Interface]\n\
                    PrivateKey = ALICEPRIV\n\
                    Address = 10.0.0.2/32\n\
                    [Peer]\n\
                    PublicKey = HUBKEY\n\
                    AllowedIPs = 10.0.0.0/24\n\
                    Endpoint = hub.example:51820\n\
                    PersistentKeepalive = 25\n";
    assert_eq!(text, expected);
    assert_eq!(text.matches("[Peer]").count(), 1);
    assert!(!text.contains("ALICEKEY"));
}

#[test]
fn relay_address_block_is_truncated_and_joined_with_peer_routes() {
    let d = sample_directory();
    let text = render_peer_config(&d, "alice").unwrap();
    // the relay's 10.0.0.1/24 reads as the block 10.0.0.0/24, which the
    // peer's extra route already names: one entry only
    assert_eq!(text.matches("10.0.0.0/24").count(), 1);
    assert!(!text.contains("10.0.0.1/24"));
}

#[test]
fn relay_config_lists_peers_in_insertion_order() {
    let mut d = sample_directory();
    let mut bob = named("bob");
    bob.with_public_key(Some("BOBKEY".to_string()));
    bob.with_address(Some(vec![IpNet::new("10.0.0.3/32".to_string())]));
    d.push(bob).unwrap();

    let text = render_relay_config(&d).unwrap();
    assert_eq!(text.matches("[Peer]").count(), 2);
    let alice_at = text.find("ALICEKEY").unwrap();
    let bob_at = text.find("BOBKEY").unwrap();
    assert!(alice_at < bob_at);
    assert!(text.starts_with(
        "[Interface]\n\
         PrivateKey = HUBPRIV\n\
         Address = 10.0.0.1/24\n\
         ListenPort = 51820\n"
    ));
    // the relay listens; no endpoint is dialed toward ordinary peers
    assert_eq!(text.matches("Endpoint").count(), 0);
}

#[test]
fn peer_config_fails_not_found_for_unknown_peer() {
    let d = sample_directory();
    assert_eq!(
        render_peer_config(&d, "carol"),
        Err(DirectoryError::NotFound)
    );
}

#[test]
fn relay_config_fails_without_relay() {
    let d = Directory::new();
    assert_eq!(render_relay_config(&d), Err(DirectoryError::NoRelay));
}

#[test]
fn absent_values_are_omitted_entirely() {
    let mut d = Directory::new();
    let mut bare = named("hub");
    bare.with_public_key(Some("HUBKEY".to_string()));
    d.designate_relay(bare);
    d.push(named("carol")).unwrap();
    let text = render_peer_config(&d, "carol").unwrap();
    assert_eq!(text, "[Interface]\n[Peer]\nPublicKey = HUBKEY\n");
}

#[test]
fn hooks_and_mtu_render_in_fixed_order() {
    let mut d = Directory::new();
    let mut r = hub();
    r.with_mtu(Some(1420));
    r.with_pre_up(Some("echo pre-up".to_string()));
    r.with_post_up(Some("echo post-up".to_string()));
    r.with_pre_down(Some("echo pre-down".to_string()));
    r.with_post_down(Some("echo post-down".to_string()));
    d.designate_relay(r);
    let text = render_relay_config(&d).unwrap();
    assert_eq!(
        text,
        "[Interface]\n\
         PrivateKey = HUBPRIV\n\
         Address = 10.0.0.1/24\n\
         ListenPort = 51820\n\
         MTU = 1420\n\
         PreUp = echo pre-up\n\
         PostUp = echo post-up\n\
         PreDown = echo pre-down\n\
         PostDown = echo post-down\n"
    );
}

#[test]
fn allowed_networks_union_drops_repeats_but_keeps_order() {
    let mut d = Directory::new();
    d.designate_relay(hub());
    let mut carol = named("carol");
    carol.with_public_key(Some("CAROLKEY".to_string()));
    carol.with_address(Some(vec![IpNet::new("10.0.0.7/32".to_string())]));
    carol.with_allowed_ips(Some(vec![
        IpNet::new("192.168.0.0/16".to_string()),
        IpNet::new("10.0.0.7/32".to_string()),
    ]));
    d.push(carol).unwrap();
    let text = render_relay_config(&d).unwrap();
    assert!(text.contains("AllowedIPs = 10.0.0.7/32, 192.168.0.0/16\n"));
}
