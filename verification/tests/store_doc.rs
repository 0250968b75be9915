use wgsdc::net::IpNet;
use wgsdc::store::{from_document, to_document, StoreError};
use wgsdc::{Directory, Endpoint, Node};

fn named(name: &str) -> Node {
    let mut n = Node::default();
    n.with_name(Some(name.to_string()));
    n
}

fn full_directory() -> Directory {
    let mut d = Directory::new();
    let mut hub = named("hub");
    hub.with_address(Some(vec![
        IpNet::new("10.0.0.1/24".to_string()),
        IpNet::new("fd00::1/64".to_string()),
    ]));
    hub.with_endpoint(Some(Endpoint::new("hub.example".to_string(), 51820)));
    hub.with_public_key(Some("HUBKEY".to_string()));
    hub.with_private_key(Some("HUBPRIV".to_string()));
    hub.with_listen_port(Some(51820));
    hub.with_mtu(Some(1420));
    d.designate_relay(hub);

    let mut alice = named("alice");
    alice.with_address(Some(vec![IpNet::new("10.0.0.2/32".to_string())]));
    alice.with_public_key(Some("ALICEKEY".to_string()));
    alice.with_private_key(Some("ALICEPRIV".to_string()));
    alice.with_persistent_keepalive(Some(25));
    alice.with_endpoint_allowed_ips(Some(vec![IpNet::new("10.0.0.0/24".to_string())]));
    d.push(alice).unwrap();

    let mut bob = named("bob");
    bob.with_post_up(Some("iptables -A FORWARD -j ACCEPT".to_string()));
    bob.with_pre_down(Some("echo value = with equals sign".to_string()));
    bob.with_mtu(Some(1380));
    d.push(bob).unwrap();

    let mut carol = named("carol");
    carol.with_allowed_ips(Some(vec![
        IpNet::new("192.168.0.0/16".to_string()),
        IpNet::new("172.16.0.0/12".to_string()),
    ]));
    carol.with_endpoint(Some(Endpoint::new("carol.example".to_string(), 1234)));
    d.push(carol).unwrap();
    d
}

#[test]
fn round_trip_of_empty_directory() {
    let d = Directory::new();
    let text = to_document(&d);
    assert_eq!(text, "");
    let back = from_document(&text).unwrap();
    assert_eq!(back, d);
}

#[test]
fn round_trip_without_relay_is_identity() {
    let d = Directory::new();
    let back = from_document(&to_document(&d)).unwrap();
    assert!(back.relay.is_none());
    assert_eq!(back.list_peers().len(), 0);
}

#[test]
fn round_trip_with_relay_and_three_peers() {
    let d = full_directory();
    let text = to_document(&d);
    let back = from_document(&text).unwrap();
    assert_eq!(back, d);
}

#[test]
fn document_text_is_the_expected_sections() {
    let mut d = Directory::new();
    let mut hub = named("hub");
    hub.with_listen_port(Some(51820));
    hub.with_endpoint(Some(Endpoint::new("hub.example".to_string(), 51820)));
    d.designate_relay(hub);
    let mut alice = named("alice");
    alice.with_address(Some(vec![
        IpNet::new("10.0.0.2/32".to_string()),
        IpNet::new("10.0.1.2/32".to_string()),
    ]));
    d.push(alice).unwrap();

    let text = to_document(&d);
    assert_eq!(
        text,
        "[relay]\n\
         name=hub\n\
         listen_port=51820\n\
         endpoint_host=hub.example\n\
         endpoint_port=51820\n\
         [peer]\n\
         name=alice\n\
         address=10.0.0.2/32,10.0.1.2/32\n"
    );
}

#[test]
fn text_without_final_newline_is_malformed() {
    assert_eq!(
        from_document("[relay]\nname=hub"),
        Err(StoreError::MalformedDocument)
    );
}

#[test]
fn unknown_key_is_malformed() {
    assert_eq!(
        from_document("[relay]\nname=hub\ncolor=blue\n"),
        Err(StoreError::MalformedDocument)
    );
}

#[test]
fn bad_port_value_is_malformed() {
    assert_eq!(
        from_document("[relay]\nname=hub\nlisten_port=99999999\n"),
        Err(StoreError::MalformedDocument)
    );
    assert_eq!(
        from_document("[relay]\nname=hub\nlisten_port=abc\n"),
        Err(StoreError::MalformedDocument)
    );
}

#[test]
fn half_an_endpoint_is_malformed() {
    assert_eq!(
        from_document("[relay]\nname=hub\nendpoint_host=hub.example\n"),
        Err(StoreError::MalformedDocument)
    );
}

#[test]
fn missing_peer_header_is_malformed() {
    assert_eq!(
        from_document("name=alice\n"),
        Err(StoreError::MalformedDocument)
    );
}

#[test]
fn hook_text_with_equals_sign_survives_the_round_trip() {
    let mut d = Directory::new();
    d.designate_relay(named("hub"));
    let mut bob = named("bob");
    bob.with_pre_down(Some("echo value = with equals sign".to_string()));
    d.push(bob).unwrap();
    let back = from_document(&to_document(&d)).unwrap();
    assert_eq!(
        back.get_by_name("bob").unwrap().pre_down,
        Some("echo value = with equals sign".to_string())
    );
}

#[test]
fn parsed_relay_and_peers_carry_their_relay_marks() {
    let back = from_document("[relay]\nname=hub\n[peer]\nname=alice\n").unwrap();
    assert!(back.relay.as_ref().unwrap().relay);
    assert!(!back.list_peers()[0].relay);
}

#[test]
fn a_corrupted_store_with_twin_names_is_caught_on_update() {
    let mut d =
        from_document("[relay]\nname=hub\n[peer]\nname=alice\n[peer]\nname=alice\n").unwrap();
    let mut update = named("alice");
    update.with_mtu(Some(1400));
    assert_eq!(
        d.push(update),
        Err(wgsdc::DirectoryError::DuplicateName)
    );
    assert_eq!(d.list_peers().len(), 2);
}
