use wgsdc::keys::trim_output;
use wgsdc::net::{trunc_net, IpNet};
use wgsdc::parser::{
    parser_address_in_range, parser_host, parser_mtu, parser_port_in_range, verify_port_in_range,
    ParseError,
};
use wgsdc::{Endpoint, Interface, Node, Peer, ProvisioningError, WgKeyPair, WireGuardCommand};

#[test]
fn trim_output_strips_surrounding_whitespace_only() {
    assert_eq!(trim_output("  KEY\n"), "KEY");
    assert_eq!(trim_output("\r\nA B\t"), "A B");
    assert_eq!(trim_output(""), "");
    assert_eq!(trim_output(" \n\t "), "");
}

#[test]
fn output_to_key_rejects_empty_tool_output() {
    assert_eq!(
        WireGuardCommand::output_to_key("KEY\n").unwrap(),
        "KEY".to_string()
    );
    assert_eq!(
        WireGuardCommand::output_to_key("  \n"),
        Err(ProvisioningError::ToolFailed)
    );
}

#[test]
fn build_key_pair_trims_and_optionally_carries_a_psk() {
    let pair = WireGuardCommand::build_key_pair("PUB\n", "PRIV\n", Some("PSK\n")).unwrap();
    assert_eq!(pair.public_key(), "PUB");
    assert_eq!(pair.private_key(), "PRIV");
    assert_eq!(pair.ps_key, Some("PSK".to_string()));
    let bare = WireGuardCommand::build_key_pair("PUB\n", "PRIV\n", None).unwrap();
    assert_eq!(bare.ps_key, None);
    assert_eq!(
        WireGuardCommand::build_key_pair("\n", "PRIV\n", None),
        Err(ProvisioningError::ToolFailed)
    );
}

#[test]
fn key_pair_setters_and_getters() {
    let mut pair = WgKeyPair::new("PUB".to_string(), "PRIV".to_string());
    assert_eq!(pair.public_key(), "PUB");
    assert_eq!(pair.private_key(), "PRIV");
    assert_eq!(pair.ps_key, None);
    pair.set_ps_key(Some("PSK".to_string()));
    assert_eq!(pair.ps_key, Some("PSK".to_string()));
}

#[test]
fn ports_must_be_in_the_unprivileged_range() {
    assert_eq!(parser_port_in_range("51820"), Ok(51820));
    assert_eq!(parser_port_in_range("1024"), Ok(1024));
    assert_eq!(parser_port_in_range("80"), Err(ParseError::BadPort));
    assert_eq!(parser_port_in_range("65536"), Err(ParseError::BadPort));
    assert_eq!(parser_port_in_range("abc"), Err(ParseError::BadPort));
    assert_eq!(parser_port_in_range(""), Err(ParseError::BadPort));
    assert_eq!(verify_port_in_range("51820"), Ok(51820));
}

#[test]
fn mtu_must_fit_sixteen_bits() {
    assert_eq!(parser_mtu("1420"), Ok(1420));
    assert_eq!(parser_mtu("99999"), Err(ParseError::BadMtu));
    assert_eq!(parser_mtu("12a0"), Err(ParseError::BadMtu));
}

#[test]
fn hosts_follow_the_domain_rules() {
    assert_eq!(parser_host("hub.example"), Ok("hub.example".to_string()));
    assert_eq!(parser_host("10.0.0.1"), Ok("10.0.0.1".to_string()));
    assert_eq!(parser_host("nodot"), Err(ParseError::BadHost));
    assert_eq!(parser_host("-bad.example"), Err(ParseError::BadHost));
    assert_eq!(parser_host("bad.example-"), Err(ParseError::BadHost));
    assert_eq!(parser_host("b*d.example"), Err(ParseError::BadHost));
    assert_eq!(parser_host(""), Err(ParseError::BadHost));
}

#[test]
fn address_lists_are_split_and_trimmed() {
    let nets = parser_address_in_range("10.0.0.0/24, 10.0.1.0/24").unwrap();
    assert_eq!(nets.len(), 2);
    assert_eq!(nets[0].value, "10.0.0.0/24");
    assert_eq!(nets[1].value, "10.0.1.0/24");
    assert_eq!(
        parser_address_in_range("not-a-network"),
        Err(ParseError::BadAddress)
    );
    assert_eq!(
        parser_address_in_range("10.0.0.0/24, nope"),
        Err(ParseError::BadAddress)
    );
}

#[test]
fn truncation_clears_the_host_bits_of_ipv4_blocks() {
    let t = |s: &str| trunc_net(&IpNet::new(s.to_string())).value;
    assert_eq!(t("10.0.0.1/24"), "10.0.0.0/24");
    assert_eq!(t("10.0.0.129/25"), "10.0.0.128/25");
    assert_eq!(t("10.0.0.7/32"), "10.0.0.7/32");
    assert_eq!(t("255.255.255.255/0"), "0.0.0.0/0");
    // values that are no canonical IPv4 block pass through unchanged
    assert_eq!(t("fd00::1/64"), "fd00::1/64");
    assert_eq!(t("01.2.3.4/8"), "01.2.3.4/8");
    assert_eq!(t("10.0.0.1"), "10.0.0.1");
    assert_eq!(t("300.0.0.1/8"), "300.0.0.1/8");
}

#[test]
fn interface_carries_a_nodes_own_settings() {
    let mut n = Node::default();
    n.with_name(Some("hub".to_string()));
    n.with_private_key(Some("PRIV".to_string()));
    n.with_address(Some(vec![
        IpNet::new("10.0.0.1/24".to_string()),
        IpNet::new("10.0.1.1/24".to_string()),
    ]));
    n.with_listen_port(Some(51820));
    n.with_mtu(Some(1420));
    n.with_pre_up(Some("echo a".to_string()));
    let i = Interface::from_node(n);
    assert_eq!(i.address().unwrap(), "10.0.0.1/24, 10.0.1.1/24");
    assert_eq!(i.private_key(), Some("PRIV"));
    assert_eq!(i.listen_port(), Some(51820));
    assert_eq!(i.mtu(), Some(1420));
    assert_eq!(i.pre_up(), Some("echo a"));
    assert_eq!(i.post_up(), None);
    assert_eq!(i.pre_down(), None);
    assert_eq!(i.post_down(), None);
}

#[test]
fn interface_builders_replace_fields() {
    let mut i = Interface::default();
    i.with_private_key(Some("PRIV".to_string()));
    i.with_address(Some(vec![IpNet::new("10.0.0.1/24".to_string())]));
    i.with_listen_port(Some(51820));
    i.with_mtu(Some(1400));
    i.with_pre_up(Some("a".to_string()));
    i.with_post_up(Some("b".to_string()));
    i.with_pre_down(Some("c".to_string()));
    i.with_post_down(Some("d".to_string()));
    assert_eq!(i.private_key(), Some("PRIV"));
    assert_eq!(i.mtu(), Some(1400));
    assert_eq!(i.post_down(), Some("d"));
}

#[test]
fn peer_unions_addresses_and_allowed_networks() {
    let mut n = Node::default();
    n.with_name(Some("carol".to_string()));
    n.with_public_key(Some("CAROLKEY".to_string()));
    n.with_address(Some(vec![IpNet::new("10.0.0.7/32".to_string())]));
    n.with_allowed_ips(Some(vec![
        IpNet::new("192.168.0.0/16".to_string()),
        IpNet::new("10.0.0.7/32".to_string()),
    ]));
    n.with_persistent_keepalive(Some(25));
    n.with_endpoint(Some(Endpoint::new("carol.example".to_string(), 1234)));
    let p = Peer::from_node(n);
    assert_eq!(p.allowed_ips().unwrap(), "10.0.0.7/32, 192.168.0.0/16");
    assert_eq!(p.public_key(), Some("CAROLKEY"));
    assert_eq!(p.endpoint().unwrap(), "carol.example:1234");
    assert_eq!(p.persistent_keepalive(), Some(25));
    assert_eq!(p.mtu(), None);
}

#[test]
fn peer_builders_replace_fields() {
    let mut p = Peer::default();
    p.with_public_key(Some("K".to_string()));
    p.with_allowed_ips(Some(vec![IpNet::new("10.0.0.0/24".to_string())]));
    p.with_persistent_keepalive(Some(15));
    p.with_mtu(Some(1300));
    p.with_endpoint(Some(Endpoint::new("h".to_string(), 1)));
    assert_eq!(p.public_key(), Some("K"));
    assert_eq!(p.allowed_ips().unwrap(), "10.0.0.0/24");
    assert_eq!(p.persistent_keepalive(), Some(15));
    assert_eq!(p.mtu(), Some(1300));
    assert_eq!(p.endpoint().unwrap(), "h:1");
}

#[test]
fn ipnet_keeps_its_text() {
    let n = IpNet::new("10.0.0.0/24".to_string());
    assert_eq!(n.as_string(), "10.0.0.0/24");
}
