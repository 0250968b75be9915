use wgsdc::net::IpNet;
use wgsdc::{
    ActivationAction, ActivationError, ActivationReport, Key, KeyPair, PeerConfigBuilder,
    StepOutcome, WgQuick,
};

#[test]
fn new_checks_the_interface_name() {
    assert!(WgQuick::new("wg0").is_ok());
    assert!(WgQuick::new("").is_err());
    assert!(WgQuick::new("anamethatistoolong").is_err());
    assert!(WgQuick::new("bad/name").is_err());
    assert!(WgQuick::new("bad name").is_err());
}

#[test]
fn new_starts_with_defaults() {
    let q = WgQuick::new("wg0").unwrap();
    assert_eq!(q.mtu, 1420);
    assert!(q.cidr.is_empty());
    assert!(q.public_key.is_none());
    assert!(q.private_key.is_none());
    assert!(q.listen_port.is_none());
    assert!(q.peers.is_empty());
    assert!(!q.replace_peers);
}

#[test]
fn builders_fill_the_settings() {
    let q = WgQuick::new("wg0")
        .unwrap()
        .set_keypair(KeyPair {
            public: Key::new("PUB".to_string()),
            private: Key::new("PRIV".to_string()),
        })
        .set_listen_port(51820)
        .set_address(IpNet::new("10.0.0.1/24".to_string()))
        .set_address_list(&[
            IpNet::new("10.0.1.1/24".to_string()),
            IpNet::new("10.0.2.1/24".to_string()),
        ])
        .replace_peers();
    assert_eq!(q.public_key.as_ref().unwrap().value, "PUB");
    assert_eq!(q.private_key.as_ref().unwrap().value, "PRIV");
    assert_eq!(q.listen_port, Some(51820));
    assert_eq!(q.cidr.len(), 3);
    assert_eq!(q.cidr[1].value, "10.0.1.1/24");
    assert!(q.replace_peers);
}

#[test]
fn unset_keys_install_the_zero_key() {
    let q = WgQuick::new("wg0").unwrap().unset_public_key().unset_private_key();
    assert_eq!(
        q.public_key.unwrap().value,
        "AAAAAAAAAAAAAAAAAAAAAAAAAAAAAAAAAAAAAAAAAAA="
    );
    assert_eq!(
        q.private_key.unwrap().value,
        "AAAAAAAAAAAAAAAAAAAAAAAAAAAAAAAAAAAAAAAAAAA="
    );
}

#[test]
fn randomize_listen_port_asks_for_port_zero() {
    let q = WgQuick::new("wg0").unwrap().randomize_listen_port();
    assert_eq!(q.listen_port, Some(0));
}

#[test]
fn peers_can_be_added_built_and_removed() {
    let pk = Key::new("PEERKEY".to_string());
    let q = WgQuick::new("wg0")
        .unwrap()
        .add_peer(PeerConfigBuilder::new(&pk))
        .add_peer_with(&pk, |mut p| {
            p.persistent_keepalive = Some(25);
            p
        })
        .add_peers(&[PeerConfigBuilder::new(&Key::new("OTHER".to_string()))])
        .remove_peer_by_key(&Key::new("GONE".to_string()));
    assert_eq!(q.peers.len(), 4);
    assert_eq!(q.peers[1].persistent_keepalive, Some(25));
    assert!(q.peers[3].remove_me);
    assert_eq!(q.peers[3].public_key.value, "GONE");
}

#[test]
fn the_plan_is_resolve_push_mtu_then_addresses_in_order() {
    let q = WgQuick::new("wg0")
        .unwrap()
        .set_address(IpNet::new("10.0.0.1/24".to_string()))
        .set_address(IpNet::new("10.0.1.1/24".to_string()));
    let plan = q.apply();
    assert_eq!(plan.len(), 7);
    assert_eq!(plan[0], ActivationAction::ResolveHandle("wg0".to_string()));
    assert_eq!(plan[1], ActivationAction::PushDeviceSettings);
    assert_eq!(plan[2], ActivationAction::SetMtu(1420));
    assert_eq!(
        plan[3],
        ActivationAction::AssignAddress(IpNet::new("10.0.0.1/24".to_string()))
    );
    assert_eq!(
        plan[4],
        ActivationAction::InstallRoute(IpNet::new("10.0.0.1/24".to_string()))
    );
    assert_eq!(
        plan[5],
        ActivationAction::AssignAddress(IpNet::new("10.0.1.1/24".to_string()))
    );
    assert_eq!(
        plan[6],
        ActivationAction::InstallRoute(IpNet::new("10.0.1.1/24".to_string()))
    );
}

#[test]
fn reapplying_an_address_is_accepted_and_never_doubles_entries() {
    let addr = IpNet::new("10.0.0.1/24".to_string());
    let mut report = ActivationReport::new();
    report.record_address_outcome(&addr, StepOutcome::Done);
    report.record_route_outcome(&addr, StepOutcome::Done);
    // the second application: the host reports the state as already
    // in place, which counts as success
    report.record_address_outcome(&addr, StepOutcome::AlreadyPresent);
    report.record_route_outcome(&addr, StepOutcome::AlreadyPresent);
    assert!(report.ok());
    assert_eq!(report.state.addresses.len(), 1);
    assert_eq!(report.state.routes.len(), 1);
}

#[test]
fn a_failed_address_is_collected_and_the_rest_continue() {
    let good = IpNet::new("10.0.0.1/24".to_string());
    let bad = IpNet::new("10.0.1.1/24".to_string());
    let next = IpNet::new("10.0.2.1/24".to_string());
    let mut report = ActivationReport::new();
    report.record_address_outcome(&good, StepOutcome::Done);
    report.record_route_outcome(&good, StepOutcome::Done);
    report.record_address_outcome(&bad, StepOutcome::Failed);
    report.record_address_outcome(&next, StepOutcome::Done);
    report.record_route_outcome(&next, StepOutcome::Failed);
    assert!(!report.ok());
    assert_eq!(report.failures.len(), 2);
    assert_eq!(
        report.failures[0],
        ActivationError::AddressAssignFailed(IpNet::new("10.0.1.1/24".to_string()))
    );
    assert_eq!(
        report.failures[1],
        ActivationError::RouteInstallFailed(IpNet::new("10.0.2.1/24".to_string()))
    );
    assert_eq!(report.state.addresses.len(), 2);
    assert_eq!(report.state.routes.len(), 1);
}
