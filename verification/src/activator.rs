//! The interface activator: the sequenced steps that bring one
//! network interface up.
//!
//! The activator is a builder over one interface's settings, a plan of
//! ordered actions, and bookkeeping over the outcomes the host reports
//! back.  The host performs each action against the operating system
//! and feeds the outcome in; address steps follow a
//! continue-and-collect policy, and re-applying an address that is
//! already present is accepted.

use vstd::prelude::*;
use crate::net::IpNet;
use crate::node::clone_nets;

verus! {

/// An opaque key value in its textual (base64) form.
#[derive(Debug, PartialEq, Eq)]
pub struct Key {
    pub value: String,
}

impl Clone for Key {
    fn clone(&self) -> (r: Self)
        ensures
            r == *self,
    {
        Key { value: self.value.clone() }
    }
}

impl Key {
    /// Wraps a textual key value.
    pub fn new(value: String) -> (r: Key)
        ensures
            r.value == value,
    {
        Key { value }
    }

    /// The all-zero key, used to unset a device key.
    pub fn zero() -> (r: Key)
        ensures
            r.value@ == "AAAAAAAAAAAAAAAAAAAAAAAAAAAAAAAAAAAAAAAAAAA="@,
    {
        Key { value: String::from_str("AAAAAAAAAAAAAAAAAAAAAAAAAAAAAAAAAAAAAAAAAAA=") }
    }
}

/// An asymmetric key pair handed to the device.
#[derive(Debug, PartialEq, Eq)]
pub struct KeyPair {
    pub public: Key,
    pub private: Key,
}

/// The settings of one peer as handed to the device.
#[derive(Debug, PartialEq, Eq)]
pub struct PeerConfigBuilder {
    /// The peer's public key.
    pub public_key: Key,
    /// The networks routed to the peer.
    pub allowed_ips: Vec<IpNet>,
    /// The peer's reachable address, if known.
    pub endpoint: Option<crate::node::Endpoint>,
    /// Keepalive interval in seconds.
    pub persistent_keepalive: Option<u16>,
    /// Whether the device should drop this peer instead.
    pub remove_me: bool,
}

impl Clone for PeerConfigBuilder {
    fn clone(&self) -> (r: Self)
        ensures
            r.public_key == self.public_key,
            r.allowed_ips@ == self.allowed_ips@,
            r.endpoint == self.endpoint,
            r.persistent_keepalive == self.persistent_keepalive,
            r.remove_me == self.remove_me,
    {
        PeerConfigBuilder {
            public_key: self.public_key.clone(),
            allowed_ips: clone_nets(&self.allowed_ips),
            endpoint: crate::node::clone_opt_endpoint(&self.endpoint),
            persistent_keepalive: self.persistent_keepalive,
            remove_me: self.remove_me,
        }
    }
}

impl PeerConfigBuilder {
    /// Settings for the peer with the given public key, with nothing
    /// else set.
    pub fn new(pubkey: &Key) -> (r: Self)
        ensures
            r.public_key == *pubkey,
            r.allowed_ips@.len() == 0,
            r.endpoint is None,
            r.persistent_keepalive is None,
            !r.remove_me,
    {
        PeerConfigBuilder {
            public_key: pubkey.clone(),
            allowed_ips: Vec::new(),
            endpoint: None,
            persistent_keepalive: None,
            remove_me: false,
        }
    }
}

/// Why the interface name cannot be used.
#[derive(Debug, Clone, Copy, PartialEq, Eq, Structural)]
pub enum InvalidInterfaceName {
    /// The name is empty or longer than fifteen characters.
    BadLength,
    /// The name holds a slash or whitespace.
    BadCharacter,
}

/// Whether an interface name is acceptable: one to fifteen
/// characters, none of them a slash or whitespace.
pub open spec fn valid_interface_name(s: Seq<char>) -> bool {
    &&& 1 <= s.len() <= 15
    &&& forall|i: int|
        0 <= i < s.len() ==> #[trigger] s[i] != '/' && s[i] != ' ' && s[i] != '\n' && s[i] != '\t'
}

/// Errors of the activation steps.
#[derive(Debug, PartialEq, Eq)]
pub enum ActivationError {
    /// No handle for the interface could be obtained.
    HandleUnavailable,
    /// The device backend rejected the settings.
    DeviceRejected,
    /// Assigning the given address failed.
    AddressAssignFailed(IpNet),
    /// Installing the route for the given address failed.
    RouteInstallFailed(IpNet),
}

/// One action of the activation sequence, to be performed against the
/// operating system by the host.
#[derive(Debug, PartialEq, Eq)]
pub enum ActivationAction {
    /// Obtain or create the device handle for the named interface.
    ResolveHandle(String),
    /// Push the device-level settings: keys, listen port, peer set.
    PushDeviceSettings,
    /// Apply the interface's MTU.
    SetMtu(u32),
    /// Assign the address to the interface.
    AssignAddress(IpNet),
    /// Install the route for the address's network.
    InstallRoute(IpNet),
}

/// What the host reports back for one action.
#[derive(Debug, Clone, Copy, PartialEq, Eq, Structural)]
pub enum StepOutcome {
    /// The action was performed.
    Done,
    /// The state was already in place; nothing was changed.
    AlreadyPresent,
    /// The action failed.
    Failed,
}

/// The builder for one interface's settings.
#[derive(Debug, PartialEq, Eq)]
pub struct WgQuick {
    /// The interface's name.
    pub interface: String,
    /// The addresses to assign, in order.
    pub cidr: Vec<IpNet>,
    /// The interface's MTU.
    pub mtu: u32,
    /// The device's public key, if it is to be set.
    pub public_key: Option<Key>,
    /// The device's private key, if it is to be set.
    pub private_key: Option<Key>,
    /// The device's listen port, if it is to be set.
    pub listen_port: Option<u16>,
    /// The peer settings to hand to the device.
    pub peers: Vec<PeerConfigBuilder>,
    /// Whether the device's peer set is replaced atomically rather
    /// than merged.
    pub replace_peers: bool,
}

impl WgQuick {
    /// A fresh builder for the named interface, with the default MTU
    /// and nothing else set.  Fails when the name is unusable.
    pub fn new(name: &str) -> (r: Result<WgQuick, InvalidInterfaceName>)
        ensures
            r is Ok <==> valid_interface_name(name@),
            r is Ok ==> ({
                let q = r.unwrap();
                &&& q.interface@ == name@
                &&& q.cidr@.len() == 0
                &&& q.mtu == 1420
                &&& q.public_key is None
                &&& q.private_key is None
                &&& q.listen_port is None
                &&& q.peers@.len() == 0
                &&& !q.replace_peers
            }),
    {
        let n = name.unicode_len();
        if n == 0 || n > 15 {
            return Err(InvalidInterfaceName::BadLength);
        }
        let mut i: usize = 0;
        while i < n
            invariant
                i <= n,
                n == name@.len(),
                forall|k: int|
                    0 <= k < i ==> #[trigger] name@[k] != '/' && name@[k] != ' ' && name@[k] != '\n'
                        && name@[k] != '\t',
            decreases n - i,
        {
            let c = name.get_char(i);
            if c == '/' || c == ' ' || c == '\n' || c == '\t' {
                return Err(InvalidInterfaceName::BadCharacter);
            }
            i = i + 1;
        }
        Ok(
            WgQuick {
                interface: String::from_str(name),
                cidr: Vec::new(),
                mtu: 1420,
                public_key: None,
                private_key: None,
                listen_port: None,
                peers: Vec::new(),
                replace_peers: false,
            },
        )
    }

    /// Sets both device keys.
    pub fn set_keypair(self, keypair: KeyPair) -> (r: Self)
        ensures
            r == (WgQuick {
                public_key: Some(keypair.public),
                private_key: Some(keypair.private),
                ..self
            }),
    {
        let KeyPair { public, private } = keypair;
        self.set_public_key(public).set_private_key(private)
    }

    /// Sets the device's public key.
    pub fn set_public_key(self, key: Key) -> (r: Self)
        ensures
            r == (WgQuick { public_key: Some(key), ..self }),
    {
        WgQuick { public_key: Some(key), ..self }
    }

    /// Appends one address to assign.
    pub fn set_address(self, address: IpNet) -> (r: Self)
        ensures
            r.cidr@ == self.cidr@.push(address),
            r == (WgQuick { cidr: r.cidr, ..self }),
    {
        let mut q = self;
        q.cidr.push(address);
        q
    }

    /// Appends every address of the list, in order.
    pub fn set_address_list(self, address_list: &[IpNet]) -> (r: Self)
        ensures
            r.cidr@ == self.cidr@ + address_list@,
            r == (WgQuick { cidr: r.cidr, ..self }),
    {
        let mut q = self;
        let n = address_list.len();
        let ghost base = q.cidr@;
        let mut i: usize = 0;
        while i < n
            invariant
                i <= n,
                n == address_list@.len(),
                q.cidr@ == base + address_list@.subrange(0, i as int),
                q == (WgQuick { cidr: q.cidr, ..self }),
                base == self.cidr@,
            decreases n - i,
        {
            let item = address_list[i].clone();
            q.cidr.push(item);
            proof {
                assert(q.cidr@ =~= base + address_list@.subrange(0, i as int + 1));
            }
            i = i + 1;
        }
        proof {
            assert(address_list@.subrange(0, n as int) =~= address_list@);
        }
        q
    }

    /// Clears the device's public key by setting the all-zero key.
    pub fn unset_public_key(self) -> (r: Self)
        ensures
            r.public_key is Some,
            r.public_key.unwrap().value@ == "AAAAAAAAAAAAAAAAAAAAAAAAAAAAAAAAAAAAAAAAAAA="@,
            r == (WgQuick { public_key: r.public_key, ..self }),
    {
        self.set_public_key(Key::zero())
    }

    /// Sets the device's private key.
    pub fn set_private_key(self, key: Key) -> (r: Self)
        ensures
            r == (WgQuick { private_key: Some(key), ..self }),
    {
        WgQuick { private_key: Some(key), ..self }
    }

    /// Clears the device's private key by setting the all-zero key.
    pub fn unset_private_key(self) -> (r: Self)
        ensures
            r.private_key is Some,
            r.private_key.unwrap().value@ == "AAAAAAAAAAAAAAAAAAAAAAAAAAAAAAAAAAAAAAAAAAA="@,
            r == (WgQuick { private_key: r.private_key, ..self }),
    {
        self.set_private_key(Key::zero())
    }

    /// Sets the device's listen port.
    pub fn set_listen_port(self, port: u16) -> (r: Self)
        ensures
            r == (WgQuick { listen_port: Some(port), ..self }),
    {
        WgQuick { listen_port: Some(port), ..self }
    }

    /// Asks the device to pick a listen port, by setting port zero.
    pub fn randomize_listen_port(self) -> (r: Self)
        ensures
            r == (WgQuick { listen_port: Some(0u16), ..self }),
    {
        self.set_listen_port(0)
    }

    /// Appends one peer's settings.
    pub fn add_peer(self, peer: PeerConfigBuilder) -> (r: Self)
        ensures
            r.peers@ == self.peers@.push(peer),
            r == (WgQuick { peers: r.peers, ..self }),
    {
        let mut q = self;
        q.peers.push(peer);
        q
    }

    /// Appends one peer built from its public key by the given
    /// builder.
    pub fn add_peer_with<F: Fn(PeerConfigBuilder) -> PeerConfigBuilder>(
        self,
        pubkey: &Key,
        builder: F,
    ) -> (r: Self)
        requires
            forall|p: PeerConfigBuilder| builder.requires((p,)),
        ensures
            r.peers@.len() == self.peers@.len() + 1,
            r.peers@.subrange(0, self.peers@.len() as int) == self.peers@,
            exists|p0: PeerConfigBuilder|
                p0.public_key == *pubkey && p0.allowed_ips@.len() == 0 && p0.endpoint is None
                    && p0.persistent_keepalive is None && !p0.remove_me && builder.ensures(
                    (p0,),
                    #[trigger] r.peers@.last(),
                ),
            r == (WgQuick { peers: r.peers, ..self }),
    {
        let start = PeerConfigBuilder::new(pubkey);
        let ghost p0 = start;
        let built = builder(start);
        let r = self.add_peer(built);
        proof {
            assert(r.peers@.subrange(0, r.peers@.len() - 1) =~= r.peers@.drop_last());
            assert(r.peers@.last() == built);
            assert(builder.ensures((p0,), built));
        }
        r
    }

    /// Appends every peer of the list, in order.
    pub fn add_peers(self, peers: &[PeerConfigBuilder]) -> (r: Self)
        ensures
            r.peers@.len() == self.peers@.len() + peers@.len(),
            r.peers@.subrange(0, self.peers@.len() as int) == self.peers@,
            r == (WgQuick { peers: r.peers, ..self }),
    {
        let mut q = self;
        let n = peers.len();
        let ghost base = q.peers@;
        let mut i: usize = 0;
        while i < n
            invariant
                i <= n,
                n == peers@.len(),
                q.peers@.len() == base.len() + i,
                q.peers@.subrange(0, base.len() as int) == base,
                q == (WgQuick { peers: q.peers, ..self }),
                base == self.peers@,
            decreases n - i,
        {
            let item = peers[i].clone();
            q.peers.push(item);
            proof {
                assert(q.peers@.subrange(0, base.len() as int) =~= base);
            }
            i = i + 1;
        }
        q
    }

    /// Asks the device to replace its whole peer set atomically.
    pub fn replace_peers(self) -> (r: Self)
        ensures
            r == (WgQuick { replace_peers: true, ..self }),
    {
        WgQuick { replace_peers: true, ..self }
    }

    /// Appends a removal entry for the peer with the given key.
    pub fn remove_peer_by_key(self, public_key: &Key) -> (r: Self)
        ensures
            r.peers@.len() == self.peers@.len() + 1,
            r.peers@.subrange(0, self.peers@.len() as int) == self.peers@,
            r.peers@.last().public_key == *public_key,
            r.peers@.last().remove_me,
            r == (WgQuick { peers: r.peers, ..self }),
    {
        let mut peer = PeerConfigBuilder::new(public_key);
        peer.remove_me = true;
        let r = self.add_peer(peer);
        proof {
            assert(r.peers@.subrange(0, r.peers@.len() - 1) =~= r.peers@.drop_last());
        }
        r
    }

    /// The ordered activation plan: resolve the device handle, push
    /// the device settings, set the MTU, then, for each address in
    /// declaration order, assign it and install its route.
    pub fn apply(&self) -> (plan: Vec<ActivationAction>)
        ensures
            plan@.len() == 3 + 2 * self.cidr@.len(),
            plan@[0] == ActivationAction::ResolveHandle(self.interface),
            plan@[1] == ActivationAction::PushDeviceSettings,
            plan@[2] == ActivationAction::SetMtu(self.mtu),
            forall|i: int|
                0 <= i < self.cidr@.len() ==> ((#[trigger] plan@[3 + 2 * i]) matches
                    ActivationAction::AssignAddress(a) && a@ == self.cidr@[i]@),
            forall|i: int|
                0 <= i < self.cidr@.len() ==> ((#[trigger] plan@[4 + 2 * i]) matches
                    ActivationAction::InstallRoute(a) && a@ == self.cidr@[i]@),
    {
        let mut plan: Vec<ActivationAction> = Vec::new();
        plan.push(ActivationAction::ResolveHandle(self.interface.clone()));
        plan.push(ActivationAction::PushDeviceSettings);
        plan.push(ActivationAction::SetMtu(self.mtu));
        let n = self.cidr.len();
        let mut i: usize = 0;
        while i < n
            invariant
                i <= n,
                n == self.cidr@.len(),
                plan@.len() == 3 + 2 * i,
                plan@[0] == ActivationAction::ResolveHandle(self.interface),
                plan@[1] == ActivationAction::PushDeviceSettings,
                plan@[2] == ActivationAction::SetMtu(self.mtu),
                forall|k: int|
                    0 <= k < i ==> ((#[trigger] plan@[3 + 2 * k]) matches
                        ActivationAction::AssignAddress(a) && a@ == self.cidr@[k]@),
                forall|k: int|
                    0 <= k < i ==> ((#[trigger] plan@[4 + 2 * k]) matches
                        ActivationAction::InstallRoute(a) && a@ == self.cidr@[k]@),
            decreases n - i,
        {
            plan.push(ActivationAction::AssignAddress(self.cidr[i].clone()));
            plan.push(ActivationAction::InstallRoute(self.cidr[i].clone()));
            i = i + 1;
        }
        plan
    }
}

/// The set of values already applied, as their texts: inserting an
/// existing value changes nothing.
pub open spec fn spec_insert(s: Seq<Seq<char>>, x: Seq<char>) -> Seq<Seq<char>> {
    if crate::net::texts_contain(s, x) {
        s
    } else {
        s.push(x)
    }
}

/// Applying the same value twice leaves a single entry: the second
/// application changes nothing.  This is the idempotence of address
/// assignment and route installation under re-apply.
pub proof fn lemma_reapply_is_idempotent(s: Seq<Seq<char>>, x: Seq<char>)
    ensures
        spec_insert(spec_insert(s, x), x) == spec_insert(s, x),
{
    let s1 = spec_insert(s, x);
    if !crate::net::texts_contain(s, x) {
        assert(s1[s.len() as int] == x);
        assert(crate::net::texts_contain(s1, x));
    }
}

/// The activator's model of the interface: which addresses are
/// assigned and which routes are installed.
#[derive(Debug, PartialEq, Eq)]
pub struct InterfaceState {
    /// The assigned addresses, each at most once.
    pub addresses: Vec<IpNet>,
    /// The installed routes, each at most once.
    pub routes: Vec<IpNet>,
}

impl InterfaceState {
    /// A fresh interface: nothing assigned, nothing routed.
    pub fn new() -> (r: Self)
        ensures
            r.addresses@.len() == 0,
            r.routes@.len() == 0,
    {
        InterfaceState { addresses: Vec::new(), routes: Vec::new() }
    }

    /// Records an address as assigned; an address already present is
    /// left alone, so re-applying is accepted and never doubles an
    /// entry.
    pub fn record_address(&mut self, addr: &IpNet)
        ensures
            final(self).addresses@.map_values(|n: IpNet| n@) == spec_insert(
                old(self).addresses@.map_values(|n: IpNet| n@),
                addr@,
            ),
            final(self).routes == old(self).routes,
    {
        let ghost views = self.addresses@.map_values(|n: IpNet| n@);
        let n = self.addresses.len();
        let mut i: usize = 0;
        while i < n
            invariant
                i <= n,
                n == self.addresses@.len(),
                *self == *old(self),
                views == self.addresses@.map_values(|n: IpNet| n@),
                forall|k: int| 0 <= k < i ==> views[k] != addr@,
            decreases n - i,
        {
            proof {
                assert(views[i as int] == self.addresses@[i as int]@);
            }
            if crate::text::str_eq(self.addresses[i].value.as_str(), addr.value.as_str()) {
                proof {
                    assert(crate::net::texts_contain(views, addr@));
                }
                return ;
            }
            i = i + 1;
        }
        let ghost a0 = self.addresses@;
        self.addresses.push(addr.clone());
        proof {
            assert(!crate::net::texts_contain(views, addr@));
            assert(self.addresses@.map_values(|n: IpNet| n@) =~= views.push(addr@));
        }
    }

    /// Records a route as installed, with the same idempotence as
    /// [`Self::record_address`].
    pub fn record_route(&mut self, addr: &IpNet)
        ensures
            final(self).routes@.map_values(|n: IpNet| n@) == spec_insert(
                old(self).routes@.map_values(|n: IpNet| n@),
                addr@,
            ),
            final(self).addresses == old(self).addresses,
    {
        let ghost views = self.routes@.map_values(|n: IpNet| n@);
        let n = self.routes.len();
        let mut i: usize = 0;
        while i < n
            invariant
                i <= n,
                n == self.routes@.len(),
                *self == *old(self),
                views == self.routes@.map_values(|n: IpNet| n@),
                forall|k: int| 0 <= k < i ==> views[k] != addr@,
            decreases n - i,
        {
            proof {
                assert(views[i as int] == self.routes@[i as int]@);
            }
            if crate::text::str_eq(self.routes[i].value.as_str(), addr.value.as_str()) {
                proof {
                    assert(crate::net::texts_contain(views, addr@));
                }
                return ;
            }
            i = i + 1;
        }
        self.routes.push(addr.clone());
        proof {
            assert(!crate::net::texts_contain(views, addr@));
            assert(self.routes@.map_values(|n: IpNet| n@) =~= views.push(addr@));
        }
    }
}

/// Bookkeeping over the reported outcomes of one activation.
#[derive(Debug, PartialEq, Eq)]
pub struct ActivationReport {
    /// The activator's model of the interface.
    pub state: InterfaceState,
    /// The failures collected so far, in order.
    pub failures: Vec<ActivationError>,
}

impl ActivationReport {
    /// A fresh report: nothing applied, nothing failed.
    pub fn new() -> (r: Self)
        ensures
            r.state.addresses@.len() == 0,
            r.state.routes@.len() == 0,
            r.failures@.len() == 0,
    {
        ActivationReport { state: InterfaceState::new(), failures: Vec::new() }
    }

    /// Records the outcome of assigning one address.  A performed or
    /// already-present assignment is accepted without any failure; a
    /// failed one is collected as `AddressAssignFailed` and does not
    /// stop the remaining addresses.
    pub fn record_address_outcome(&mut self, addr: &IpNet, outcome: StepOutcome)
        ensures
            outcome != StepOutcome::Failed ==> final(self).failures == old(self).failures && final(self).state.addresses@.map_values(|n: IpNet| n@) == spec_insert(
                old(self).state.addresses@.map_values(|n: IpNet| n@),
                addr@,
            ) && final(self).state.routes == old(self).state.routes,
            outcome == StepOutcome::Failed ==> final(self).state == old(self).state && final(self).failures@.len() == old(self).failures@.len() + 1 && final(self).failures@.last()
                == ActivationError::AddressAssignFailed(*addr) && final(self).failures@.subrange(0, old(self).failures@.len() as int) == old(self).failures@,
    {
        match outcome {
            StepOutcome::Failed => {
                self.failures.push(ActivationError::AddressAssignFailed(addr.clone()));
                proof {
                    assert(self.failures@.subrange(0, self.failures@.len() - 1)
                        =~= self.failures@.drop_last());
                }
            },
            _ => {
                self.state.record_address(addr);
            },
        }
    }

    /// Records the outcome of installing one route, collecting a
    /// failure as `RouteInstallFailed` under the same policy.
    pub fn record_route_outcome(&mut self, addr: &IpNet, outcome: StepOutcome)
        ensures
            outcome != StepOutcome::Failed ==> final(self).failures == old(self).failures && final(self).state.routes@.map_values(|n: IpNet| n@) == spec_insert(
                old(self).state.routes@.map_values(|n: IpNet| n@),
                addr@,
            ) && final(self).state.addresses == old(self).state.addresses,
            outcome == StepOutcome::Failed ==> final(self).state == old(self).state && final(self).failures@.len() == old(self).failures@.len() + 1 && final(self).failures@.last()
                == ActivationError::RouteInstallFailed(*addr) && final(self).failures@.subrange(
                0,
                old(self).failures@.len() as int,
            ) == old(self).failures@,
    {
        match outcome {
            StepOutcome::Failed => {
                self.failures.push(ActivationError::RouteInstallFailed(addr.clone()));
                proof {
                    assert(self.failures@.subrange(0, self.failures@.len() - 1)
                        =~= self.failures@.drop_last());
                }
            },
            _ => {
                self.state.record_route(addr);
            },
        }
    }

    /// Whether the activation succeeded in full.
    pub fn ok(&self) -> (r: bool)
        ensures
            r == (self.failures@.len() == 0),
    {
        self.failures.len() == 0
    }
}

} // verus!
