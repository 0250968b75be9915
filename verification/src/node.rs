//! Nodes of the overlay network: the relay and the ordinary peers.

use vstd::prelude::*;
use crate::net::IpNet;

verus! {

/// The reachable address of a node: a host and a port.
#[derive(Debug, PartialEq, Eq)]
pub struct Endpoint {
    pub address: String,
    pub port: u16,
}

/// Mathematical value of an [`Endpoint`].
pub ghost struct EndpointView {
    pub address: Seq<char>,
    pub port: u16,
}

impl View for Endpoint {
    type V = EndpointView;

    open spec fn view(&self) -> EndpointView {
        EndpointView { address: self.address@, port: self.port }
    }
}

impl Clone for Endpoint {
    fn clone(&self) -> (r: Self)
        ensures
            r == *self,
    {
        Endpoint { address: self.address.clone(), port: self.port }
    }
}

impl Endpoint {
    /// Pairs a host with a port.
    pub fn new(addr: String, port: u16) -> (r: Self)
        ensures
            r.address == addr,
            r.port == port,
    {
        Endpoint { address: addr, port }
    }
}

/// One participant of the overlay network.
///
/// Every field but `relay` is optional; a node stored in a directory is
/// expected to carry at least a name.
#[derive(Debug, PartialEq, Eq)]
pub struct Node {
    /// Whether this node is the relay (hub) of the network.
    pub relay: bool,
    /// Unique name of the node.
    pub name: Option<String>,
    /// The node's own tunnel address(es).
    pub address: Option<Vec<IpNet>>,
    /// Public key; write-once across merges.
    pub public_key: Option<String>,
    /// Private key; write-once across merges.
    pub private_key: Option<String>,
    /// Listen port (meaningful for the relay).
    pub listen_port: Option<u16>,
    /// Networks this node's traffic may traverse.
    pub allowed_ips: Option<Vec<IpNet>>,
    /// Networks the relay should additionally route toward this peer.
    pub endpoint_allowed_ips: Option<Vec<IpNet>>,
    /// Keepalive interval in seconds.
    pub persistent_keepalive: Option<u16>,
    /// Reachable address of the node (set for the relay).
    pub endpoint: Option<Endpoint>,
    /// Interface MTU.
    pub mtu: Option<u16>,
    /// PreUp hook, carried through unchanged.
    pub pre_up: Option<String>,
    /// PostUp hook, carried through unchanged.
    pub post_up: Option<String>,
    /// PreDown hook, carried through unchanged.
    pub pre_down: Option<String>,
    /// PostDown hook, carried through unchanged.
    pub post_down: Option<String>,
}

/// Mathematical value of a [`Node`].
#[verifier::ext_equal]
pub ghost struct NodeView {
    pub relay: bool,
    pub name: Option<Seq<char>>,
    pub address: Option<Seq<Seq<char>>>,
    pub public_key: Option<Seq<char>>,
    pub private_key: Option<Seq<char>>,
    pub listen_port: Option<u16>,
    pub allowed_ips: Option<Seq<Seq<char>>>,
    pub endpoint_allowed_ips: Option<Seq<Seq<char>>>,
    pub persistent_keepalive: Option<u16>,
    pub endpoint: Option<EndpointView>,
    pub mtu: Option<u16>,
    pub pre_up: Option<Seq<char>>,
    pub post_up: Option<Seq<char>>,
    pub pre_down: Option<Seq<char>>,
    pub post_down: Option<Seq<char>>,
}

/// View of an optional string.
pub open spec fn opt_str_view(o: Option<String>) -> Option<Seq<char>> {
    match o {
        Some(s) => Some(s@),
        None => None,
    }
}

/// View of an optional list of network values.
pub open spec fn opt_nets_view(o: Option<Vec<IpNet>>) -> Option<Seq<Seq<char>>> {
    match o {
        Some(v) => Some(v@.map_values(|x: IpNet| x@)),
        None => None,
    }
}

/// View of an optional endpoint.
pub open spec fn opt_endpoint_view(o: Option<Endpoint>) -> Option<EndpointView> {
    match o {
        Some(e) => Some(e@),
        None => None,
    }
}

impl View for Node {
    type V = NodeView;

    open spec fn view(&self) -> NodeView {
        NodeView {
            relay: self.relay,
            name: opt_str_view(self.name),
            address: opt_nets_view(self.address),
            public_key: opt_str_view(self.public_key),
            private_key: opt_str_view(self.private_key),
            listen_port: self.listen_port,
            allowed_ips: opt_nets_view(self.allowed_ips),
            endpoint_allowed_ips: opt_nets_view(self.endpoint_allowed_ips),
            persistent_keepalive: self.persistent_keepalive,
            endpoint: opt_endpoint_view(self.endpoint),
            mtu: self.mtu,
            pre_up: opt_str_view(self.pre_up),
            post_up: opt_str_view(self.post_up),
            pre_down: opt_str_view(self.pre_down),
            post_down: opt_str_view(self.post_down),
        }
    }
}

/// View of a sequence of nodes.
pub open spec fn nodes_view(s: Seq<Node>) -> Seq<NodeView> {
    s.map_values(|n: Node| n@)
}

/// Whether the optional string holds exactly the given name.
pub fn opt_name_is(o: &Option<String>, name: &str) -> (r: bool)
    ensures
        r == (opt_str_view(*o) == Some(name@)),
{
    match o {
        Some(s) => crate::text::str_eq(s.as_str(), name),
        None => false,
    }
}

/// Compares two optional strings by their characters.
pub fn opt_string_eq(a: &Option<String>, b: &Option<String>) -> (r: bool)
    ensures
        r == (opt_str_view(*a) == opt_str_view(*b)),
{
    match (a, b) {
        (Some(x), Some(y)) => crate::text::str_eq(x.as_str(), y.as_str()),
        (None, None) => true,
        _ => false,
    }
}

/// Clones an optional string.
pub fn clone_opt_string(o: &Option<String>) -> (r: Option<String>)
    ensures
        r == *o,
{
    match o {
        Some(s) => Some(s.clone()),
        None => None,
    }
}

/// Clones a list of network values.
pub fn clone_nets(v: &Vec<IpNet>) -> (r: Vec<IpNet>)
    ensures
        r@ == v@,
{
    let mut r: Vec<IpNet> = Vec::new();
    let mut i: usize = 0;
    while i < v.len()
        invariant
            i <= v@.len(),
            r@ == v@.subrange(0, i as int),
        decreases v@.len() - i,
    {
        r.push(v[i].clone());
        i = i + 1;
        proof {
            assert(r@ =~= v@.subrange(0, i as int));
        }
    }
    proof {
        assert(r@ =~= v@);
    }
    r
}

/// Clones an optional list of network values.
pub fn clone_opt_nets(o: &Option<Vec<IpNet>>) -> (r: Option<Vec<IpNet>>)
    ensures
        r is Some <==> *o is Some,
        r is Some ==> r.unwrap()@ == o.unwrap()@,
{
    match o {
        Some(v) => Some(clone_nets(v)),
        None => None,
    }
}

/// Clones an optional endpoint.
pub fn clone_opt_endpoint(o: &Option<Endpoint>) -> (r: Option<Endpoint>)
    ensures
        r == *o,
{
    match o {
        Some(e) => Some(e.clone()),
        None => None,
    }
}

impl Clone for Node {
    fn clone(&self) -> (r: Self)
        ensures
            r@ == self@,
            r.relay == self.relay,
            r.name == self.name,
            r.public_key == self.public_key,
            r.private_key == self.private_key,
            r.listen_port == self.listen_port,
            r.persistent_keepalive == self.persistent_keepalive,
            r.endpoint == self.endpoint,
            r.mtu == self.mtu,
            r.pre_up == self.pre_up,
            r.post_up == self.post_up,
            r.pre_down == self.pre_down,
            r.post_down == self.post_down,
    {
        Node {
            relay: self.relay,
            name: clone_opt_string(&self.name),
            address: clone_opt_nets(&self.address),
            public_key: clone_opt_string(&self.public_key),
            private_key: clone_opt_string(&self.private_key),
            listen_port: self.listen_port,
            allowed_ips: clone_opt_nets(&self.allowed_ips),
            endpoint_allowed_ips: clone_opt_nets(&self.endpoint_allowed_ips),
            persistent_keepalive: self.persistent_keepalive,
            endpoint: clone_opt_endpoint(&self.endpoint),
            mtu: self.mtu,
            pre_up: clone_opt_string(&self.pre_up),
            post_up: clone_opt_string(&self.post_up),
            pre_down: clone_opt_string(&self.pre_down),
            post_down: clone_opt_string(&self.post_down),
        }
    }
}

impl Default for Node {
    /// A node with no field set.
    fn default() -> (r: Self)
        ensures
            !r.relay,
            r.name is None,
            r.address is None,
            r.public_key is None,
            r.private_key is None,
            r.listen_port is None,
            r.allowed_ips is None,
            r.endpoint_allowed_ips is None,
            r.persistent_keepalive is None,
            r.endpoint is None,
            r.mtu is None,
            r.pre_up is None,
            r.post_up is None,
            r.pre_down is None,
            r.post_down is None,
    {
        Node {
            relay: false,
            name: None,
            address: None,
            public_key: None,
            private_key: None,
            listen_port: None,
            allowed_ips: None,
            endpoint_allowed_ips: None,
            persistent_keepalive: None,
            endpoint: None,
            mtu: None,
            pre_up: None,
            post_up: None,
            pre_down: None,
            post_down: None,
        }
    }
}

impl Node {
    /// Marks or unmarks this node as the relay.
    pub fn with_relay(&mut self, relay: bool)
        ensures
            *final(self) == (Node { relay, ..*old(self) }),
    {
        self.relay = relay;
    }

    /// Replaces the node's name.
    pub fn with_name(&mut self, name: Option<String>)
        ensures
            *final(self) == (Node { name, ..*old(self) }),
    {
        self.name = name;
    }

    /// Replaces the node's tunnel address list.
    pub fn with_address(&mut self, address: Option<Vec<IpNet>>)
        ensures
            *final(self) == (Node { address, ..*old(self) }),
    {
        self.address = address;
    }

    /// Replaces the node's public key.
    pub fn with_public_key(&mut self, public_key: Option<String>)
        ensures
            *final(self) == (Node { public_key, ..*old(self) }),
    {
        self.public_key = public_key;
    }

    /// Replaces the node's private key.
    pub fn with_private_key(&mut self, private_key: Option<String>)
        ensures
            *final(self) == (Node { private_key, ..*old(self) }),
    {
        self.private_key = private_key;
    }

    /// Replaces the node's listen port.
    pub fn with_listen_port(&mut self, listen_port: Option<u16>)
        ensures
            *final(self) == (Node { listen_port, ..*old(self) }),
    {
        self.listen_port = listen_port;
    }

    /// Replaces the node's allowed networks.
    pub fn with_allowed_ips(&mut self, allowed_ips: Option<Vec<IpNet>>)
        ensures
            *final(self) == (Node { allowed_ips, ..*old(self) }),
    {
        self.allowed_ips = allowed_ips;
    }

    /// Replaces the networks the relay routes toward this peer.
    pub fn with_endpoint_allowed_ips(&mut self, endpoint_allowed_ips: Option<Vec<IpNet>>)
        ensures
            *final(self) == (Node { endpoint_allowed_ips, ..*old(self) }),
    {
        self.endpoint_allowed_ips = endpoint_allowed_ips;
    }

    /// Replaces the keepalive interval.
    pub fn with_persistent_keepalive(&mut self, persistent_keepalive: Option<u16>)
        ensures
            *final(self) == (Node { persistent_keepalive, ..*old(self) }),
    {
        self.persistent_keepalive = persistent_keepalive;
    }

    /// Replaces the node's endpoint.
    pub fn with_endpoint(&mut self, endpoint: Option<Endpoint>)
        ensures
            *final(self) == (Node { endpoint, ..*old(self) }),
    {
        self.endpoint = endpoint;
    }

    /// Replaces the node's MTU.
    pub fn with_mtu(&mut self, mtu: Option<u16>)
        ensures
            *final(self) == (Node { mtu, ..*old(self) }),
    {
        self.mtu = mtu;
    }

    /// Replaces the PreUp hook.
    pub fn with_pre_up(&mut self, pre_up: Option<String>)
        ensures
            *final(self) == (Node { pre_up, ..*old(self) }),
    {
        self.pre_up = pre_up;
    }

    /// Replaces the PostUp hook.
    pub fn with_post_up(&mut self, post_up: Option<String>)
        ensures
            *final(self) == (Node { post_up, ..*old(self) }),
    {
        self.post_up = post_up;
    }

    /// Replaces the PreDown hook.
    pub fn with_pre_down(&mut self, pre_down: Option<String>)
        ensures
            *final(self) == (Node { pre_down, ..*old(self) }),
    {
        self.pre_down = pre_down;
    }

    /// Replaces the PostDown hook.
    pub fn with_post_down(&mut self, post_down: Option<String>)
        ensures
            *final(self) == (Node { post_down, ..*old(self) }),
    {
        self.post_down = post_down;
    }

    /// The node's name; only defined for named nodes.
    pub fn name(&self) -> (r: &str)
        requires
            self.name is Some,
        ensures
            r@ == self@.name.unwrap(),
    {
        match &self.name {
            Some(s) => s.as_str(),
            None => {
                proof {
                    assert(false);
                }
                ""
            },
        }
    }
}

} // verus!
