//! The two stanza shapes of generated configuration: a node's own
//! `[Interface]` settings and another node's `[Peer]` entry.

use vstd::prelude::*;
use crate::net::{union_nets, IpNet};
use crate::node::{
    clone_opt_endpoint, clone_opt_nets, clone_opt_string, opt_endpoint_view, opt_nets_view,
    opt_str_view, Endpoint, Node,
};
use crate::render::{spec_endpoint_text, spec_join};
use crate::text::{push_char, spec_dec, u16_to_string};

verus! {

/// The settings of a node's own `[Interface]` stanza.
#[derive(Debug, PartialEq, Eq)]
pub struct Interface {
    /// The interface's tunnel addresses.
    pub address: Option<Vec<IpNet>>,
    /// The interface's private key.
    pub private_key: Option<String>,
    /// The interface's listen port.
    pub listen_port: Option<u16>,
    /// The interface's MTU.
    pub mtu: Option<u16>,
    /// PreUp hook.
    pub pre_up: Option<String>,
    /// PostUp hook.
    pub post_up: Option<String>,
    /// PreDown hook.
    pub pre_down: Option<String>,
    /// PostDown hook.
    pub post_down: Option<String>,
}

impl Default for Interface {
    /// An interface with no setting.
    fn default() -> (r: Self)
        ensures
            r.address is None,
            r.private_key is None,
            r.listen_port is None,
            r.mtu is None,
            r.pre_up is None,
            r.post_up is None,
            r.pre_down is None,
            r.post_down is None,
    {
        Interface {
            address: None,
            private_key: None,
            listen_port: None,
            mtu: None,
            pre_up: None,
            post_up: None,
            pre_down: None,
            post_down: None,
        }
    }
}

impl Interface {
    /// The addresses joined with commas, when any are set.
    pub fn address(&self) -> (r: Option<String>)
        ensures
            r is Some <==> self.address is Some,
            r is Some ==> r.unwrap()@ == spec_join(
                opt_nets_view(self.address).unwrap(),
                ", "@,
            ),
    {
        match &self.address {
            Some(v) => Some(crate::render::join_nets(v, ", ")),
            None => None,
        }
    }

    /// The private key, when one is set.
    pub fn private_key(&self) -> (r: Option<&str>)
        ensures
            r is Some <==> self.private_key is Some,
            r is Some ==> r.unwrap()@ == opt_str_view(self.private_key).unwrap(),
    {
        match &self.private_key {
            Some(s) => Some(s.as_str()),
            None => None,
        }
    }

    /// The listen port, when one is set.
    pub fn listen_port(&self) -> (r: Option<u16>)
        ensures
            r == self.listen_port,
    {
        self.listen_port
    }

    /// The MTU, when one is set.
    pub fn mtu(&self) -> (r: Option<u16>)
        ensures
            r == self.mtu,
    {
        self.mtu
    }

    /// The PostUp hook, when one is set.
    pub fn post_up(&self) -> (r: Option<&str>)
        ensures
            r is Some <==> self.post_up is Some,
            r is Some ==> r.unwrap()@ == opt_str_view(self.post_up).unwrap(),
    {
        match &self.post_up {
            Some(s) => Some(s.as_str()),
            None => None,
        }
    }

    /// The PostDown hook, when one is set.
    pub fn post_down(&self) -> (r: Option<&str>)
        ensures
            r is Some <==> self.post_down is Some,
            r is Some ==> r.unwrap()@ == opt_str_view(self.post_down).unwrap(),
    {
        match &self.post_down {
            Some(s) => Some(s.as_str()),
            None => None,
        }
    }

    /// The PreUp hook, when one is set.
    pub fn pre_up(&self) -> (r: Option<&str>)
        ensures
            r is Some <==> self.pre_up is Some,
            r is Some ==> r.unwrap()@ == opt_str_view(self.pre_up).unwrap(),
    {
        match &self.pre_up {
            Some(s) => Some(s.as_str()),
            None => None,
        }
    }

    /// The PreDown hook, when one is set.
    pub fn pre_down(&self) -> (r: Option<&str>)
        ensures
            r is Some <==> self.pre_down is Some,
            r is Some ==> r.unwrap()@ == opt_str_view(self.pre_down).unwrap(),
    {
        match &self.pre_down {
            Some(s) => Some(s.as_str()),
            None => None,
        }
    }

    /// Replaces the address list.
    pub fn with_address(&mut self, address: Option<Vec<IpNet>>)
        ensures
            *final(self) == (Interface { address, ..*old(self) }),
    {
        self.address = address;
    }

    /// Replaces the private key.
    pub fn with_private_key(&mut self, private_key: Option<String>)
        ensures
            *final(self) == (Interface { private_key, ..*old(self) }),
    {
        self.private_key = private_key;
    }

    /// Replaces the listen port.
    pub fn with_listen_port(&mut self, listen_port: Option<u16>)
        ensures
            *final(self) == (Interface { listen_port, ..*old(self) }),
    {
        self.listen_port = listen_port;
    }

    /// Replaces the MTU.
    pub fn with_mtu(&mut self, mtu: Option<u16>)
        ensures
            *final(self) == (Interface { mtu, ..*old(self) }),
    {
        self.mtu = mtu;
    }

    /// Replaces the PreUp hook.
    pub fn with_pre_up(&mut self, pre_up: Option<String>)
        ensures
            *final(self) == (Interface { pre_up, ..*old(self) }),
    {
        self.pre_up = pre_up;
    }

    /// Replaces the PostUp hook.
    pub fn with_post_up(&mut self, post_up: Option<String>)
        ensures
            *final(self) == (Interface { post_up, ..*old(self) }),
    {
        self.post_up = post_up;
    }

    /// Replaces the PreDown hook.
    pub fn with_pre_down(&mut self, pre_down: Option<String>)
        ensures
            *final(self) == (Interface { pre_down, ..*old(self) }),
    {
        self.pre_down = pre_down;
    }

    /// Replaces the PostDown hook.
    pub fn with_post_down(&mut self, post_down: Option<String>)
        ensures
            *final(self) == (Interface { post_down, ..*old(self) }),
    {
        self.post_down = post_down;
    }

    /// The `[Interface]` settings a node carries: its own keys,
    /// addresses, port and hooks.
    pub fn from_node(node: Node) -> (r: Self)
        ensures
            r.address == node.address,
            r.private_key == node.private_key,
            r.listen_port == node.listen_port,
            r.mtu == node.mtu,
            r.pre_up == node.pre_up,
            r.post_up == node.post_up,
            r.pre_down == node.pre_down,
            r.post_down == node.post_down,
    {
        Interface {
            address: node.address,
            private_key: node.private_key,
            listen_port: node.listen_port,
            mtu: node.mtu,
            pre_up: node.pre_up,
            post_up: node.post_up,
            pre_down: node.pre_down,
            post_down: node.post_down,
        }
    }
}

/// The settings of another node's `[Peer]` stanza.
#[derive(Debug, PartialEq, Eq)]
pub struct Peer {
    /// The peer's public key.
    pub public_key: Option<String>,
    /// The networks routed across the tunnel entry.
    pub allowed_ips: Option<Vec<IpNet>>,
    /// Keepalive interval in seconds.
    pub persistent_keepalive: Option<u16>,
    /// The peer's MTU, carried through.
    pub mtu: Option<u16>,
    /// The peer's reachable address.
    pub endpoint: Option<Endpoint>,
}

impl Default for Peer {
    /// A peer entry with no setting.
    fn default() -> (r: Self)
        ensures
            r.public_key is None,
            r.allowed_ips is None,
            r.persistent_keepalive is None,
            r.mtu is None,
            r.endpoint is None,
    {
        Peer {
            public_key: None,
            allowed_ips: None,
            persistent_keepalive: None,
            mtu: None,
            endpoint: None,
        }
    }
}

impl Peer {
    /// The allowed networks joined with commas, when any are set.
    pub fn allowed_ips(&self) -> (r: Option<String>)
        ensures
            r is Some <==> self.allowed_ips is Some,
            r is Some ==> r.unwrap()@ == spec_join(
                opt_nets_view(self.allowed_ips).unwrap(),
                ", "@,
            ),
    {
        match &self.allowed_ips {
            Some(v) => Some(crate::render::join_nets(v, ", ")),
            None => None,
        }
    }

    /// The public key, when one is set.
    pub fn public_key(&self) -> (r: Option<&str>)
        ensures
            r is Some <==> self.public_key is Some,
            r is Some ==> r.unwrap()@ == opt_str_view(self.public_key).unwrap(),
    {
        match &self.public_key {
            Some(s) => Some(s.as_str()),
            None => None,
        }
    }

    /// The endpoint as `host:port` text, when one is set.
    pub fn endpoint(&self) -> (r: Option<String>)
        ensures
            r is Some <==> self.endpoint is Some,
            r is Some ==> r.unwrap()@ == spec_endpoint_text(
                opt_endpoint_view(self.endpoint).unwrap(),
            ),
    {
        match &self.endpoint {
            Some(e) => {
                let mut s = String::new();
                s.append(e.address.as_str());
                push_char(&mut s, ':');
                let d = u16_to_string(e.port);
                s.append(d.as_str());
                proof {
                    assert(s@ =~= spec_endpoint_text(opt_endpoint_view(self.endpoint).unwrap()));
                }
                Some(s)
            },
            None => None,
        }
    }

    /// The keepalive interval, when one is set.
    pub fn persistent_keepalive(&self) -> (r: Option<u16>)
        ensures
            r == self.persistent_keepalive,
    {
        self.persistent_keepalive
    }

    /// The MTU, when one is set.
    pub fn mtu(&self) -> (r: Option<u16>)
        ensures
            r == self.mtu,
    {
        self.mtu
    }

    /// Replaces the public key.
    pub fn with_public_key(&mut self, public_key: Option<String>)
        ensures
            *final(self) == (Peer { public_key, ..*old(self) }),
    {
        self.public_key = public_key;
    }

    /// Replaces the allowed networks.
    pub fn with_allowed_ips(&mut self, allowed_ips: Option<Vec<IpNet>>)
        ensures
            *final(self) == (Peer { allowed_ips, ..*old(self) }),
    {
        self.allowed_ips = allowed_ips;
    }

    /// Replaces the keepalive interval.
    pub fn with_persistent_keepalive(&mut self, persistent_keepalive: Option<u16>)
        ensures
            *final(self) == (Peer { persistent_keepalive, ..*old(self) }),
    {
        self.persistent_keepalive = persistent_keepalive;
    }

    /// Replaces the MTU.
    pub fn with_mtu(&mut self, mtu: Option<u16>)
        ensures
            *final(self) == (Peer { mtu, ..*old(self) }),
    {
        self.mtu = mtu;
    }

    /// Replaces the endpoint.
    pub fn with_endpoint(&mut self, endpoint: Option<Endpoint>)
        ensures
            *final(self) == (Peer { endpoint, ..*old(self) }),
    {
        self.endpoint = endpoint;
    }

    /// The `[Peer]` entry a node presents: its public key, and as
    /// allowed networks the union of its addresses and its allowed
    /// networks, first occurrences only.
    pub fn from_node(node: Node) -> (r: Self)
        ensures
            r.public_key == node.public_key,
            r.persistent_keepalive == node.persistent_keepalive,
            r.mtu == node.mtu,
            r.endpoint == node.endpoint,
            r.allowed_ips is Some,
            opt_nets_view(r.allowed_ips).unwrap() == crate::net::spec_union(
                crate::render::nets_of(opt_nets_view(node.address)),
                crate::render::nets_of(opt_nets_view(node.allowed_ips)),
            ),
    {
        let addrs = crate::render::nets_vec(&node.address);
        let extra = crate::render::nets_vec(&node.allowed_ips);
        let allowed = union_nets(&addrs, &extra);
        Peer {
            public_key: node.public_key,
            allowed_ips: Some(allowed),
            persistent_keepalive: node.persistent_keepalive,
            mtu: node.mtu,
            endpoint: node.endpoint,
        }
    }
}

} // verus!
