//! The node directory: one optional relay and an ordered list of peers.
//!
//! All mutation goes through merge semantics: a field that is present in
//! an update overwrites, an absent field preserves, and the two key
//! fields are write-once (sticky).

use vstd::prelude::*;
use crate::node::{nodes_view, opt_name_is, opt_string_eq, Node, NodeView};

verus! {

/// Errors of directory operations.
#[derive(Debug, Clone, Copy, PartialEq, Eq, Structural)]
pub enum DirectoryError {
    /// A peer was added while no relay is designated.
    NoRelay,
    /// More than one stored peer shares a name (corrupted store).
    DuplicateName,
    /// No node with the requested name exists.
    NotFound,
    /// A peer index is not smaller than the peer count.
    IndexOutOfBounds,
}

/// The merge of an update into a base node: present fields of the update
/// overwrite, absent fields preserve, and the key fields stick to the
/// first value the base ever had.  The relay mark of the base is kept.
pub open spec fn spec_merge(base: NodeView, upd: NodeView) -> NodeView {
    NodeView {
        relay: base.relay,
        name: if upd.name is Some {
            upd.name
        } else {
            base.name
        },
        address: if upd.address is Some {
            upd.address
        } else {
            base.address
        },
        public_key: if base.public_key is Some {
            base.public_key
        } else {
            upd.public_key
        },
        private_key: if base.private_key is Some {
            base.private_key
        } else {
            upd.private_key
        },
        listen_port: if upd.listen_port is Some {
            upd.listen_port
        } else {
            base.listen_port
        },
        allowed_ips: if upd.allowed_ips is Some {
            upd.allowed_ips
        } else {
            base.allowed_ips
        },
        endpoint_allowed_ips: if upd.endpoint_allowed_ips is Some {
            upd.endpoint_allowed_ips
        } else {
            base.endpoint_allowed_ips
        },
        persistent_keepalive: if upd.persistent_keepalive is Some {
            upd.persistent_keepalive
        } else {
            base.persistent_keepalive
        },
        endpoint: if upd.endpoint is Some {
            upd.endpoint
        } else {
            base.endpoint
        },
        mtu: if upd.mtu is Some {
            upd.mtu
        } else {
            base.mtu
        },
        pre_up: if upd.pre_up is Some {
            upd.pre_up
        } else {
            base.pre_up
        },
        post_up: if upd.post_up is Some {
            upd.post_up
        } else {
            base.post_up
        },
        pre_down: if upd.pre_down is Some {
            upd.pre_down
        } else {
            base.pre_down
        },
        post_down: if upd.post_down is Some {
            upd.post_down
        } else {
            base.post_down
        },
    }
}

/// A node that already holds a key keeps it across any merge: a later
/// update carrying a key value is ignored (sticky keys).
pub proof fn lemma_merge_sticky_keys(base: NodeView, upd: NodeView)
    ensures
        base.private_key is Some ==> spec_merge(base, upd).private_key == base.private_key,
        base.public_key is Some ==> spec_merge(base, upd).public_key == base.public_key,
{
}

/// Merging is field-local: an update that carries only an MTU (and at
/// most the node's own name) changes nothing but the MTU.
pub proof fn lemma_merge_field_local(base: NodeView, upd: NodeView)
    requires
        upd.mtu is Some,
        upd.name is None || upd.name == base.name,
        upd.address is None,
        upd.public_key is None,
        upd.private_key is None,
        upd.listen_port is None,
        upd.allowed_ips is None,
        upd.endpoint_allowed_ips is None,
        upd.persistent_keepalive is None,
        upd.endpoint is None,
        upd.pre_up is None,
        upd.post_up is None,
        upd.pre_down is None,
        upd.post_down is None,
    ensures
        spec_merge(base, upd) == (NodeView { mtu: upd.mtu, ..base }),
{
}

/// How many stored peers carry the given name.
pub open spec fn name_count(peers: Seq<NodeView>, name: Option<Seq<char>>) -> nat
    decreases peers.len(),
{
    if peers.len() == 0 {
        0
    } else {
        (if peers[0].name == name {
            1nat
        } else {
            0nat
        }) + name_count(peers.drop_first(), name)
    }
}

proof fn lemma_name_count_push(s: Seq<NodeView>, x: NodeView, name: Option<Seq<char>>)
    ensures
        name_count(s.push(x), name) == name_count(s, name) + (if x.name == name {
            1nat
        } else {
            0nat
        }),
    decreases s.len(),
{
    if s.len() == 0 {
        assert(s.push(x)[0] == x);
        assert(s.push(x).drop_first() =~= Seq::<NodeView>::empty());
        assert(name_count(s.push(x).drop_first(), name) == 0);
        assert(name_count(s.push(x), name) == (if x.name == name {
            1nat
        } else {
            0nat
        }));
    } else {
        lemma_name_count_push(s.drop_first(), x, name);
        assert(s.push(x).drop_first() =~= s.drop_first().push(x));
        assert(s.push(x)[0] == s[0]);
        assert(name_count(s.push(x), name) == (if s[0].name == name {
            1nat
        } else {
            0nat
        }) + name_count(s.drop_first().push(x), name));
    }
}

/// The directory: a dedicated relay slot plus the ordered peer list.
#[derive(Debug, PartialEq, Eq)]
pub struct Directory {
    /// The relay (hub) node, if one is designated.
    pub relay: Option<Node>,
    /// The peers, in insertion order.
    pub peers: Vec<Node>,
}

/// Mathematical value of a [`Directory`].
#[verifier::ext_equal]
pub ghost struct DirectoryView {
    pub relay: Option<NodeView>,
    pub peers: Seq<NodeView>,
}

impl View for Directory {
    type V = DirectoryView;

    open spec fn view(&self) -> DirectoryView {
        DirectoryView {
            relay: match self.relay {
                Some(n) => Some(n@),
                None => None,
            },
            peers: nodes_view(self.peers@),
        }
    }
}

impl DirectoryView {
    /// Well-formedness: peer names are unique and present, peers are not
    /// marked as relay, the relay slot is marked and named, and peers
    /// exist only while a relay is designated.
    pub open spec fn wf(self) -> bool {
        &&& forall|i: int, j: int|
            0 <= i < j < self.peers.len() ==> (#[trigger] self.peers[i]).name != (
            #[trigger] self.peers[j]).name
        &&& forall|i: int|
            0 <= i < self.peers.len() ==> (#[trigger] self.peers[i]).name is Some
                && !self.peers[i].relay
        &&& match self.relay {
            Some(r) => r.relay && r.name is Some,
            None => true,
        }
        &&& self.peers.len() > 0 ==> self.relay is Some
    }
}

impl Default for Directory {
    /// An empty directory: no relay, no peers.
    fn default() -> (r: Self)
        ensures
            r@.relay is None,
            r@.peers =~= Seq::<NodeView>::empty(),
    {
        let r = Directory { relay: None, peers: Vec::new() };
        proof {
            assert(r@.peers =~= Seq::<NodeView>::empty());
        }
        r
    }
}

impl Directory {
    /// An empty directory: no relay, no peers.
    pub fn new() -> (r: Self)
        ensures
            r@.relay is None,
            r@.peers =~= Seq::<NodeView>::empty(),
            r@.wf(),
    {
        let r = Directory { relay: None, peers: Vec::new() };
        proof {
            assert(r@.peers =~= Seq::<NodeView>::empty());
        }
        r
    }

    /// Merges the present fields of `node` into `change`, with sticky
    /// keys: a key already held by `change` is never overwritten.
    #[verifier::rlimit(100)]
    pub fn map_set(change: &mut Node, node: Node)
        ensures
            final(change)@ == spec_merge(old(change)@, node@),
            final(change).relay == old(change).relay,
    {
        if node.name.is_some() {
            change.name = node.name;
        }
        if node.endpoint.is_some() {
            change.endpoint = node.endpoint;
        }
        if node.address.is_some() {
            change.address = node.address;
        }
        if node.listen_port.is_some() {
            change.listen_port = node.listen_port;
        }
        if node.mtu.is_some() {
            change.mtu = node.mtu;
        }
        if node.allowed_ips.is_some() {
            change.allowed_ips = node.allowed_ips;
        }
        if node.endpoint_allowed_ips.is_some() {
            change.endpoint_allowed_ips = node.endpoint_allowed_ips;
        }
        if node.persistent_keepalive.is_some() {
            change.persistent_keepalive = node.persistent_keepalive;
        }
        // an existing public key is never updated
        if node.public_key.is_some() && change.public_key.is_none() {
            change.public_key = node.public_key;
        }
        // an existing private key is never updated
        if node.private_key.is_some() && change.private_key.is_none() {
            change.private_key = node.private_key;
        }
        if node.post_up.is_some() {
            change.post_up = node.post_up;
        }
        if node.post_down.is_some() {
            change.post_down = node.post_down;
        }
        if node.pre_up.is_some() {
            change.pre_up = node.pre_up;
        }
        if node.pre_down.is_some() {
            change.pre_down = node.pre_down;
        }
    }

    /// Adds `node` to the end of the peer list, or merges it into the
    /// peer that already carries its name.  Fails with `NoRelay` while
    /// no relay is designated, and with `DuplicateName` when more than
    /// one stored peer already carries the name (corrupted store).
    pub fn push(&mut self, node: Node) -> (r: Result<(), DirectoryError>)
        requires
            node.name is Some,
        ensures
            ({
                let dv = old(self)@;
                let nv = node@;
                let out = final(self)@;
                &&& (dv.relay is None ==> r == Err::<(), DirectoryError>(DirectoryError::NoRelay)
                    && out == dv)
                &&& (dv.relay is Some && name_count(dv.peers, nv.name) > 1 ==> r == Err::<
                    (),
                    DirectoryError,
                >(DirectoryError::DuplicateName) && out == dv)
                &&& (dv.relay is Some && name_count(dv.peers, nv.name) <= 1 ==> {
                    &&& r == Ok::<(), DirectoryError>(())
                    &&& out.relay == dv.relay
                    &&& (if name_count(dv.peers, nv.name) == 1 {
                        exists|i: int|
                            0 <= i < dv.peers.len() && (#[trigger] dv.peers[i]).name == nv.name
                                && out.peers == dv.peers.update(i, spec_merge(dv.peers[i], nv))
                    } else {
                        out.peers == dv.peers.push((NodeView { relay: false, ..nv }))
                    })
                })
                &&& (dv.wf() ==> out.wf())
            }),
    {
        if self.relay.is_none() {
            return Err(DirectoryError::NoRelay);
        }
        let ghost dv = self@;
        let ghost target = node@.name;
        let n = self.peers.len();
        let mut count: usize = 0;
        let mut first: usize = n;
        let mut i: usize = 0;
        while i < n
            invariant
                i <= n,
                n == self.peers.len(),
                *self == *old(self),
                dv == self@,
                target == node@.name,
                count <= i,
                count as nat == name_count(dv.peers.subrange(0, i as int), target),
                first == n || first < i,
                (first == n) ==> forall|k: int|
                    0 <= k < i ==> (#[trigger] dv.peers[k]).name != target,
                (first < n) ==> dv.peers[first as int].name == target && (forall|k: int|
                    0 <= k < first ==> (#[trigger] dv.peers[k]).name != target),
            decreases n - i,
        {
            proof {
                assert(dv.peers[i as int] == self.peers@[i as int]@);
                assert(dv.peers.subrange(0, i as int + 1) =~= dv.peers.subrange(
                    0,
                    i as int,
                ).push(dv.peers[i as int]));
                lemma_name_count_push(dv.peers.subrange(0, i as int), dv.peers[i as int], target);
            }
            let m = opt_string_eq(&self.peers[i].name, &node.name);
            proof {
                assert(m == (dv.peers[i as int].name == target));
            }
            if m {
                if first == n {
                    first = i;
                }
                count = count + 1;
            }
            i = i + 1;
        }
        proof {
            assert(dv.peers.subrange(0, n as int) =~= dv.peers);
        }
        if count > 1 {
            return Err(DirectoryError::DuplicateName);
        }
        if first < n {
            let mut elem = self.peers.remove(first);
            Directory::map_set(&mut elem, node);
            self.peers.insert(first, elem);
            proof {
                let out = self@;
                let merged = spec_merge(dv.peers[first as int], node@);
                assert(out.peers =~= dv.peers.update(first as int, merged));
                assert(name_count(dv.peers, target) >= 1) by {
                    lemma_name_count_at_least_one(dv.peers, target, first as int);
                }
                if dv.wf() {
                    assert forall|a: int, b: int|
                        0 <= a < b < out.peers.len() implies (#[trigger] out.peers[a]).name != (
                    #[trigger] out.peers[b]).name by {
                        assert(out.peers[a].name == dv.peers[a].name);
                        assert(out.peers[b].name == dv.peers[b].name);
                    }
                    assert forall|k: int| 0 <= k < out.peers.len() implies (
                    #[trigger] out.peers[k]).name is Some && !out.peers[k].relay by {
                        assert(out.peers[k].name == dv.peers[k].name);
                        assert(out.peers[k].relay == dv.peers[k].relay);
                    }
                }
            }
            Ok(())
        } else {
            let mut node = node;
            node.relay = false;
            self.peers.push(node);
            proof {
                let out = self@;
                let ghost nvp = (NodeView { relay: false, ..node@ });
                assert(out.peers =~= dv.peers.push(nvp));
                assert(name_count(dv.peers, target) == 0) by {
                    lemma_name_count_none(dv.peers, target);
                }
                if dv.wf() {
                    assert forall|a: int, b: int|
                        0 <= a < b < out.peers.len() implies (#[trigger] out.peers[a]).name != (
                    #[trigger] out.peers[b]).name by {
                        if b < dv.peers.len() {
                            assert(out.peers[a] == dv.peers[a]);
                            assert(out.peers[b] == dv.peers[b]);
                        } else {
                            assert(out.peers[a] == dv.peers[a]);
                            assert(out.peers[b] == nvp);
                        }
                    }
                }
            }
            Ok(())
        }
    }
}

impl Directory {
    /// Installs `node` as the relay, or, when a relay already exists,
    /// merges `node`'s present fields into it with sticky keys.  Never
    /// fails.
    pub fn designate_relay(&mut self, node: Node)
        requires
            node.name is Some,
        ensures
            ({
                let dv = old(self)@;
                let nv = node@;
                let out = final(self)@;
                &&& out.peers == dv.peers
                &&& (dv.relay is None ==> out.relay == Some((NodeView { relay: true, ..nv })))
                &&& (dv.relay is Some ==> out.relay == Some(spec_merge(dv.relay.unwrap(), nv)))
                &&& (dv.wf() ==> out.wf())
            }),
    {
        let mut cur: Option<Node> = None;
        core::mem::swap(&mut cur, &mut self.relay);
        match cur {
            None => {
                let mut node = node;
                node.relay = true;
                self.relay = Some(node);
            },
            Some(mut r) => {
                Directory::map_set(&mut r, node);
                self.relay = Some(r);
            },
        }
    }

    /// Whether some peer carries the given name.
    pub open spec fn spec_has_peer(dv: DirectoryView, name: Seq<char>) -> bool {
        exists|i: int| 0 <= i < dv.peers.len() && (#[trigger] dv.peers[i]).name == Some(name)
    }

    /// Whether the relay carries the given name.
    pub open spec fn spec_relay_named(dv: DirectoryView, name: Seq<char>) -> bool {
        &&& dv.relay is Some
        &&& dv.relay.unwrap().name == Some(name)
    }

    /// Looks a node up by name: the peers first, in order, then the
    /// relay.  Fails with `NotFound` when no node carries the name.
    pub fn get_by_name(&self, name: &str) -> (r: Result<Node, DirectoryError>)
        ensures
            ({
                let dv = self@;
                &&& (r is Ok <==> Self::spec_has_peer(dv, name@) || Self::spec_relay_named(
                    dv,
                    name@,
                ))
                &&& (Self::spec_has_peer(dv, name@) ==> exists|i: int|
                    0 <= i < dv.peers.len() && (#[trigger] dv.peers[i]).name == Some(name@) && (
                    forall|k: int| 0 <= k < i ==> (#[trigger] dv.peers[k]).name != Some(name@))
                        && r.unwrap()@ == dv.peers[i])
                &&& (!Self::spec_has_peer(dv, name@) && Self::spec_relay_named(dv, name@)
                    ==> r.unwrap()@ == dv.relay.unwrap())
                &&& (r is Err ==> r == Err::<Node, DirectoryError>(DirectoryError::NotFound))
            }),
    {
        let ghost dv = self@;
        let n = self.peers.len();
        let mut i: usize = 0;
        while i < n
            invariant
                i <= n,
                n == self.peers.len(),
                dv == self@,
                forall|k: int| 0 <= k < i ==> (#[trigger] dv.peers[k]).name != Some(name@),
            decreases n - i,
        {
            proof {
                assert(dv.peers[i as int] == self.peers@[i as int]@);
            }
            if opt_name_is(&self.peers[i].name, name) {
                return Ok(self.peers[i].clone());
            }
            i = i + 1;
        }
        match &self.relay {
            Some(rn) => {
                if opt_name_is(&rn.name, name) {
                    return Ok(rn.clone());
                }
                Err(DirectoryError::NotFound)
            },
            None => Err(DirectoryError::NotFound),
        }
    }

    /// The peers, in stable insertion order; the relay is not included.
    pub fn list_peers(&self) -> (r: Vec<Node>)
        ensures
            nodes_view(r@) == self@.peers,
    {
        let n = self.peers.len();
        let mut r: Vec<Node> = Vec::new();
        let mut i: usize = 0;
        while i < n
            invariant
                i <= n,
                n == self.peers.len(),
                nodes_view(r@) =~= self@.peers.subrange(0, i as int),
            decreases n - i,
        {
            let c = self.peers[i].clone();
            proof {
                assert(self@.peers[i as int] == self.peers@[i as int]@);
                assert(c@ == self@.peers[i as int]);
            }
            let ghost r0 = r@;
            r.push(c);
            proof {
                assert(r@ == r0.push(c));
                assert(nodes_view(r0).len() == i as int);
                assert(r0.len() == i as int);
                assert forall|k: int| 0 <= k <= i as int implies nodes_view(r@)[k]
                    == self@.peers[k] by {
                    if k < i as int {
                        assert(r@[k] == r0[k]);
                        assert(nodes_view(r0)[k] == self@.peers.subrange(0, i as int)[k]);
                    } else {
                        assert(r@[k] == c);
                    }
                }
                assert(nodes_view(r@) =~= self@.peers.subrange(0, i as int + 1));
            }
            i = i + 1;
        }
        proof {
            assert(nodes_view(r@) =~= self@.peers);
        }
        r
    }

    /// Every node: the relay first, when one is designated, then the
    /// peers in insertion order.
    pub fn list(&self) -> (r: Vec<Node>)
        ensures
            self@.relay is Some ==> nodes_view(r@) == seq![self@.relay.unwrap()] + self@.peers,
            self@.relay is None ==> nodes_view(r@) == self@.peers,
    {
        let mut r: Vec<Node> = Vec::new();
        match &self.relay {
            Some(rn) => r.push(rn.clone()),
            None => (),
        }
        let n = self.peers.len();
        let ghost base = nodes_view(r@);
        let mut i: usize = 0;
        while i < n
            invariant
                i <= n,
                n == self.peers.len(),
                base == (if self@.relay is Some {
                    seq![self@.relay.unwrap()]
                } else {
                    Seq::<NodeView>::empty()
                }),
                nodes_view(r@) =~= base + self@.peers.subrange(0, i as int),
            decreases n - i,
        {
            let c = self.peers[i].clone();
            proof {
                assert(self@.peers[i as int] == self.peers@[i as int]@);
                assert(c@ == self@.peers[i as int]);
            }
            let ghost r0 = r@;
            r.push(c);
            proof {
                assert(r@ == r0.push(c));
                assert(nodes_view(r0).len() == base.len() + i as int);
                assert(r0.len() == base.len() + i as int);
                assert forall|k: int| 0 <= k < r@.len() implies nodes_view(r@)[k] == (base
                    + self@.peers.subrange(0, i as int + 1))[k] by {
                    if k < r0.len() {
                        assert(r@[k] == r0[k]);
                        assert(nodes_view(r0)[k] == (base + self@.peers.subrange(0, i as int))[k]);
                    } else {
                        assert(r@[k] == c);
                    }
                }
                assert(nodes_view(r@) =~= base + self@.peers.subrange(0, i as int + 1));
            }
            i = i + 1;
        }
        proof {
            assert(self@.peers.subrange(0, n as int) =~= self@.peers);
            if self@.relay is Some {
                assert(nodes_view(r@) =~= seq![self@.relay.unwrap()] + self@.peers);
            } else {
                assert(nodes_view(r@) =~= self@.peers);
            }
        }
        r
    }

    /// The relay alone (as a list of zero or one nodes) when `relay`
    /// holds, else the peers.
    pub fn list_by_relay(&self, relay: bool) -> (r: Vec<Node>)
        ensures
            relay && self@.relay is Some ==> nodes_view(r@) == seq![self@.relay.unwrap()],
            relay && self@.relay is None ==> nodes_view(r@) == Seq::<NodeView>::empty(),
            !relay ==> nodes_view(r@) == self@.peers,
    {
        if relay {
            let mut r: Vec<Node> = Vec::new();
            match &self.relay {
                Some(rn) => r.push(rn.clone()),
                None => (),
            }
            proof {
                if self@.relay is Some {
                    assert(nodes_view(r@) =~= seq![self@.relay.unwrap()]);
                } else {
                    assert(nodes_view(r@) =~= Seq::<NodeView>::empty());
                }
            }
            r
        } else {
            self.list_peers()
        }
    }

    /// Removes the peer that carries the given name.  Fails with
    /// `NotFound`, leaving the directory unchanged, when no peer does.
    pub fn remove_by_name(&mut self, name: &str) -> (r: Result<(), DirectoryError>)
        ensures
            ({
                let dv = old(self)@;
                let out = final(self)@;
                &&& out.relay == dv.relay
                &&& (r is Ok <==> Self::spec_has_peer(dv, name@))
                &&& (Self::spec_has_peer(dv, name@) ==> exists|i: int|
                    0 <= i < dv.peers.len() && (#[trigger] dv.peers[i]).name == Some(name@) && (
                    forall|k: int| 0 <= k < i ==> (#[trigger] dv.peers[k]).name != Some(name@))
                        && out.peers == dv.peers.remove(i))
                &&& (!Self::spec_has_peer(dv, name@) ==> r == Err::<(), DirectoryError>(
                    DirectoryError::NotFound,
                ) && out == dv)
                &&& (dv.wf() ==> out.wf())
            }),
    {
        let ghost dv = self@;
        let n = self.peers.len();
        let mut i: usize = 0;
        while i < n
            invariant
                i <= n,
                n == self.peers.len(),
                *self == *old(self),
                dv == self@,
                forall|k: int| 0 <= k < i ==> (#[trigger] dv.peers[k]).name != Some(name@),
            decreases n - i,
        {
            proof {
                assert(dv.peers[i as int] == self.peers@[i as int]@);
            }
            if opt_name_is(&self.peers[i].name, name) {
                self.peers.remove(i);
                proof {
                    let out = self@;
                    assert(out.peers =~= dv.peers.remove(i as int));
                    lemma_wf_remove(dv, i as int);
                }
                return Ok(());
            }
            i = i + 1;
        }
        Err(DirectoryError::NotFound)
    }

    /// Removes the peer at the given position.  Fails with
    /// `IndexOutOfBounds`, leaving the directory unchanged, when the
    /// position is not smaller than the peer count.
    pub fn remove(&mut self, index: usize) -> (r: Result<(), DirectoryError>)
        ensures
            ({
                let dv = old(self)@;
                let out = final(self)@;
                &&& out.relay == dv.relay
                &&& (index < dv.peers.len() ==> r == Ok::<(), DirectoryError>(()) && out.peers
                    == dv.peers.remove(index as int))
                &&& (index >= dv.peers.len() ==> r == Err::<(), DirectoryError>(
                    DirectoryError::IndexOutOfBounds,
                ) && out == dv)
                &&& (dv.wf() ==> out.wf())
            }),
    {
        let ghost dv = self@;
        if index >= self.peers.len() {
            return Err(DirectoryError::IndexOutOfBounds);
        }
        self.peers.remove(index);
        proof {
            let out = self@;
            assert(out.peers =~= dv.peers.remove(index as int));
            lemma_wf_remove(dv, index as int);
        }
        Ok(())
    }

    /// Empties the peer list; the relay designation is unaffected.
    pub fn remove_all(&mut self)
        ensures
            final(self)@.relay == old(self)@.relay,
            final(self)@.peers =~= Seq::<NodeView>::empty(),
            old(self)@.wf() ==> final(self)@.wf(),
    {
        self.peers = Vec::new();
        proof {
            assert(self@.peers =~= Seq::<NodeView>::empty());
        }
    }

    /// Clears both the relay designation and the peer list.
    pub fn clear(&mut self)
        ensures
            final(self)@.relay is None,
            final(self)@.peers =~= Seq::<NodeView>::empty(),
            final(self)@.wf(),
    {
        self.relay = None;
        self.peers = Vec::new();
        proof {
            assert(self@.peers =~= Seq::<NodeView>::empty());
        }
    }
}

/// Removing a peer keeps a directory well formed.
proof fn lemma_wf_remove(dv: DirectoryView, i: int)
    requires
        0 <= i < dv.peers.len(),
    ensures
        dv.wf() ==> (DirectoryView { peers: dv.peers.remove(i), ..dv }).wf(),
{
    if dv.wf() {
        let out = (DirectoryView { peers: dv.peers.remove(i), ..dv });
        assert forall|a: int, b: int| 0 <= a < b < out.peers.len() implies (
        #[trigger] out.peers[a]).name != (#[trigger] out.peers[b]).name by {
            let a0: int = if a < i {
                a
            } else {
                a + 1
            };
            let b0: int = if b < i {
                b
            } else {
                b + 1
            };
            assert(out.peers[a] == dv.peers[a0]);
            assert(out.peers[b] == dv.peers[b0]);
        }
        assert forall|k: int| 0 <= k < out.peers.len() implies (#[trigger] out.peers[k]).name
            is Some && !out.peers[k].relay by {
            let k0: int = if k < i {
                k
            } else {
                k + 1
            };
            assert(out.peers[k] == dv.peers[k0]);
        }
    }
}

/// A sequence with some entry named `name` holds at least one such name.
proof fn lemma_name_count_at_least_one(s: Seq<NodeView>, name: Option<Seq<char>>, i: int)
    requires
        0 <= i < s.len(),
        s[i].name == name,
    ensures
        name_count(s, name) >= 1,
    decreases s.len(),
{
    if i == 0 {
    } else {
        lemma_name_count_at_least_one(s.drop_first(), name, i - 1);
    }
}

/// A sequence in which no entry is named `name` counts zero such names.
proof fn lemma_name_count_none(s: Seq<NodeView>, name: Option<Seq<char>>)
    requires
        forall|k: int| 0 <= k < s.len() ==> (#[trigger] s[k]).name != name,
    ensures
        name_count(s, name) == 0,
    decreases s.len(),
{
    if s.len() > 0 {
        lemma_name_count_none(s.drop_first(), name);
    }
}

} // verus!
