//! The configuration synthesizer: pure rendering of a directory into
//! interface and peer stanzas.
//!
//! Rendering is line oriented and deterministic; a directive whose
//! source value is absent (or an empty list) is omitted entirely.

use vstd::prelude::*;
use crate::directory::{Directory, DirectoryError};
use crate::net::{spec_trunc, spec_union, trunc_all, union_nets, IpNet};
use crate::node::{opt_name_is, opt_str_view, EndpointView, Node, NodeView};
use crate::text::{push_char, spec_dec, u16_to_string};

verus! {

/// The items joined with the separator between them.
pub open spec fn spec_join(items: Seq<Seq<char>>, sep: Seq<char>) -> Seq<char>
    decreases items.len(),
{
    if items.len() == 0 {
        Seq::empty()
    } else if items.len() == 1 {
        items[0]
    } else {
        spec_join(items.drop_last(), sep) + sep + items.last()
    }
}

/// A directive line, or nothing when the value is absent.
pub open spec fn spec_opt_line(key: Seq<char>, val: Option<Seq<char>>) -> Seq<char> {
    match val {
        Some(v) => key + v + seq!['\n'],
        None => Seq::empty(),
    }
}

/// A numeric directive line, or nothing when the value is absent.
pub open spec fn spec_u16_line(key: Seq<char>, val: Option<u16>) -> Seq<char> {
    match val {
        Some(v) => key + spec_dec(v as nat) + seq!['\n'],
        None => Seq::empty(),
    }
}

/// A comma-joined list directive line, or nothing when the list is
/// empty.
pub open spec fn spec_nets_line(key: Seq<char>, items: Seq<Seq<char>>) -> Seq<char> {
    if items.len() == 0 {
        Seq::empty()
    } else {
        key + spec_join(items, ", "@) + seq!['\n']
    }
}

/// The text of an endpoint: host, colon, port.
pub open spec fn spec_endpoint_text(e: EndpointView) -> Seq<char> {
    e.address + seq![':'] + spec_dec(e.port as nat)
}

/// An endpoint directive line, or nothing when the value is absent.
pub open spec fn spec_endpoint_line(key: Seq<char>, e: Option<EndpointView>) -> Seq<char> {
    match e {
        Some(ev) => key + spec_endpoint_text(ev) + seq!['\n'],
        None => Seq::empty(),
    }
}

/// An absent list of network values reads as the empty list.
pub open spec fn nets_of(o: Option<Seq<Seq<char>>>) -> Seq<Seq<char>> {
    match o {
        Some(l) => l,
        None => Seq::empty(),
    }
}

/// The `[Interface]` stanza of a node's own settings.
pub open spec fn spec_interface_stanza(nv: NodeView) -> Seq<char> {
    "[Interface]\n"@ + spec_opt_line("PrivateKey = "@, nv.private_key) + spec_nets_line(
        "Address = "@,
        nets_of(nv.address),
    ) + spec_u16_line("ListenPort = "@, nv.listen_port) + spec_u16_line("MTU = "@, nv.mtu)
        + spec_opt_line("PreUp = "@, nv.pre_up) + spec_opt_line("PostUp = "@, nv.post_up)
        + spec_opt_line("PreDown = "@, nv.pre_down) + spec_opt_line("PostDown = "@, nv.post_down)
}

/// The `[Peer]` stanza that shows the relay to an ordinary peer.  Its
/// allowed networks are the union of the relay's own address blocks,
/// truncated to their networks, and the peer's extra relay routes.
pub open spec fn spec_hub_stanza(relay: NodeView, peer: NodeView) -> Seq<char> {
    "[Peer]\n"@ + spec_opt_line("PublicKey = "@, relay.public_key) + spec_nets_line(
        "AllowedIPs = "@,
        spec_union(
            nets_of(relay.address).map_values(|t: Seq<char>| spec_trunc(t)),
            nets_of(peer.endpoint_allowed_ips),
        ),
    ) + spec_endpoint_line("Endpoint = "@, relay.endpoint) + spec_u16_line(
        "PersistentKeepalive = "@,
        peer.persistent_keepalive,
    )
}

/// The `[Peer]` stanza that shows one peer to the relay.  Its allowed
/// networks are the union of the peer's own addresses and its allowed
/// networks; no endpoint is emitted, since the relay only listens.
pub open spec fn spec_peer_stanza(p: NodeView) -> Seq<char> {
    "[Peer]\n"@ + spec_opt_line("PublicKey = "@, p.public_key) + spec_nets_line(
        "AllowedIPs = "@,
        spec_union(nets_of(p.address), nets_of(p.allowed_ips)),
    ) + spec_u16_line("PersistentKeepalive = "@, p.persistent_keepalive)
}

/// The `[Peer]` stanzas of all peers, in order.
pub open spec fn spec_peer_stanzas(peers: Seq<NodeView>) -> Seq<char>
    decreases peers.len(),
{
    if peers.len() == 0 {
        Seq::empty()
    } else {
        spec_peer_stanzas(peers.drop_last()) + spec_peer_stanza(peers.last())
    }
}

/// Joins the textual forms of the network values with the separator.
pub(crate) fn join_nets(v: &Vec<IpNet>, sep: &str) -> (r: String)
    ensures
        r@ == spec_join(v@.map_values(|n: IpNet| n@), sep@),
{
    let ghost views = v@.map_values(|n: IpNet| n@);
    let n = v.len();
    let mut r = String::new();
    let mut i: usize = 0;
    while i < n
        invariant
            i <= n,
            n == v@.len(),
            views == v@.map_values(|n: IpNet| n@),
            r@ == spec_join(views.subrange(0, i as int), sep@),
        decreases n - i,
    {
        proof {
            assert(views[i as int] == v@[i as int]@);
        }
        if i > 0 {
            r.append(sep);
        }
        r.append(v[i].value.as_str());
        proof {
            let pre = views.subrange(0, i as int);
            let cur = views.subrange(0, i as int + 1);
            assert(cur.drop_last() =~= pre);
            assert(cur.last() == views[i as int]);
            if i == 0 {
                assert(cur.len() == 1);
                assert(cur[0] == views[0]);
                assert(r@ =~= spec_join(cur, sep@));
            } else {
                assert(r@ =~= spec_join(pre, sep@) + sep@ + views[i as int]);
            }
        }
        i = i + 1;
    }
    proof {
        assert(views.subrange(0, n as int) =~= views);
    }
    r
}

/// Appends a directive line when the value is present.
fn append_opt_line(s: &mut String, key: &str, val: &Option<String>)
    ensures
        final(s)@ == old(s)@ + spec_opt_line(key@, opt_str_view(*val)),
{
    match val {
        Some(v) => {
            s.append(key);
            s.append(v.as_str());
            push_char(s, '\n');
            proof {
                assert(s@ =~= old(s)@ + spec_opt_line(key@, opt_str_view(*val)));
            }
        },
        None => {
            proof {
                assert(s@ =~= old(s)@ + spec_opt_line(key@, opt_str_view(*val)));
            }
        },
    }
}

/// Appends a numeric directive line when the value is present.
fn append_u16_line(s: &mut String, key: &str, val: Option<u16>)
    ensures
        final(s)@ == old(s)@ + spec_u16_line(key@, val),
{
    match val {
        Some(v) => {
            s.append(key);
            let d = u16_to_string(v);
            s.append(d.as_str());
            push_char(s, '\n');
            proof {
                assert(s@ =~= old(s)@ + spec_u16_line(key@, val));
            }
        },
        None => {
            proof {
                assert(s@ =~= old(s)@ + spec_u16_line(key@, val));
            }
        },
    }
}

/// Appends a list directive line when the list is non-empty.
fn append_nets_line(s: &mut String, key: &str, items: &Vec<IpNet>)
    ensures
        final(s)@ == old(s)@ + spec_nets_line(key@, items@.map_values(|n: IpNet| n@)),
{
    if items.len() > 0 {
        s.append(key);
        let j = join_nets(items, ", ");
        s.append(j.as_str());
        push_char(s, '\n');
        proof {
            assert(s@ =~= old(s)@ + spec_nets_line(key@, items@.map_values(|n: IpNet| n@)));
        }
    } else {
        proof {
            assert(items@.map_values(|n: IpNet| n@).len() == 0);
            assert(s@ =~= old(s)@ + spec_nets_line(key@, items@.map_values(|n: IpNet| n@)));
        }
    }
}

/// Appends an endpoint directive line when the value is present.
fn append_endpoint_line(s: &mut String, key: &str, e: &Option<crate::node::Endpoint>)
    ensures
        final(s)@ == old(s)@ + spec_endpoint_line(key@, crate::node::opt_endpoint_view(*e)),
{
    match e {
        Some(ev) => {
            s.append(key);
            s.append(ev.address.as_str());
            push_char(s, ':');
            let d = u16_to_string(ev.port);
            s.append(d.as_str());
            push_char(s, '\n');
            proof {
                assert(s@ =~= old(s)@ + spec_endpoint_line(
                    key@,
                    crate::node::opt_endpoint_view(*e),
                ));
            }
        },
        None => {
            proof {
                assert(s@ =~= old(s)@ + spec_endpoint_line(
                    key@,
                    crate::node::opt_endpoint_view(*e),
                ));
            }
        },
    }
}

/// The networks a node holds under the given optional list.
pub(crate) fn nets_vec(o: &Option<Vec<IpNet>>) -> (r: Vec<IpNet>)
    ensures
        r@.map_values(|n: IpNet| n@) == nets_of(crate::node::opt_nets_view(*o)),
{
    match o {
        Some(v) => crate::node::clone_nets(v),
        None => {
            let r: Vec<IpNet> = Vec::new();
            proof {
                assert(r@.map_values(|n: IpNet| n@) =~= Seq::<Seq<char>>::empty());
            }
            r
        },
    }
}

/// Appends the `[Interface]` stanza of the node's own settings.
#[verifier::rlimit(100)]
fn append_interface_stanza(s: &mut String, node: &Node)
    ensures
        final(s)@ == old(s)@ + spec_interface_stanza(node@),
{
    s.append("[Interface]\n");
    append_opt_line(s, "PrivateKey = ", &node.private_key);
    let addrs = nets_vec(&node.address);
    append_nets_line(s, "Address = ", &addrs);
    append_u16_line(s, "ListenPort = ", node.listen_port);
    append_u16_line(s, "MTU = ", node.mtu);
    append_opt_line(s, "PreUp = ", &node.pre_up);
    append_opt_line(s, "PostUp = ", &node.post_up);
    append_opt_line(s, "PreDown = ", &node.pre_down);
    append_opt_line(s, "PostDown = ", &node.post_down);
    proof {
        assert(s@ =~= old(s)@ + spec_interface_stanza(node@));
    }
}

/// Appends the `[Peer]` stanza that shows the relay to a peer.
#[verifier::rlimit(100)]
fn append_hub_stanza(s: &mut String, relay: &Node, peer: &Node)
    ensures
        final(s)@ == old(s)@ + spec_hub_stanza(relay@, peer@),
{
    s.append("[Peer]\n");
    append_opt_line(s, "PublicKey = ", &relay.public_key);
    let relay_addrs = nets_vec(&relay.address);
    let blocks = trunc_all(&relay_addrs);
    let routes = nets_vec(&peer.endpoint_allowed_ips);
    let allowed = union_nets(&blocks, &routes);
    append_nets_line(s, "AllowedIPs = ", &allowed);
    append_endpoint_line(s, "Endpoint = ", &relay.endpoint);
    append_u16_line(s, "PersistentKeepalive = ", peer.persistent_keepalive);
    proof {
        assert(s@ =~= old(s)@ + spec_hub_stanza(relay@, peer@));
    }
}

/// Appends the `[Peer]` stanza that shows one peer to the relay.
fn append_peer_stanza(s: &mut String, peer: &Node)
    ensures
        final(s)@ == old(s)@ + spec_peer_stanza(peer@),
{
    s.append("[Peer]\n");
    append_opt_line(s, "PublicKey = ", &peer.public_key);
    let addrs = nets_vec(&peer.address);
    let extra = nets_vec(&peer.allowed_ips);
    let allowed = union_nets(&addrs, &extra);
    append_nets_line(s, "AllowedIPs = ", &allowed);
    append_u16_line(s, "PersistentKeepalive = ", peer.persistent_keepalive);
    proof {
        assert(s@ =~= old(s)@ + spec_peer_stanza(peer@));
    }
}

/// Renders the configuration a named peer consumes: the peer's own
/// `[Interface]` stanza and exactly one `[Peer]` stanza, which shows
/// the relay.  Fails with `NotFound` when no peer carries the name,
/// and with `NoRelay` when no relay is designated.
pub fn render_peer_config(d: &Directory, peer_name: &str) -> (r: Result<String, DirectoryError>)
    ensures
        ({
            let dv = d@;
            &&& (!Directory::spec_has_peer(dv, peer_name@) ==> r == Err::<String, DirectoryError>(
                DirectoryError::NotFound,
            ))
            &&& (Directory::spec_has_peer(dv, peer_name@) && dv.relay is None ==> r == Err::<
                String,
                DirectoryError,
            >(DirectoryError::NoRelay))
            &&& (Directory::spec_has_peer(dv, peer_name@) && dv.relay is Some ==> r is Ok
                && exists|i: int|
                0 <= i < dv.peers.len() && (#[trigger] dv.peers[i]).name == Some(peer_name@) && (
                forall|k: int| 0 <= k < i ==> (#[trigger] dv.peers[k]).name != Some(peer_name@))
                    && r.unwrap()@ == spec_interface_stanza(dv.peers[i]) + spec_hub_stanza(
                    dv.relay.unwrap(),
                    dv.peers[i],
                ))
        }),
{
    let ghost dv = d@;
    let n = d.peers.len();
    let mut i: usize = 0;
    while i < n
        invariant
            i <= n,
            n == d.peers.len(),
            dv == d@,
            forall|k: int| 0 <= k < i ==> (#[trigger] dv.peers[k]).name != Some(peer_name@),
        decreases n - i,
    {
        proof {
            assert(dv.peers[i as int] == d.peers@[i as int]@);
        }
        if opt_name_is(&d.peers[i].name, peer_name) {
            match &d.relay {
                None => {
                    return Err(DirectoryError::NoRelay);
                },
                Some(relay) => {
                    let mut s = String::new();
                    append_interface_stanza(&mut s, &d.peers[i]);
                    append_hub_stanza(&mut s, relay, &d.peers[i]);
                    proof {
                        assert(s@ =~= spec_interface_stanza(dv.peers[i as int]) + spec_hub_stanza(
                            dv.relay.unwrap(),
                            dv.peers[i as int],
                        ));
                    }
                    return Ok(s);
                },
            }
        }
        i = i + 1;
    }
    Err(DirectoryError::NotFound)
}

/// Renders the configuration the relay consumes: the relay's own
/// `[Interface]` stanza and one `[Peer]` stanza per peer, in insertion
/// order.  Fails with `NoRelay` when no relay is designated.
pub fn render_relay_config(d: &Directory) -> (r: Result<String, DirectoryError>)
    ensures
        ({
            let dv = d@;
            &&& (dv.relay is None ==> r == Err::<String, DirectoryError>(DirectoryError::NoRelay))
            &&& (dv.relay is Some ==> r is Ok && r.unwrap()@ == spec_interface_stanza(
                dv.relay.unwrap(),
            ) + spec_peer_stanzas(dv.peers))
        }),
{
    let ghost dv = d@;
    match &d.relay {
        None => Err(DirectoryError::NoRelay),
        Some(relay) => {
            let mut s = String::new();
            append_interface_stanza(&mut s, relay);
            let ghost base = spec_interface_stanza(dv.relay.unwrap());
            let n = d.peers.len();
            let mut i: usize = 0;
            while i < n
                invariant
                    i <= n,
                    n == d.peers.len(),
                    dv == d@,
                    base == spec_interface_stanza(dv.relay.unwrap()),
                    s@ == base + spec_peer_stanzas(dv.peers.subrange(0, i as int)),
                decreases n - i,
            {
                proof {
                    assert(dv.peers[i as int] == d.peers@[i as int]@);
                }
                append_peer_stanza(&mut s, &d.peers[i]);
                proof {
                    let pre = dv.peers.subrange(0, i as int);
                    let cur = dv.peers.subrange(0, i as int + 1);
                    assert(cur.drop_last() =~= pre);
                    assert(cur.last() == dv.peers[i as int]);
                    assert(s@ =~= base + spec_peer_stanzas(cur));
                }
                i = i + 1;
            }
            proof {
                assert(dv.peers.subrange(0, n as int) =~= dv.peers);
            }
            Ok(s)
        },
    }
}

} // verus!
