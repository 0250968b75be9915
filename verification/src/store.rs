//! The on-disk document of a directory, and its codec.
//!
//! The document is line oriented: an optional `[relay]` section, then
//! one `[peer]` section per peer, in order; inside a section one
//! `key=value` line per present field.  Encoding and decoding are
//! exact inverses on well-formed directories.

use vstd::prelude::*;
use crate::node::{EndpointView, NodeView};
use crate::text::{
    chars_string, find_char, find_in, is_dec_digits, push_char, spec_dec, spec_dec_val, str_chars,
};

verus! {

/// Errors of the directory store.
#[derive(Debug, Clone, Copy, PartialEq, Eq, Structural)]
pub enum StoreError {
    /// The store's path cannot be used.
    PathInvalid,
    /// Reading or writing the backing document failed.
    IOFailure,
    /// The document does not parse as a directory.
    MalformedDocument,
}

/// Whether `c` does not occur in `s`.
pub open spec fn no_char(s: Seq<char>, c: char) -> bool {
    forall|k: int| 0 <= k < s.len() ==> s[k] != c
}

/// The lines, each closed by a newline, as one text.
pub open spec fn spec_unlines(lines: Seq<Seq<char>>) -> Seq<char>
    decreases lines.len(),
{
    if lines.len() == 0 {
        Seq::empty()
    } else {
        lines[0] + seq!['\n'] + spec_unlines(lines.drop_first())
    }
}

/// The text split at newlines; nothing when the text is not a whole
/// number of closed lines.
pub open spec fn spec_split_lines(s: Seq<char>) -> Option<Seq<Seq<char>>>
    decreases s.len(),
{
    if s.len() == 0 {
        Some(Seq::empty())
    } else {
        let i = find_char(s, '\n');
        if i < 0 || i >= s.len() {
            None
        } else {
            match spec_split_lines(s.subrange(i + 1, s.len() as int)) {
                Some(rest) => Some(seq![s.subrange(0, i)] + rest),
                None => None,
            }
        }
    }
}

/// Splitting undoes joining, for lines free of newlines.
pub proof fn lemma_split_unlines(lines: Seq<Seq<char>>)
    requires
        forall|i: int| 0 <= i < lines.len() ==> no_char(#[trigger] lines[i], '\n'),
    ensures
        spec_split_lines(spec_unlines(lines)) == Some(lines),
    decreases lines.len(),
{
    if lines.len() == 0 {
        assert(spec_unlines(lines).len() == 0);
        assert(Some(Seq::<Seq<char>>::empty()) == Some(lines)) by {
            assert(lines =~= Seq::<Seq<char>>::empty());
        }
    } else {
        let l0 = lines[0];
        let rest = lines.drop_first();
        assert(forall|i: int|
            0 <= i < rest.len() ==> no_char(#[trigger] rest[i], '\n')) by {
            assert forall|i: int| 0 <= i < rest.len() implies no_char(#[trigger] rest[i], '\n') by {
                assert(rest[i] == lines[i + 1]);
            }
        }
        lemma_split_unlines(rest);
        let s = spec_unlines(lines);
        assert(s == l0 + seq!['\n'] + spec_unlines(rest));
        assert(s.len() == l0.len() + 1 + spec_unlines(rest).len());
        assert(s[l0.len() as int] == '\n');
        assert(no_char(l0, '\n'));
        assert forall|k: int| 0 <= k < l0.len() implies s[k] != '\n' by {
            assert(s[k] == l0[k]);
        }
        crate::text::lemma_find_char_is(s, '\n', l0.len() as int);
        assert(s.subrange(0, l0.len() as int) =~= l0);
        assert(s.subrange(l0.len() as int + 1, s.len() as int) =~= spec_unlines(rest));
        assert(seq![l0] + rest =~= lines);
    }
}

/// Whether a line is a `key=value` pair.
pub open spec fn is_kv(l: Seq<char>) -> bool {
    find_char(l, '=') >= 0
}

/// The key part of a `key=value` line.
pub open spec fn kv_key(l: Seq<char>) -> Seq<char> {
    l.subrange(0, find_char(l, '='))
}

/// The value part of a `key=value` line.
pub open spec fn kv_val(l: Seq<char>) -> Seq<char> {
    l.subrange(find_char(l, '=') + 1, l.len() as int)
}

/// A `key=value` line.
pub open spec fn kv_line(key: Seq<char>, val: Seq<char>) -> Seq<char> {
    key + seq!['='] + val
}

/// A `key=value` line splits back into its key and its value, for a
/// key free of `=`.
pub proof fn lemma_kv_line(key: Seq<char>, val: Seq<char>)
    requires
        no_char(key, '='),
    ensures
        is_kv(kv_line(key, val)),
        kv_key(kv_line(key, val)) == key,
        kv_val(kv_line(key, val)) == val,
{
    let l = kv_line(key, val);
    assert(l[key.len() as int] == '=');
    assert forall|k: int| 0 <= k < key.len() implies l[k] != '=' by {
        assert(l[k] == key[k]);
    }
    crate::text::lemma_find_char_is(l, '=', key.len() as int);
    assert(l.subrange(0, key.len() as int) =~= key);
    assert(l.subrange(key.len() as int + 1, l.len() as int) =~= val);
}

/// A text in which `=` does not occur is no `key=value` line.
pub proof fn lemma_not_kv(l: Seq<char>)
    requires
        no_char(l, '='),
    ensures
        !is_kv(l),
{
    crate::text::lemma_find_char_none(l, '=');
}

/// The items joined with commas between them, front first.
pub open spec fn commas(items: Seq<Seq<char>>) -> Seq<char>
    decreases items.len(),
{
    if items.len() == 0 {
        Seq::empty()
    } else if items.len() == 1 {
        items[0]
    } else {
        items[0] + seq![','] + commas(items.drop_first())
    }
}

/// A comma-joined text split back into its items.
pub open spec fn spec_split_commas(s: Seq<char>) -> Seq<Seq<char>>
    decreases s.len(),
{
    let i = find_char(s, ',');
    if i < 0 || i >= s.len() {
        seq![s]
    } else {
        seq![s.subrange(0, i)] + spec_split_commas(s.subrange(i + 1, s.len() as int))
    }
}

/// Splitting undoes joining, for a non-empty list of items free of
/// commas.
pub proof fn lemma_split_commas(items: Seq<Seq<char>>)
    requires
        items.len() >= 1,
        forall|i: int| 0 <= i < items.len() ==> no_char(#[trigger] items[i], ','),
    ensures
        spec_split_commas(commas(items)) == items,
    decreases items.len(),
{
    let s = commas(items);
    if items.len() == 1 {
        assert(s == items[0]);
        crate::text::lemma_find_char_none(s, ',');
        assert(seq![s] =~= items);
    } else {
        let i0 = items[0];
        let rest = items.drop_first();
        assert(forall|i: int| 0 <= i < rest.len() ==> no_char(#[trigger] rest[i], ',')) by {
            assert forall|i: int| 0 <= i < rest.len() implies no_char(#[trigger] rest[i], ',') by {
                assert(rest[i] == items[i + 1]);
            }
        }
        lemma_split_commas(rest);
        assert(s == i0 + seq![','] + commas(rest));
        assert(s[i0.len() as int] == ',');
        assert forall|k: int| 0 <= k < i0.len() implies s[k] != ',' by {
            assert(s[k] == i0[k]);
        }
        crate::text::lemma_find_char_is(s, ',', i0.len() as int);
        assert(s.subrange(0, i0.len() as int) =~= i0);
        assert(s.subrange(i0.len() as int + 1, s.len() as int) =~= commas(rest));
        assert(seq![i0] + rest =~= items);
    }
}

/// The fields of one node as read from its section, before the
/// endpoint halves are combined.
pub ghost struct RawNode {
    pub name: Option<Seq<char>>,
    pub address: Option<Seq<Seq<char>>>,
    pub public_key: Option<Seq<char>>,
    pub private_key: Option<Seq<char>>,
    pub listen_port: Option<u16>,
    pub allowed_ips: Option<Seq<Seq<char>>>,
    pub endpoint_allowed_ips: Option<Seq<Seq<char>>>,
    pub persistent_keepalive: Option<u16>,
    pub endpoint_host: Option<Seq<char>>,
    pub endpoint_port: Option<u16>,
    pub mtu: Option<u16>,
    pub pre_up: Option<Seq<char>>,
    pub post_up: Option<Seq<char>>,
    pub pre_down: Option<Seq<char>>,
    pub post_down: Option<Seq<char>>,
}

/// A section with no field line yet.
pub open spec fn raw_empty() -> RawNode {
    RawNode {
        name: None,
        address: None,
        public_key: None,
        private_key: None,
        listen_port: None,
        allowed_ips: None,
        endpoint_allowed_ips: None,
        persistent_keepalive: None,
        endpoint_host: None,
        endpoint_port: None,
        mtu: None,
        pre_up: None,
        post_up: None,
        pre_down: None,
        post_down: None,
    }
}

/// A 16-bit value read from canonical decimal digits.
pub open spec fn dec16(v: Seq<char>) -> Option<u16> {
    if crate::text::is_dec_digits(v) && crate::text::spec_dec_val(v) <= 65535 {
        Some(crate::text::spec_dec_val(v) as u16)
    } else {
        None
    }
}

/// Applies one `key=value` line to the fields read so far.  An unknown
/// key or a malformed numeric value rejects the document.
pub open spec fn apply_field(acc: RawNode, k: Seq<char>, v: Seq<char>) -> Option<RawNode> {
    if k == "name"@ {
        Some(RawNode { name: Some(v), ..acc })
    } else if k == "address"@ {
        Some(RawNode { address: Some(spec_split_commas(v)), ..acc })
    } else if k == "public_key"@ {
        Some(RawNode { public_key: Some(v), ..acc })
    } else if k == "private_key"@ {
        Some(RawNode { private_key: Some(v), ..acc })
    } else if k == "listen_port"@ {
        match dec16(v) {
            Some(p) => Some(RawNode { listen_port: Some(p), ..acc }),
            None => None,
        }
    } else if k == "allowed_ips"@ {
        Some(RawNode { allowed_ips: Some(spec_split_commas(v)), ..acc })
    } else if k == "endpoint_allowed_ips"@ {
        Some(RawNode { endpoint_allowed_ips: Some(spec_split_commas(v)), ..acc })
    } else if k == "persistent_keepalive"@ {
        match dec16(v) {
            Some(p) => Some(RawNode { persistent_keepalive: Some(p), ..acc }),
            None => None,
        }
    } else if k == "endpoint_host"@ {
        Some(RawNode { endpoint_host: Some(v), ..acc })
    } else if k == "endpoint_port"@ {
        match dec16(v) {
            Some(p) => Some(RawNode { endpoint_port: Some(p), ..acc }),
            None => None,
        }
    } else if k == "mtu"@ {
        match dec16(v) {
            Some(p) => Some(RawNode { mtu: Some(p), ..acc }),
            None => None,
        }
    } else if k == "pre_up"@ {
        Some(RawNode { pre_up: Some(v), ..acc })
    } else if k == "post_up"@ {
        Some(RawNode { post_up: Some(v), ..acc })
    } else if k == "pre_down"@ {
        Some(RawNode { pre_down: Some(v), ..acc })
    } else if k == "post_down"@ {
        Some(RawNode { post_down: Some(v), ..acc })
    } else {
        None
    }
}

/// Reads `key=value` lines into the fields of one section, until a
/// line that is no such pair; yields the fields and the lines left.
pub open spec fn parse_fields(lines: Seq<Seq<char>>, acc: RawNode) -> Option<
    (RawNode, Seq<Seq<char>>),
>
    decreases lines.len(),
{
    if lines.len() == 0 || !is_kv(lines[0]) {
        Some((acc, lines))
    } else {
        match apply_field(acc, kv_key(lines[0]), kv_val(lines[0])) {
            Some(acc2) => parse_fields(lines.drop_first(), acc2),
            None => None,
        }
    }
}

/// The fields a node keeps apart from the relay mark, as raw section
/// fields.
pub open spec fn raw_of_node(nv: NodeView) -> RawNode {
    RawNode {
        name: nv.name,
        address: nv.address,
        public_key: nv.public_key,
        private_key: nv.private_key,
        listen_port: nv.listen_port,
        allowed_ips: nv.allowed_ips,
        endpoint_allowed_ips: nv.endpoint_allowed_ips,
        persistent_keepalive: nv.persistent_keepalive,
        endpoint_host: match nv.endpoint {
            Some(e) => Some(e.address),
            None => None,
        },
        endpoint_port: match nv.endpoint {
            Some(e) => Some(e.port),
            None => None,
        },
        mtu: nv.mtu,
        pre_up: nv.pre_up,
        post_up: nv.post_up,
        pre_down: nv.pre_down,
        post_down: nv.post_down,
    }
}

/// Combines raw section fields into a node; the two endpoint halves
/// must be present together or not at all.
pub open spec fn raw_to_node(raw: RawNode, relay: bool) -> Option<NodeView> {
    match (raw.endpoint_host, raw.endpoint_port) {
        (Some(h), Some(p)) => Some(
            NodeView {
                relay,
                name: raw.name,
                address: raw.address,
                public_key: raw.public_key,
                private_key: raw.private_key,
                listen_port: raw.listen_port,
                allowed_ips: raw.allowed_ips,
                endpoint_allowed_ips: raw.endpoint_allowed_ips,
                persistent_keepalive: raw.persistent_keepalive,
                endpoint: Some(EndpointView { address: h, port: p }),
                mtu: raw.mtu,
                pre_up: raw.pre_up,
                post_up: raw.post_up,
                pre_down: raw.pre_down,
                post_down: raw.post_down,
            },
        ),
        (None, None) => Some(
            NodeView {
                relay,
                name: raw.name,
                address: raw.address,
                public_key: raw.public_key,
                private_key: raw.private_key,
                listen_port: raw.listen_port,
                allowed_ips: raw.allowed_ips,
                endpoint_allowed_ips: raw.endpoint_allowed_ips,
                persistent_keepalive: raw.persistent_keepalive,
                endpoint: None,
                mtu: raw.mtu,
                pre_up: raw.pre_up,
                post_up: raw.post_up,
                pre_down: raw.pre_down,
                post_down: raw.post_down,
            },
        ),
        _ => None,
    }
}

/// The field line of a present text value.
pub open spec fn opt_kv(key: Seq<char>, o: Option<Seq<char>>) -> Seq<Seq<char>> {
    match o {
        Some(v) => seq![kv_line(key, v)],
        None => Seq::empty(),
    }
}

/// The field line of a present numeric value.
pub open spec fn opt_kv_u16(key: Seq<char>, o: Option<u16>) -> Seq<Seq<char>> {
    match o {
        Some(x) => seq![kv_line(key, spec_dec(x as nat))],
        None => Seq::empty(),
    }
}

/// The field line of a present list of network values.
pub open spec fn opt_kv_nets(key: Seq<char>, o: Option<Seq<Seq<char>>>) -> Seq<Seq<char>> {
    match o {
        Some(l) => seq![kv_line(key, commas(l))],
        None => Seq::empty(),
    }
}

/// The two field lines of a present endpoint.
pub open spec fn endpoint_kv(o: Option<EndpointView>) -> Seq<Seq<char>> {
    match o {
        Some(e) => seq![
            kv_line("endpoint_host"@, e.address),
            kv_line("endpoint_port"@, spec_dec(e.port as nat)),
        ],
        None => Seq::empty(),
    }
}

/// The field lines of one node's section, in canonical order; an
/// absent field has no line.
pub open spec fn node_lines(nv: NodeView) -> Seq<Seq<char>> {
    opt_kv("name"@, nv.name) + opt_kv_nets("address"@, nv.address) + opt_kv(
        "public_key"@,
        nv.public_key,
    ) + opt_kv("private_key"@, nv.private_key) + opt_kv_u16("listen_port"@, nv.listen_port)
        + opt_kv_nets("allowed_ips"@, nv.allowed_ips) + opt_kv_nets(
        "endpoint_allowed_ips"@,
        nv.endpoint_allowed_ips,
    ) + opt_kv_u16("persistent_keepalive"@, nv.persistent_keepalive) + endpoint_kv(nv.endpoint)
        + opt_kv_u16("mtu"@, nv.mtu) + opt_kv("pre_up"@, nv.pre_up) + opt_kv(
        "post_up"@,
        nv.post_up,
    ) + opt_kv("pre_down"@, nv.pre_down) + opt_kv("post_down"@, nv.post_down)
}

/// Whether an optional text is free of newlines.
pub open spec fn str_ok(o: Option<Seq<char>>) -> bool {
    match o {
        Some(s) => no_char(s, '\n'),
        None => true,
    }
}

/// Whether an optional list of network values is non-empty and free
/// of newlines and commas.
pub open spec fn nets_ok(o: Option<Seq<Seq<char>>>) -> bool {
    match o {
        Some(l) => l.len() >= 1 && forall|i: int|
            0 <= i < l.len() ==> no_char(#[trigger] l[i], '\n') && no_char(l[i], ','),
        None => true,
    }
}

/// Whether a node's texts can stand in the line-oriented document.
pub open spec fn node_text_ok(nv: NodeView) -> bool {
    &&& str_ok(nv.name)
    &&& nets_ok(nv.address)
    &&& str_ok(nv.public_key)
    &&& str_ok(nv.private_key)
    &&& nets_ok(nv.allowed_ips)
    &&& nets_ok(nv.endpoint_allowed_ips)
    &&& match nv.endpoint {
        Some(e) => no_char(e.address, '\n'),
        None => true,
    }
    &&& str_ok(nv.pre_up)
    &&& str_ok(nv.post_up)
    &&& str_ok(nv.pre_down)
    &&& str_ok(nv.post_down)
}

/// `find_char` failing means the character is absent.
proof fn lemma_no_char_of_find(s: Seq<char>, c: char)
    requires
        find_char(s, c) == -1,
    ensures
        no_char(s, c),
    decreases s.len(),
{
    if s.len() > 0 {
        lemma_no_char_of_find(s.drop_first(), c);
        assert forall|k: int| 0 <= k < s.len() implies s[k] != c by {
            if k > 0 {
                assert(s.drop_first()[k - 1] == s[k]);
            }
        }
    }
}

/// Facts about the canonical key and header texts: their lengths,
/// that none holds `=` or a newline, and the pairs of equal length
/// that differ.
#[verifier::rlimit(100)]
proof fn key_facts()
    ensures
        "name"@.len() == 4,
        "address"@.len() == 7,
        "public_key"@.len() == 10,
        "private_key"@.len() == 11,
        "listen_port"@.len() == 11,
        "allowed_ips"@.len() == 11,
        "endpoint_allowed_ips"@.len() == 20,
        "persistent_keepalive"@.len() == 20,
        "endpoint_host"@.len() == 13,
        "endpoint_port"@.len() == 13,
        "mtu"@.len() == 3,
        "pre_up"@.len() == 6,
        "post_up"@.len() == 7,
        "pre_down"@.len() == 8,
        "post_down"@.len() == 9,
        "[relay]"@.len() == 7,
        "[peer]"@.len() == 6,
        no_char("name"@, '='),
        no_char("address"@, '='),
        no_char("public_key"@, '='),
        no_char("private_key"@, '='),
        no_char("listen_port"@, '='),
        no_char("allowed_ips"@, '='),
        no_char("endpoint_allowed_ips"@, '='),
        no_char("persistent_keepalive"@, '='),
        no_char("endpoint_host"@, '='),
        no_char("endpoint_port"@, '='),
        no_char("mtu"@, '='),
        no_char("pre_up"@, '='),
        no_char("post_up"@, '='),
        no_char("pre_down"@, '='),
        no_char("post_down"@, '='),
        no_char("[relay]"@, '='),
        no_char("[peer]"@, '='),
        no_char("name"@, '\n'),
        no_char("address"@, '\n'),
        no_char("public_key"@, '\n'),
        no_char("private_key"@, '\n'),
        no_char("listen_port"@, '\n'),
        no_char("allowed_ips"@, '\n'),
        no_char("endpoint_allowed_ips"@, '\n'),
        no_char("persistent_keepalive"@, '\n'),
        no_char("endpoint_host"@, '\n'),
        no_char("endpoint_port"@, '\n'),
        no_char("mtu"@, '\n'),
        no_char("pre_up"@, '\n'),
        no_char("post_up"@, '\n'),
        no_char("pre_down"@, '\n'),
        no_char("post_down"@, '\n'),
        no_char("[relay]"@, '\n'),
        no_char("[peer]"@, '\n'),
        "private_key"@ != "listen_port"@,
        "private_key"@ != "allowed_ips"@,
        "listen_port"@ != "allowed_ips"@,
        "endpoint_allowed_ips"@ != "persistent_keepalive"@,
        "endpoint_host"@ != "endpoint_port"@,
        "address"@ != "post_up"@,
        "[relay]"@ != "[peer]"@,
{
    reveal_strlit("name");
    reveal_strlit("address");
    reveal_strlit("public_key");
    reveal_strlit("private_key");
    reveal_strlit("listen_port");
    reveal_strlit("allowed_ips");
    reveal_strlit("endpoint_allowed_ips");
    reveal_strlit("persistent_keepalive");
    reveal_strlit("endpoint_host");
    reveal_strlit("endpoint_port");
    reveal_strlit("mtu");
    reveal_strlit("pre_up");
    reveal_strlit("post_up");
    reveal_strlit("pre_down");
    reveal_strlit("post_down");
    reveal_strlit("[relay]");
    reveal_strlit("[peer]");
    reveal_with_fuel(find_char, 22);
    assert(find_char("name"@, '=') == -1);
    lemma_no_char_of_find("name"@, '=');
    assert(find_char("address"@, '=') == -1);
    lemma_no_char_of_find("address"@, '=');
    assert(find_char("public_key"@, '=') == -1);
    lemma_no_char_of_find("public_key"@, '=');
    assert(find_char("private_key"@, '=') == -1);
    lemma_no_char_of_find("private_key"@, '=');
    assert(find_char("listen_port"@, '=') == -1);
    lemma_no_char_of_find("listen_port"@, '=');
    assert(find_char("allowed_ips"@, '=') == -1);
    lemma_no_char_of_find("allowed_ips"@, '=');
    assert(find_char("endpoint_allowed_ips"@, '=') == -1);
    lemma_no_char_of_find("endpoint_allowed_ips"@, '=');
    assert(find_char("persistent_keepalive"@, '=') == -1);
    lemma_no_char_of_find("persistent_keepalive"@, '=');
    assert(find_char("endpoint_host"@, '=') == -1);
    lemma_no_char_of_find("endpoint_host"@, '=');
    assert(find_char("endpoint_port"@, '=') == -1);
    lemma_no_char_of_find("endpoint_port"@, '=');
    assert(find_char("mtu"@, '=') == -1);
    lemma_no_char_of_find("mtu"@, '=');
    assert(find_char("pre_up"@, '=') == -1);
    lemma_no_char_of_find("pre_up"@, '=');
    assert(find_char("post_up"@, '=') == -1);
    lemma_no_char_of_find("post_up"@, '=');
    assert(find_char("pre_down"@, '=') == -1);
    lemma_no_char_of_find("pre_down"@, '=');
    assert(find_char("post_down"@, '=') == -1);
    lemma_no_char_of_find("post_down"@, '=');
    assert(find_char("[relay]"@, '=') == -1);
    lemma_no_char_of_find("[relay]"@, '=');
    assert(find_char("[peer]"@, '=') == -1);
    lemma_no_char_of_find("[peer]"@, '=');
    assert(find_char("name"@, '\n') == -1);
    lemma_no_char_of_find("name"@, '\n');
    assert(find_char("address"@, '\n') == -1);
    lemma_no_char_of_find("address"@, '\n');
    assert(find_char("public_key"@, '\n') == -1);
    lemma_no_char_of_find("public_key"@, '\n');
    assert(find_char("private_key"@, '\n') == -1);
    lemma_no_char_of_find("private_key"@, '\n');
    assert(find_char("listen_port"@, '\n') == -1);
    lemma_no_char_of_find("listen_port"@, '\n');
    assert(find_char("allowed_ips"@, '\n') == -1);
    lemma_no_char_of_find("allowed_ips"@, '\n');
    assert(find_char("endpoint_allowed_ips"@, '\n') == -1);
    lemma_no_char_of_find("endpoint_allowed_ips"@, '\n');
    assert(find_char("persistent_keepalive"@, '\n') == -1);
    lemma_no_char_of_find("persistent_keepalive"@, '\n');
    assert(find_char("endpoint_host"@, '\n') == -1);
    lemma_no_char_of_find("endpoint_host"@, '\n');
    assert(find_char("endpoint_port"@, '\n') == -1);
    lemma_no_char_of_find("endpoint_port"@, '\n');
    assert(find_char("mtu"@, '\n') == -1);
    lemma_no_char_of_find("mtu"@, '\n');
    assert(find_char("pre_up"@, '\n') == -1);
    lemma_no_char_of_find("pre_up"@, '\n');
    assert(find_char("post_up"@, '\n') == -1);
    lemma_no_char_of_find("post_up"@, '\n');
    assert(find_char("pre_down"@, '\n') == -1);
    lemma_no_char_of_find("pre_down"@, '\n');
    assert(find_char("post_down"@, '\n') == -1);
    lemma_no_char_of_find("post_down"@, '\n');
    assert(find_char("[relay]"@, '\n') == -1);
    lemma_no_char_of_find("[relay]"@, '\n');
    assert(find_char("[peer]"@, '\n') == -1);
    lemma_no_char_of_find("[peer]"@, '\n');
    assert("private_key"@[0] != "listen_port"@[0]);
    assert("private_key"@[0] != "allowed_ips"@[0]);
    assert("listen_port"@[0] != "allowed_ips"@[0]);
    assert("endpoint_allowed_ips"@[9] != "persistent_keepalive"@[9]);
    assert("endpoint_host"@[9] != "endpoint_port"@[9]);
    assert("address"@[0] != "post_up"@[0]);
    assert("[relay]"@.len() != "[peer]"@.len());
}

/// Concatenation of line sequences is associative.
proof fn lemma_assoc(a: Seq<Seq<char>>, b: Seq<Seq<char>>, c: Seq<Seq<char>>)
    ensures
        (a + b) + c == a + (b + c),
{
    assert((a + b) + c =~= a + (b + c));
}

/// One step of `parse_fields`: one `key=value` line applied.
proof fn lemma_step_one(line: Seq<char>, t: Seq<Seq<char>>, a: RawNode, a2: RawNode)
    requires
        is_kv(line),
        apply_field(a, kv_key(line), kv_val(line)) == Some(a2),
    ensures
        parse_fields(seq![line] + t, a) == parse_fields(t, a2),
{
    assert((seq![line] + t)[0] == line);
    assert((seq![line] + t).drop_first() =~= t);
}

/// Reading the `name` field line, when one is present.
proof fn consume_name(t: Seq<Seq<char>>, a: RawNode, o: Option<Seq<char>>)
    ensures
        parse_fields(opt_kv("name"@, o) + t, a) == parse_fields(
            t,
            (RawNode { name: if o is Some { o } else { a.name }, ..a }),
        ),
{
    key_facts();
    if o is Some {
        let v = o.unwrap();
        lemma_kv_line("name"@, v);
        lemma_step_one(kv_line("name"@, v), t, a, (RawNode { name: o, ..a }));
        assert(opt_kv("name"@, o) + t =~= seq![kv_line("name"@, v)] + t);
    } else {
        assert(opt_kv("name"@, o) + t =~= t);
    }
}

/// Reading the `public_key` field line, when one is present.
proof fn consume_public_key(t: Seq<Seq<char>>, a: RawNode, o: Option<Seq<char>>)
    ensures
        parse_fields(opt_kv("public_key"@, o) + t, a) == parse_fields(
            t,
            (RawNode { public_key: if o is Some { o } else { a.public_key }, ..a }),
        ),
{
    key_facts();
    if o is Some {
        let v = o.unwrap();
        lemma_kv_line("public_key"@, v);
        lemma_step_one(kv_line("public_key"@, v), t, a, (RawNode { public_key: o, ..a }));
        assert(opt_kv("public_key"@, o) + t =~= seq![kv_line("public_key"@, v)] + t);
    } else {
        assert(opt_kv("public_key"@, o) + t =~= t);
    }
}

/// Reading the `private_key` field line, when one is present.
proof fn consume_private_key(t: Seq<Seq<char>>, a: RawNode, o: Option<Seq<char>>)
    ensures
        parse_fields(opt_kv("private_key"@, o) + t, a) == parse_fields(
            t,
            (RawNode { private_key: if o is Some { o } else { a.private_key }, ..a }),
        ),
{
    key_facts();
    if o is Some {
        let v = o.unwrap();
        lemma_kv_line("private_key"@, v);
        lemma_step_one(kv_line("private_key"@, v), t, a, (RawNode { private_key: o, ..a }));
        assert(opt_kv("private_key"@, o) + t =~= seq![kv_line("private_key"@, v)] + t);
    } else {
        assert(opt_kv("private_key"@, o) + t =~= t);
    }
}

/// Reading the `pre_up` field line, when one is present.
proof fn consume_pre_up(t: Seq<Seq<char>>, a: RawNode, o: Option<Seq<char>>)
    ensures
        parse_fields(opt_kv("pre_up"@, o) + t, a) == parse_fields(
            t,
            (RawNode { pre_up: if o is Some { o } else { a.pre_up }, ..a }),
        ),
{
    key_facts();
    if o is Some {
        let v = o.unwrap();
        lemma_kv_line("pre_up"@, v);
        lemma_step_one(kv_line("pre_up"@, v), t, a, (RawNode { pre_up: o, ..a }));
        assert(opt_kv("pre_up"@, o) + t =~= seq![kv_line("pre_up"@, v)] + t);
    } else {
        assert(opt_kv("pre_up"@, o) + t =~= t);
    }
}

/// Reading the `post_up` field line, when one is present.
proof fn consume_post_up(t: Seq<Seq<char>>, a: RawNode, o: Option<Seq<char>>)
    ensures
        parse_fields(opt_kv("post_up"@, o) + t, a) == parse_fields(
            t,
            (RawNode { post_up: if o is Some { o } else { a.post_up }, ..a }),
        ),
{
    key_facts();
    if o is Some {
        let v = o.unwrap();
        lemma_kv_line("post_up"@, v);
        lemma_step_one(kv_line("post_up"@, v), t, a, (RawNode { post_up: o, ..a }));
        assert(opt_kv("post_up"@, o) + t =~= seq![kv_line("post_up"@, v)] + t);
    } else {
        assert(opt_kv("post_up"@, o) + t =~= t);
    }
}

/// Reading the `pre_down` field line, when one is present.
proof fn consume_pre_down(t: Seq<Seq<char>>, a: RawNode, o: Option<Seq<char>>)
    ensures
        parse_fields(opt_kv("pre_down"@, o) + t, a) == parse_fields(
            t,
            (RawNode { pre_down: if o is Some { o } else { a.pre_down }, ..a }),
        ),
{
    key_facts();
    if o is Some {
        let v = o.unwrap();
        lemma_kv_line("pre_down"@, v);
        lemma_step_one(kv_line("pre_down"@, v), t, a, (RawNode { pre_down: o, ..a }));
        assert(opt_kv("pre_down"@, o) + t =~= seq![kv_line("pre_down"@, v)] + t);
    } else {
        assert(opt_kv("pre_down"@, o) + t =~= t);
    }
}

/// Reading the `post_down` field line, when one is present.
proof fn consume_post_down(t: Seq<Seq<char>>, a: RawNode, o: Option<Seq<char>>)
    ensures
        parse_fields(opt_kv("post_down"@, o) + t, a) == parse_fields(
            t,
            (RawNode { post_down: if o is Some { o } else { a.post_down }, ..a }),
        ),
{
    key_facts();
    if o is Some {
        let v = o.unwrap();
        lemma_kv_line("post_down"@, v);
        lemma_step_one(kv_line("post_down"@, v), t, a, (RawNode { post_down: o, ..a }));
        assert(opt_kv("post_down"@, o) + t =~= seq![kv_line("post_down"@, v)] + t);
    } else {
        assert(opt_kv("post_down"@, o) + t =~= t);
    }
}

/// Reading the `address` field line, when one is present.
proof fn consume_address(t: Seq<Seq<char>>, a: RawNode, o: Option<Seq<Seq<char>>>)
    requires
        nets_ok(o),
    ensures
        parse_fields(opt_kv_nets("address"@, o) + t, a) == parse_fields(
            t,
            (RawNode { address: if o is Some { o } else { a.address }, ..a }),
        ),
{
    key_facts();
    if o is Some {
        let l = o.unwrap();
        lemma_split_commas(l);
        lemma_kv_line("address"@, commas(l));
        lemma_step_one(kv_line("address"@, commas(l)), t, a, (RawNode { address: o, ..a }));
        assert(opt_kv_nets("address"@, o) + t =~= seq![kv_line("address"@, commas(l))] + t);
    } else {
        assert(opt_kv_nets("address"@, o) + t =~= t);
    }
}

/// Reading the `allowed_ips` field line, when one is present.
proof fn consume_allowed_ips(t: Seq<Seq<char>>, a: RawNode, o: Option<Seq<Seq<char>>>)
    requires
        nets_ok(o),
    ensures
        parse_fields(opt_kv_nets("allowed_ips"@, o) + t, a) == parse_fields(
            t,
            (RawNode { allowed_ips: if o is Some { o } else { a.allowed_ips }, ..a }),
        ),
{
    key_facts();
    if o is Some {
        let l = o.unwrap();
        lemma_split_commas(l);
        lemma_kv_line("allowed_ips"@, commas(l));
        lemma_step_one(kv_line("allowed_ips"@, commas(l)), t, a, (RawNode { allowed_ips: o, ..a }));
        assert(opt_kv_nets("allowed_ips"@, o) + t =~= seq![kv_line("allowed_ips"@, commas(l))] + t);
    } else {
        assert(opt_kv_nets("allowed_ips"@, o) + t =~= t);
    }
}

/// Reading the `endpoint_allowed_ips` field line, when one is present.
proof fn consume_endpoint_allowed_ips(t: Seq<Seq<char>>, a: RawNode, o: Option<Seq<Seq<char>>>)
    requires
        nets_ok(o),
    ensures
        parse_fields(opt_kv_nets("endpoint_allowed_ips"@, o) + t, a) == parse_fields(
            t,
            (RawNode { endpoint_allowed_ips: if o is Some { o } else { a.endpoint_allowed_ips }, ..a }),
        ),
{
    key_facts();
    if o is Some {
        let l = o.unwrap();
        lemma_split_commas(l);
        lemma_kv_line("endpoint_allowed_ips"@, commas(l));
        lemma_step_one(kv_line("endpoint_allowed_ips"@, commas(l)), t, a, (RawNode { endpoint_allowed_ips: o, ..a }));
        assert(opt_kv_nets("endpoint_allowed_ips"@, o) + t =~= seq![kv_line("endpoint_allowed_ips"@, commas(l))] + t);
    } else {
        assert(opt_kv_nets("endpoint_allowed_ips"@, o) + t =~= t);
    }
}

/// Reading the `listen_port` field line, when one is present.
proof fn consume_listen_port(t: Seq<Seq<char>>, a: RawNode, o: Option<u16>)
    ensures
        parse_fields(opt_kv_u16("listen_port"@, o) + t, a) == parse_fields(
            t,
            (RawNode { listen_port: if o is Some { o } else { a.listen_port }, ..a }),
        ),
{
    key_facts();
    if o is Some {
        let x = o.unwrap();
        crate::text::lemma_dec_round_trip(x as nat);
        lemma_kv_line("listen_port"@, spec_dec(x as nat));
        assert(dec16(spec_dec(x as nat)) == Some(x));
        lemma_step_one(kv_line("listen_port"@, spec_dec(x as nat)), t, a, (RawNode { listen_port: o, ..a }));
        assert(opt_kv_u16("listen_port"@, o) + t =~= seq![kv_line("listen_port"@, spec_dec(x as nat))] + t);
    } else {
        assert(opt_kv_u16("listen_port"@, o) + t =~= t);
    }
}

/// Reading the `persistent_keepalive` field line, when one is present.
proof fn consume_persistent_keepalive(t: Seq<Seq<char>>, a: RawNode, o: Option<u16>)
    ensures
        parse_fields(opt_kv_u16("persistent_keepalive"@, o) + t, a) == parse_fields(
            t,
            (RawNode { persistent_keepalive: if o is Some { o } else { a.persistent_keepalive }, ..a }),
        ),
{
    key_facts();
    if o is Some {
        let x = o.unwrap();
        crate::text::lemma_dec_round_trip(x as nat);
        lemma_kv_line("persistent_keepalive"@, spec_dec(x as nat));
        assert(dec16(spec_dec(x as nat)) == Some(x));
        lemma_step_one(kv_line("persistent_keepalive"@, spec_dec(x as nat)), t, a, (RawNode { persistent_keepalive: o, ..a }));
        assert(opt_kv_u16("persistent_keepalive"@, o) + t =~= seq![kv_line("persistent_keepalive"@, spec_dec(x as nat))] + t);
    } else {
        assert(opt_kv_u16("persistent_keepalive"@, o) + t =~= t);
    }
}

/// Reading the `mtu` field line, when one is present.
proof fn consume_mtu(t: Seq<Seq<char>>, a: RawNode, o: Option<u16>)
    ensures
        parse_fields(opt_kv_u16("mtu"@, o) + t, a) == parse_fields(
            t,
            (RawNode { mtu: if o is Some { o } else { a.mtu }, ..a }),
        ),
{
    key_facts();
    if o is Some {
        let x = o.unwrap();
        crate::text::lemma_dec_round_trip(x as nat);
        lemma_kv_line("mtu"@, spec_dec(x as nat));
        assert(dec16(spec_dec(x as nat)) == Some(x));
        lemma_step_one(kv_line("mtu"@, spec_dec(x as nat)), t, a, (RawNode { mtu: o, ..a }));
        assert(opt_kv_u16("mtu"@, o) + t =~= seq![kv_line("mtu"@, spec_dec(x as nat))] + t);
    } else {
        assert(opt_kv_u16("mtu"@, o) + t =~= t);
    }
}

/// Reading the two endpoint field lines, when an endpoint is
/// present.
proof fn consume_endpoint(t: Seq<Seq<char>>, a: RawNode, o: Option<EndpointView>)
    ensures
        parse_fields(endpoint_kv(o) + t, a) == parse_fields(
            t,
            (RawNode {
                endpoint_host: match o {
                    Some(e) => Some(e.address),
                    None => a.endpoint_host,
                },
                endpoint_port: match o {
                    Some(e) => Some(e.port),
                    None => a.endpoint_port,
                },
                ..a
            }),
        ),
{
    key_facts();
    if o is Some {
        let e = o.unwrap();
        let line1 = kv_line("endpoint_host"@, e.address);
        let line2 = kv_line("endpoint_port"@, spec_dec(e.port as nat));
        let mid = RawNode { endpoint_host: Some(e.address), ..a };
        let done = RawNode { endpoint_host: Some(e.address), endpoint_port: Some(e.port), ..a };
        lemma_kv_line("endpoint_host"@, e.address);
        lemma_step_one(line1, seq![line2] + t, a, mid);
        crate::text::lemma_dec_round_trip(e.port as nat);
        lemma_kv_line("endpoint_port"@, spec_dec(e.port as nat));
        assert(dec16(spec_dec(e.port as nat)) == Some(e.port));
        lemma_step_one(line2, t, mid, done);
        assert(endpoint_kv(o) + t =~= seq![line1] + (seq![line2] + t));
    } else {
        assert(endpoint_kv(o) + t =~= t);
    }
}

/// The first eight field lines of a node's section.
pub open spec fn front_lines(nv: NodeView) -> Seq<Seq<char>> {
    opt_kv("name"@, nv.name) + opt_kv_nets("address"@, nv.address) + opt_kv(
        "public_key"@,
        nv.public_key,
    ) + opt_kv("private_key"@, nv.private_key) + opt_kv_u16("listen_port"@, nv.listen_port)
        + opt_kv_nets("allowed_ips"@, nv.allowed_ips) + opt_kv_nets(
        "endpoint_allowed_ips"@,
        nv.endpoint_allowed_ips,
    ) + opt_kv_u16("persistent_keepalive"@, nv.persistent_keepalive)
}

/// The remaining field lines of a node's section.
pub open spec fn back_lines(nv: NodeView) -> Seq<Seq<char>> {
    endpoint_kv(nv.endpoint) + opt_kv_u16("mtu"@, nv.mtu) + opt_kv("pre_up"@, nv.pre_up) + opt_kv(
        "post_up"@,
        nv.post_up,
    ) + opt_kv("pre_down"@, nv.pre_down) + opt_kv("post_down"@, nv.post_down)
}

/// The section fields after the first eight field lines are read.
pub open spec fn raw_front(nv: NodeView) -> RawNode {
    RawNode {
        name: nv.name,
        address: nv.address,
        public_key: nv.public_key,
        private_key: nv.private_key,
        listen_port: nv.listen_port,
        allowed_ips: nv.allowed_ips,
        endpoint_allowed_ips: nv.endpoint_allowed_ips,
        persistent_keepalive: nv.persistent_keepalive,
        ..raw_empty()
    }
}

/// Reading the first eight field lines of a node collects exactly
/// those fields.
#[verifier::rlimit(100)]
proof fn lemma_parse_node_front(nv: NodeView, rest: Seq<Seq<char>>)
    requires
        node_text_ok(nv),
    ensures
        parse_fields(front_lines(nv) + rest, raw_empty()) == parse_fields(rest, raw_front(nv)),
{
    let t8 = rest;
    let t7 = opt_kv_u16("persistent_keepalive"@, nv.persistent_keepalive) + t8;
    let t6 = opt_kv_nets("endpoint_allowed_ips"@, nv.endpoint_allowed_ips) + t7;
    let t5 = opt_kv_nets("allowed_ips"@, nv.allowed_ips) + t6;
    let t4 = opt_kv_u16("listen_port"@, nv.listen_port) + t5;
    let t3 = opt_kv("private_key"@, nv.private_key) + t4;
    let t2 = opt_kv("public_key"@, nv.public_key) + t3;
    let t1 = opt_kv_nets("address"@, nv.address) + t2;
    let t0 = opt_kv("name"@, nv.name) + t1;
    let f1 = opt_kv("name"@, nv.name);
    let f2 = f1 + opt_kv_nets("address"@, nv.address);
    let f3 = f2 + opt_kv("public_key"@, nv.public_key);
    let f4 = f3 + opt_kv("private_key"@, nv.private_key);
    let f5 = f4 + opt_kv_u16("listen_port"@, nv.listen_port);
    let f6 = f5 + opt_kv_nets("allowed_ips"@, nv.allowed_ips);
    let f7 = f6 + opt_kv_nets("endpoint_allowed_ips"@, nv.endpoint_allowed_ips);
    assert(front_lines(nv) == f7 + opt_kv_u16("persistent_keepalive"@, nv.persistent_keepalive));
    lemma_assoc(f7, opt_kv_u16("persistent_keepalive"@, nv.persistent_keepalive), t8);
    lemma_assoc(f6, opt_kv_nets("endpoint_allowed_ips"@, nv.endpoint_allowed_ips), t7);
    lemma_assoc(f5, opt_kv_nets("allowed_ips"@, nv.allowed_ips), t6);
    lemma_assoc(f4, opt_kv_u16("listen_port"@, nv.listen_port), t5);
    lemma_assoc(f3, opt_kv("private_key"@, nv.private_key), t4);
    lemma_assoc(f2, opt_kv("public_key"@, nv.public_key), t3);
    lemma_assoc(f1, opt_kv_nets("address"@, nv.address), t2);
    assert(front_lines(nv) + rest == t0);
    let a0 = raw_empty();
    let a1 = RawNode { name: nv.name, ..a0 };
    let a2 = RawNode { address: nv.address, ..a1 };
    let a3 = RawNode { public_key: nv.public_key, ..a2 };
    let a4 = RawNode { private_key: nv.private_key, ..a3 };
    let a5 = RawNode { listen_port: nv.listen_port, ..a4 };
    let a6 = RawNode { allowed_ips: nv.allowed_ips, ..a5 };
    let a7 = RawNode { endpoint_allowed_ips: nv.endpoint_allowed_ips, ..a6 };
    let a8 = RawNode { persistent_keepalive: nv.persistent_keepalive, ..a7 };
    consume_name(t1, a0, nv.name);
    assert(parse_fields(t0, a0) == parse_fields(t1, a1));
    consume_address(t2, a1, nv.address);
    assert(parse_fields(t1, a1) == parse_fields(t2, a2));
    consume_public_key(t3, a2, nv.public_key);
    assert(parse_fields(t2, a2) == parse_fields(t3, a3));
    consume_private_key(t4, a3, nv.private_key);
    assert(parse_fields(t3, a3) == parse_fields(t4, a4));
    consume_listen_port(t5, a4, nv.listen_port);
    assert(parse_fields(t4, a4) == parse_fields(t5, a5));
    consume_allowed_ips(t6, a5, nv.allowed_ips);
    assert(parse_fields(t5, a5) == parse_fields(t6, a6));
    consume_endpoint_allowed_ips(t7, a6, nv.endpoint_allowed_ips);
    assert(parse_fields(t6, a6) == parse_fields(t7, a7));
    consume_persistent_keepalive(t8, a7, nv.persistent_keepalive);
    assert(parse_fields(t7, a7) == parse_fields(t8, a8));
    assert(a8 == raw_front(nv));
}

/// Reading the remaining field lines of a node completes its fields
/// and stops at the first line that is no field line.
#[verifier::rlimit(100)]
proof fn lemma_parse_node_back(nv: NodeView, rest: Seq<Seq<char>>)
    requires
        node_text_ok(nv),
        rest.len() > 0 ==> !is_kv(rest[0]),
    ensures
        parse_fields(back_lines(nv) + rest, raw_front(nv)) == Some((raw_of_node(nv), rest)),
{
    let t14 = rest;
    let t13 = opt_kv("post_down"@, nv.post_down) + t14;
    let t12 = opt_kv("pre_down"@, nv.pre_down) + t13;
    let t11 = opt_kv("post_up"@, nv.post_up) + t12;
    let t10 = opt_kv("pre_up"@, nv.pre_up) + t11;
    let t9 = opt_kv_u16("mtu"@, nv.mtu) + t10;
    let t8 = endpoint_kv(nv.endpoint) + t9;
    assert(back_lines(nv) + rest =~= t8);
    let a8 = raw_front(nv);
    let a9 = RawNode {
        endpoint_host: match nv.endpoint {
            Some(e) => Some(e.address),
            None => None,
        },
        endpoint_port: match nv.endpoint {
            Some(e) => Some(e.port),
            None => None,
        },
        ..a8
    };
    let a10 = RawNode { mtu: nv.mtu, ..a9 };
    let a11 = RawNode { pre_up: nv.pre_up, ..a10 };
    let a12 = RawNode { post_up: nv.post_up, ..a11 };
    let a13 = RawNode { pre_down: nv.pre_down, ..a12 };
    let a14 = RawNode { post_down: nv.post_down, ..a13 };
    consume_endpoint(t9, a8, nv.endpoint);
    assert(parse_fields(t8, a8) == parse_fields(t9, a9));
    consume_mtu(t10, a9, nv.mtu);
    assert(parse_fields(t9, a9) == parse_fields(t10, a10));
    consume_pre_up(t11, a10, nv.pre_up);
    assert(parse_fields(t10, a10) == parse_fields(t11, a11));
    consume_post_up(t12, a11, nv.post_up);
    assert(parse_fields(t11, a11) == parse_fields(t12, a12));
    consume_pre_down(t13, a12, nv.pre_down);
    assert(parse_fields(t12, a12) == parse_fields(t13, a13));
    consume_post_down(t14, a13, nv.post_down);
    assert(parse_fields(t13, a13) == parse_fields(t14, a14));
    assert(parse_fields(t14, a14) == Some((a14, rest)));
    assert(a14 == raw_of_node(nv));
}

/// Reading back the lines of one node yields exactly its fields and
/// leaves the following lines untouched.
pub proof fn lemma_parse_node_lines(nv: NodeView, rest: Seq<Seq<char>>)
    requires
        node_text_ok(nv),
        rest.len() > 0 ==> !is_kv(rest[0]),
    ensures
        parse_fields(node_lines(nv) + rest, raw_empty()) == Some((raw_of_node(nv), rest)),
{
    lemma_parse_node_front(nv, back_lines(nv) + rest);
    lemma_parse_node_back(nv, rest);
    let f = front_lines(nv);
    let b1 = endpoint_kv(nv.endpoint);
    let b2 = opt_kv_u16("mtu"@, nv.mtu);
    let b3 = opt_kv("pre_up"@, nv.pre_up);
    let b4 = opt_kv("post_up"@, nv.post_up);
    let b5 = opt_kv("pre_down"@, nv.pre_down);
    let b6 = opt_kv("post_down"@, nv.post_down);
    assert(node_lines(nv) == ((((((f + b1) + b2) + b3) + b4) + b5) + b6));
    assert(back_lines(nv) == (((((b1 + b2) + b3) + b4) + b5) + b6));
    lemma_assoc(f + b1 + b2 + b3 + b4 + b5, b6, rest);
    lemma_assoc(f + b1 + b2 + b3 + b4, b5, b6 + rest);
    lemma_assoc(f + b1 + b2 + b3, b4, b5 + (b6 + rest));
    lemma_assoc(f + b1 + b2, b3, b4 + (b5 + (b6 + rest)));
    lemma_assoc(f + b1, b2, b3 + (b4 + (b5 + (b6 + rest))));
    lemma_assoc(f, b1, b2 + (b3 + (b4 + (b5 + (b6 + rest)))));
    lemma_assoc(b1, b2, b3 + (b4 + (b5 + (b6 + rest))));
    lemma_assoc(b1 + b2, b3, b4 + (b5 + (b6 + rest)));
    lemma_assoc(b1 + b2 + b3, b4, b5 + (b6 + rest));
    lemma_assoc(b1 + b2 + b3 + b4, b5, b6 + rest);
    lemma_assoc(b1 + b2 + b3 + b4 + b5, b6, rest);
    assert(node_lines(nv) + rest == f + (back_lines(nv) + rest));
}

/// The section lines of all peers, in order.
pub open spec fn peers_lines(peers: Seq<NodeView>) -> Seq<Seq<char>>
    decreases peers.len(),
{
    if peers.len() == 0 {
        Seq::empty()
    } else {
        seq!["[peer]"@] + node_lines(peers[0]) + peers_lines(peers.drop_first())
    }
}

/// The lines of the whole document: the relay section, when a relay
/// is designated, then one peer section per peer.
pub open spec fn dir_lines(dv: crate::directory::DirectoryView) -> Seq<Seq<char>> {
    (match dv.relay {
        Some(r) => seq!["[relay]"@] + node_lines(r),
        None => Seq::empty(),
    }) + peers_lines(dv.peers)
}

/// The document text of a directory.
pub open spec fn spec_render_doc(dv: crate::directory::DirectoryView) -> Seq<char> {
    spec_unlines(dir_lines(dv))
}

/// Reads the peer sections; every block must open with its header.
pub open spec fn parse_blocks(lines: Seq<Seq<char>>) -> Option<Seq<NodeView>>
    decreases lines.len(),
{
    if lines.len() == 0 {
        Some(Seq::empty())
    } else if lines[0] == "[peer]"@ {
        match parse_fields(lines.drop_first(), raw_empty()) {
            Some((raw, rest)) => if rest.len() >= lines.len() {
                None
            } else {
                match raw_to_node(raw, false) {
                    Some(nv) => match parse_blocks(rest) {
                        Some(ps) => Some(seq![nv] + ps),
                        None => None,
                    },
                    None => None,
                }
            },
            None => None,
        }
    } else {
        None
    }
}

/// Reads a whole document from its lines.
pub open spec fn parse_doc_lines(lines: Seq<Seq<char>>) -> Option<
    crate::directory::DirectoryView,
> {
    if lines.len() > 0 && lines[0] == "[relay]"@ {
        match parse_fields(lines.drop_first(), raw_empty()) {
            Some((raw, rest)) => match raw_to_node(raw, true) {
                Some(rv) => match parse_blocks(rest) {
                    Some(ps) => Some(
                        crate::directory::DirectoryView { relay: Some(rv), peers: ps },
                    ),
                    None => None,
                },
                None => None,
            },
            None => None,
        }
    } else {
        match parse_blocks(lines) {
            Some(ps) => Some(crate::directory::DirectoryView { relay: None, peers: ps }),
            None => None,
        }
    }
}

/// Reads a whole document from its text.
pub open spec fn spec_parse_doc(s: Seq<char>) -> Option<crate::directory::DirectoryView> {
    match spec_split_lines(s) {
        Some(lines) => parse_doc_lines(lines),
        None => None,
    }
}

/// Whether every line is free of newlines.
pub open spec fn lines_clean(ls: Seq<Seq<char>>) -> bool {
    forall|i: int| 0 <= i < ls.len() ==> no_char(#[trigger] ls[i], '\n')
}

/// Whether the directory's texts can stand in the document.
pub open spec fn dir_text_ok(dv: crate::directory::DirectoryView) -> bool {
    &&& match dv.relay {
        Some(r) => node_text_ok(r),
        None => true,
    }
    &&& forall|i: int| 0 <= i < dv.peers.len() ==> node_text_ok(#[trigger] dv.peers[i])
}

/// Cleanliness carries over concatenation.
proof fn lemma_lines_clean_concat(a: Seq<Seq<char>>, b: Seq<Seq<char>>)
    requires
        lines_clean(a),
        lines_clean(b),
    ensures
        lines_clean(a + b),
{
    assert forall|i: int| 0 <= i < (a + b).len() implies no_char(#[trigger] (a + b)[i], '\n') by {
        if i < a.len() {
            assert((a + b)[i] == a[i]);
        } else {
            assert((a + b)[i] == b[i - a.len()]);
        }
    }
}

/// A field line of clean parts is clean.
proof fn lemma_kv_line_clean(key: Seq<char>, val: Seq<char>)
    requires
        no_char(key, '\n'),
        no_char(val, '\n'),
    ensures
        no_char(kv_line(key, val), '\n'),
{
    let l = kv_line(key, val);
    assert forall|k: int| 0 <= k < l.len() implies l[k] != '\n' by {
        if k < key.len() {
            assert(l[k] == key[k]);
        } else if k == key.len() {
            assert(l[k] == '=');
        } else {
            assert(l[k] == val[k - key.len() - 1]);
        }
    }
}

/// A comma join of clean items is clean.
proof fn lemma_commas_clean(l: Seq<Seq<char>>)
    requires
        forall|i: int| 0 <= i < l.len() ==> no_char(#[trigger] l[i], '\n'),
    ensures
        no_char(commas(l), '\n'),
    decreases l.len(),
{
    if l.len() <= 1 {
    } else {
        assert(forall|i: int|
            0 <= i < l.drop_first().len() ==> no_char(#[trigger] l.drop_first()[i], '\n')) by {
            assert forall|i: int|
                0 <= i < l.drop_first().len() implies no_char(#[trigger] l.drop_first()[i], '\n') by {
                assert(l.drop_first()[i] == l[i + 1]);
            }
        }
        lemma_commas_clean(l.drop_first());
        let s = commas(l);
        assert forall|k: int| 0 <= k < s.len() implies s[k] != '\n' by {
            if k < l[0].len() {
                assert(s[k] == l[0][k]);
            } else if k == l[0].len() {
                assert(s[k] == ',');
            } else {
                assert(s[k] == commas(l.drop_first())[k - l[0].len() - 1]);
            }
        }
    }
}

/// A decimal rendering is clean.
proof fn lemma_dec_clean(n: nat)
    ensures
        no_char(spec_dec(n), '\n'),
{
    crate::text::lemma_dec_round_trip(n);
    assert forall|k: int| 0 <= k < spec_dec(n).len() implies spec_dec(n)[k] != '\n' by {
        assert(crate::text::is_digit(spec_dec(n)[k]));
    }
}

/// The node's section lines split at the endpoint.
proof fn lemma_node_lines_split(nv: NodeView)
    ensures
        node_lines(nv) == front_lines(nv) + back_lines(nv),
{
    let f = front_lines(nv);
    let b1 = endpoint_kv(nv.endpoint);
    let b2 = opt_kv_u16("mtu"@, nv.mtu);
    let b3 = opt_kv("pre_up"@, nv.pre_up);
    let b4 = opt_kv("post_up"@, nv.post_up);
    let b5 = opt_kv("pre_down"@, nv.pre_down);
    let b6 = opt_kv("post_down"@, nv.post_down);
    assert(node_lines(nv) == ((((((f + b1) + b2) + b3) + b4) + b5) + b6));
    assert(back_lines(nv) == (((((b1 + b2) + b3) + b4) + b5) + b6));
    lemma_assoc(f, b1, b2);
    lemma_assoc(f, b1 + b2, b3);
    lemma_assoc(f, b1 + b2 + b3, b4);
    lemma_assoc(f, b1 + b2 + b3 + b4, b5);
    lemma_assoc(f, b1 + b2 + b3 + b4 + b5, b6);
}

/// The first eight section lines of a node with clean texts are
/// clean.
#[verifier::rlimit(100)]
proof fn lemma_front_lines_clean(nv: NodeView)
    requires
        node_text_ok(nv),
    ensures
        lines_clean(front_lines(nv)),
{
    key_facts();
    let l1 = opt_kv("name"@, nv.name);
    let l2 = opt_kv_nets("address"@, nv.address);
    let l3 = opt_kv("public_key"@, nv.public_key);
    let l4 = opt_kv("private_key"@, nv.private_key);
    let l5 = opt_kv_u16("listen_port"@, nv.listen_port);
    let l6 = opt_kv_nets("allowed_ips"@, nv.allowed_ips);
    let l7 = opt_kv_nets("endpoint_allowed_ips"@, nv.endpoint_allowed_ips);
    let l8 = opt_kv_u16("persistent_keepalive"@, nv.persistent_keepalive);
    if nv.name is Some {
        lemma_kv_line_clean("name"@, nv.name.unwrap());
    }
    if nv.address is Some {
        lemma_commas_clean(nv.address.unwrap());
        lemma_kv_line_clean("address"@, commas(nv.address.unwrap()));
    }
    if nv.public_key is Some {
        lemma_kv_line_clean("public_key"@, nv.public_key.unwrap());
    }
    if nv.private_key is Some {
        lemma_kv_line_clean("private_key"@, nv.private_key.unwrap());
    }
    if nv.listen_port is Some {
        lemma_dec_clean(nv.listen_port.unwrap() as nat);
        lemma_kv_line_clean("listen_port"@, spec_dec(nv.listen_port.unwrap() as nat));
    }
    if nv.allowed_ips is Some {
        lemma_commas_clean(nv.allowed_ips.unwrap());
        lemma_kv_line_clean("allowed_ips"@, commas(nv.allowed_ips.unwrap()));
    }
    if nv.endpoint_allowed_ips is Some {
        lemma_commas_clean(nv.endpoint_allowed_ips.unwrap());
        lemma_kv_line_clean("endpoint_allowed_ips"@, commas(nv.endpoint_allowed_ips.unwrap()));
    }
    if nv.persistent_keepalive is Some {
        lemma_dec_clean(nv.persistent_keepalive.unwrap() as nat);
        lemma_kv_line_clean(
            "persistent_keepalive"@,
            spec_dec(nv.persistent_keepalive.unwrap() as nat),
        );
    }
    lemma_lines_clean_concat(l1, l2);
    lemma_lines_clean_concat(l1 + l2, l3);
    lemma_lines_clean_concat(l1 + l2 + l3, l4);
    lemma_lines_clean_concat(l1 + l2 + l3 + l4, l5);
    lemma_lines_clean_concat(l1 + l2 + l3 + l4 + l5, l6);
    lemma_lines_clean_concat(l1 + l2 + l3 + l4 + l5 + l6, l7);
    lemma_lines_clean_concat(l1 + l2 + l3 + l4 + l5 + l6 + l7, l8);
}

/// The remaining section lines of a node with clean texts are clean.
#[verifier::rlimit(100)]
proof fn lemma_back_lines_clean(nv: NodeView)
    requires
        node_text_ok(nv),
    ensures
        lines_clean(back_lines(nv)),
{
    key_facts();
    let l9 = endpoint_kv(nv.endpoint);
    let l10 = opt_kv_u16("mtu"@, nv.mtu);
    let l11 = opt_kv("pre_up"@, nv.pre_up);
    let l12 = opt_kv("post_up"@, nv.post_up);
    let l13 = opt_kv("pre_down"@, nv.pre_down);
    let l14 = opt_kv("post_down"@, nv.post_down);
    if nv.endpoint is Some {
        let e = nv.endpoint.unwrap();
        lemma_kv_line_clean("endpoint_host"@, e.address);
        lemma_dec_clean(e.port as nat);
        lemma_kv_line_clean("endpoint_port"@, spec_dec(e.port as nat));
    }
    if nv.mtu is Some {
        lemma_dec_clean(nv.mtu.unwrap() as nat);
        lemma_kv_line_clean("mtu"@, spec_dec(nv.mtu.unwrap() as nat));
    }
    if nv.pre_up is Some {
        lemma_kv_line_clean("pre_up"@, nv.pre_up.unwrap());
    }
    if nv.post_up is Some {
        lemma_kv_line_clean("post_up"@, nv.post_up.unwrap());
    }
    if nv.pre_down is Some {
        lemma_kv_line_clean("pre_down"@, nv.pre_down.unwrap());
    }
    if nv.post_down is Some {
        lemma_kv_line_clean("post_down"@, nv.post_down.unwrap());
    }
    lemma_lines_clean_concat(l9, l10);
    lemma_lines_clean_concat(l9 + l10, l11);
    lemma_lines_clean_concat(l9 + l10 + l11, l12);
    lemma_lines_clean_concat(l9 + l10 + l11 + l12, l13);
    lemma_lines_clean_concat(l9 + l10 + l11 + l12 + l13, l14);
}

/// The section lines of a node with clean texts are clean.
proof fn lemma_node_lines_clean(nv: NodeView)
    requires
        node_text_ok(nv),
    ensures
        lines_clean(node_lines(nv)),
{
    lemma_front_lines_clean(nv);
    lemma_back_lines_clean(nv);
    lemma_node_lines_split(nv);
    lemma_lines_clean_concat(front_lines(nv), back_lines(nv));
}

/// The peer sections of clean peers are clean.
proof fn lemma_peers_lines_clean(peers: Seq<NodeView>)
    requires
        forall|i: int| 0 <= i < peers.len() ==> node_text_ok(#[trigger] peers[i]),
    ensures
        lines_clean(peers_lines(peers)),
    decreases peers.len(),
{
    key_facts();
    if peers.len() > 0 {
        assert(forall|i: int|
            0 <= i < peers.drop_first().len() ==> node_text_ok(
                #[trigger] peers.drop_first()[i],
            )) by {
            assert forall|i: int|
                0 <= i < peers.drop_first().len() implies node_text_ok(
                #[trigger] peers.drop_first()[i]) by {
                assert(peers.drop_first()[i] == peers[i + 1]);
            }
        }
        lemma_peers_lines_clean(peers.drop_first());
        lemma_node_lines_clean(peers[0]);
        assert(lines_clean(seq!["[peer]"@])) by {
            assert(seq!["[peer]"@][0] == "[peer]"@);
        }
        lemma_lines_clean_concat(seq!["[peer]"@], node_lines(peers[0]));
        lemma_lines_clean_concat(
            seq!["[peer]"@] + node_lines(peers[0]),
            peers_lines(peers.drop_first()),
        );
    }
}

/// Reading back the peer sections yields the peers again.
proof fn lemma_parse_blocks_round(peers: Seq<NodeView>)
    requires
        forall|i: int|
            0 <= i < peers.len() ==> node_text_ok(#[trigger] peers[i]) && !peers[i].relay,
    ensures
        parse_blocks(peers_lines(peers)) == Some(peers),
    decreases peers.len(),
{
    key_facts();
    if peers.len() == 0 {
        assert(Some(Seq::<NodeView>::empty()) == Some(peers)) by {
            assert(peers =~= Seq::<NodeView>::empty());
        }
    } else {
        let p0 = peers[0];
        let tail = peers.drop_first();
        assert(forall|i: int|
            0 <= i < tail.len() ==> node_text_ok(#[trigger] tail[i]) && !tail[i].relay) by {
            assert forall|i: int|
                0 <= i < tail.len() implies node_text_ok(#[trigger] tail[i]) && !tail[i].relay by {
                assert(tail[i] == peers[i + 1]);
            }
        }
        lemma_parse_blocks_round(tail);
        let ls = peers_lines(peers);
        assert(ls == seq!["[peer]"@] + node_lines(p0) + peers_lines(tail));
        assert(ls[0] == "[peer]"@);
        assert(ls.drop_first() =~= node_lines(p0) + peers_lines(tail));
        if tail.len() > 0 {
            assert(peers_lines(tail)[0] == "[peer]"@);
            lemma_not_kv("[peer]"@);
        }
        lemma_parse_node_lines(p0, peers_lines(tail));
        assert(raw_to_node(raw_of_node(p0), false) == Some(p0));
        assert(peers_lines(tail).len() < ls.len());
        assert(seq![p0] + tail =~= peers);
    }
}

/// Reading back a rendered document yields the directory again.  This
/// is the round trip of the store: what `save` writes, `load` reads
/// back unchanged.
pub proof fn lemma_doc_round_trip(dv: crate::directory::DirectoryView)
    requires
        dv.wf(),
        dir_text_ok(dv),
    ensures
        spec_parse_doc(spec_render_doc(dv)) == Some(dv),
{
    key_facts();
    let ls = dir_lines(dv);
    match dv.relay {
        Some(r) => {
            lemma_node_lines_clean(r);
            lemma_peers_lines_clean(dv.peers);
            assert(lines_clean(seq!["[relay]"@])) by {
                assert(seq!["[relay]"@][0] == "[relay]"@);
            }
            lemma_lines_clean_concat(seq!["[relay]"@], node_lines(r));
            lemma_lines_clean_concat(seq!["[relay]"@] + node_lines(r), peers_lines(dv.peers));
            lemma_split_unlines(ls);
            assert(ls[0] == "[relay]"@);
            assert(ls.drop_first() =~= node_lines(r) + peers_lines(dv.peers));
            if dv.peers.len() > 0 {
                assert(peers_lines(dv.peers)[0] == "[peer]"@);
                lemma_not_kv("[peer]"@);
            }
            lemma_parse_node_lines(r, peers_lines(dv.peers));
            assert(raw_to_node(raw_of_node(r), true) == Some(r));
            lemma_parse_blocks_round(dv.peers);
            assert(parse_doc_lines(ls) == Some(dv)) by {
                assert(crate::directory::DirectoryView { relay: Some(r), peers: dv.peers } == dv);
            }
        },
        None => {
            lemma_peers_lines_clean(dv.peers);
            assert(ls =~= peers_lines(dv.peers));
            lemma_split_unlines(ls);
            lemma_parse_blocks_round(dv.peers);
            if dv.peers.len() > 0 {
                assert(ls[0] == "[peer]"@);
                assert(ls[0] != "[relay]"@);
            }
            assert(parse_doc_lines(ls) == Some(dv)) by {
                assert(crate::directory::DirectoryView { relay: None, peers: dv.peers } == dv);
            }
        },
    }
}

/// Joining lines splits over concatenation.
proof fn lemma_unlines_concat(a: Seq<Seq<char>>, b: Seq<Seq<char>>)
    ensures
        spec_unlines(a + b) == spec_unlines(a) + spec_unlines(b),
    decreases a.len(),
{
    if a.len() == 0 {
        assert(a + b =~= b);
        assert(spec_unlines(a) + spec_unlines(b) =~= spec_unlines(b));
    } else {
        lemma_unlines_concat(a.drop_first(), b);
        assert((a + b).drop_first() =~= a.drop_first() + b);
        assert((a + b)[0] == a[0]);
        assert(spec_unlines(a + b) == (a + b)[0] + seq!['\n'] + spec_unlines((a + b).drop_first()));
        assert(a[0] + seq!['\n'] + (spec_unlines(a.drop_first()) + spec_unlines(b)) =~= (a[0]
            + seq!['\n'] + spec_unlines(a.drop_first())) + spec_unlines(b));
    }
}

/// A comma join grows at its end.
proof fn lemma_commas_push(s: Seq<Seq<char>>, x: Seq<char>)
    ensures
        s.len() == 0 ==> commas(s.push(x)) == x,
        s.len() > 0 ==> commas(s.push(x)) == commas(s) + seq![','] + x,
    decreases s.len(),
{
    if s.len() == 0 {
        assert(s.push(x)[0] == x);
    } else {
        lemma_commas_push(s.drop_first(), x);
        assert(s.push(x).drop_first() =~= s.drop_first().push(x));
        assert(s.push(x)[0] == s[0]);
        if s.len() == 1 {
            assert(s.drop_first().len() == 0);
            assert(commas(s.push(x)) == s[0] + seq![','] + x);
            assert(commas(s) == s[0]);
        } else {
            assert(commas(s.push(x)) == s[0] + seq![','] + (commas(s.drop_first()) + seq![',']
                + x));
            assert(s[0] + seq![','] + (commas(s.drop_first()) + seq![','] + x) =~= (s[0] + seq![',']
                + commas(s.drop_first())) + seq![','] + x);
        }
    }
}

/// The peer sections grow at their end.
proof fn lemma_peers_lines_push(s: Seq<NodeView>, x: NodeView)
    ensures
        peers_lines(s.push(x)) == peers_lines(s) + (seq!["[peer]"@] + node_lines(x)),
    decreases s.len(),
{
    if s.len() == 0 {
        assert(s.push(x)[0] == x);
        assert(s.push(x).drop_first() =~= Seq::<NodeView>::empty());
        assert(peers_lines(s.push(x)) == seq!["[peer]"@] + node_lines(x) + peers_lines(
            Seq::<NodeView>::empty(),
        ));
        assert(seq!["[peer]"@] + node_lines(x) + Seq::<Seq<char>>::empty() =~= seq!["[peer]"@]
            + node_lines(x));
        assert(peers_lines(s) + (seq!["[peer]"@] + node_lines(x)) =~= seq!["[peer]"@] + node_lines(
            x,
        ));
    } else {
        lemma_peers_lines_push(s.drop_first(), x);
        assert(s.push(x).drop_first() =~= s.drop_first().push(x));
        assert(s.push(x)[0] == s[0]);
        assert(peers_lines(s.push(x)) == seq!["[peer]"@] + node_lines(s[0]) + (peers_lines(
            s.drop_first(),
        ) + (seq!["[peer]"@] + node_lines(x))));
        assert(seq!["[peer]"@] + node_lines(s[0]) + (peers_lines(s.drop_first()) + (seq!["[peer]"@]
            + node_lines(x))) =~= (seq!["[peer]"@] + node_lines(s[0]) + peers_lines(
            s.drop_first(),
        )) + (seq!["[peer]"@] + node_lines(x)));
    }
}

/// Appends one text field line, when the field is present.
fn append_kv_str(s: &mut String, key: &str, o: &Option<String>)
    ensures
        final(s)@ == old(s)@ + spec_unlines(opt_kv(key@, crate::node::opt_str_view(*o))),
{
    match o {
        Some(v) => {
            s.append(key);
            push_char(s, '=');
            s.append(v.as_str());
            push_char(s, '\n');
            proof {
                let lines = opt_kv(key@, crate::node::opt_str_view(*o));
                assert(lines[0] == kv_line(key@, v@));
                assert(lines.drop_first() =~= Seq::<Seq<char>>::empty());
                assert(spec_unlines(lines.drop_first()) =~= Seq::<char>::empty());
                assert(s@ =~= old(s)@ + spec_unlines(lines));
            }
        },
        None => {
            proof {
                assert(s@ =~= old(s)@ + spec_unlines(
                    opt_kv(key@, crate::node::opt_str_view(*o)),
                ));
            }
        },
    }
}

/// Appends one numeric field line, when the field is present.
fn append_kv_u16(s: &mut String, key: &str, o: Option<u16>)
    ensures
        final(s)@ == old(s)@ + spec_unlines(opt_kv_u16(key@, o)),
{
    match o {
        Some(x) => {
            s.append(key);
            push_char(s, '=');
            let d = crate::text::u16_to_string(x);
            s.append(d.as_str());
            push_char(s, '\n');
            proof {
                let lines = opt_kv_u16(key@, o);
                assert(lines[0] == kv_line(key@, spec_dec(x as nat)));
                assert(lines.drop_first() =~= Seq::<Seq<char>>::empty());
                assert(spec_unlines(lines.drop_first()) =~= Seq::<char>::empty());
                assert(s@ =~= old(s)@ + spec_unlines(lines));
            }
        },
        None => {
            proof {
                assert(s@ =~= old(s)@ + spec_unlines(opt_kv_u16(key@, o)));
            }
        },
    }
}

/// Joins the textual forms of network values with commas.
fn join_commas(v: &Vec<crate::net::IpNet>) -> (r: String)
    ensures
        r@ == commas(v@.map_values(|n: crate::net::IpNet| n@)),
{
    let ghost views = v@.map_values(|n: crate::net::IpNet| n@);
    let n = v.len();
    let mut r = String::new();
    let mut i: usize = 0;
    while i < n
        invariant
            i <= n,
            n == v@.len(),
            views == v@.map_values(|n: crate::net::IpNet| n@),
            r@ == commas(views.subrange(0, i as int)),
        decreases n - i,
    {
        proof {
            assert(views[i as int] == v@[i as int]@);
        }
        if i > 0 {
            push_char(&mut r, ',');
        }
        r.append(v[i].value.as_str());
        proof {
            let pre = views.subrange(0, i as int);
            let cur = views.subrange(0, i as int + 1);
            assert(cur =~= pre.push(views[i as int]));
            lemma_commas_push(pre, views[i as int]);
            if i == 0 {
                assert(r@ =~= commas(cur));
            } else {
                assert(r@ =~= commas(pre) + seq![','] + views[i as int]);
            }
        }
        i = i + 1;
    }
    proof {
        assert(views.subrange(0, n as int) =~= views);
    }
    r
}

/// Appends one network-list field line, when the field is present.
fn append_kv_nets(s: &mut String, key: &str, o: &Option<Vec<crate::net::IpNet>>)
    ensures
        final(s)@ == old(s)@ + spec_unlines(opt_kv_nets(key@, crate::node::opt_nets_view(*o))),
{
    match o {
        Some(v) => {
            s.append(key);
            push_char(s, '=');
            let j = join_commas(v);
            s.append(j.as_str());
            push_char(s, '\n');
            proof {
                let lines = opt_kv_nets(key@, crate::node::opt_nets_view(*o));
                assert(lines[0] == kv_line(key@, commas(v@.map_values(
                    |n: crate::net::IpNet| n@,
                ))));
                assert(lines.drop_first() =~= Seq::<Seq<char>>::empty());
                assert(spec_unlines(lines.drop_first()) =~= Seq::<char>::empty());
                assert(s@ =~= old(s)@ + spec_unlines(lines));
            }
        },
        None => {
            proof {
                assert(s@ =~= old(s)@ + spec_unlines(
                    opt_kv_nets(key@, crate::node::opt_nets_view(*o)),
                ));
            }
        },
    }
}

/// Appends the two endpoint field lines, when an endpoint is present.
fn append_kv_endpoint(s: &mut String, o: &Option<crate::node::Endpoint>)
    ensures
        final(s)@ == old(s)@ + spec_unlines(endpoint_kv(crate::node::opt_endpoint_view(*o))),
{
    match o {
        Some(e) => {
            s.append("endpoint_host");
            push_char(s, '=');
            s.append(e.address.as_str());
            push_char(s, '\n');
            s.append("endpoint_port");
            push_char(s, '=');
            let d = crate::text::u16_to_string(e.port);
            s.append(d.as_str());
            push_char(s, '\n');
            proof {
                let lines = endpoint_kv(crate::node::opt_endpoint_view(*o));
                assert(lines[0] == kv_line("endpoint_host"@, e.address@));
                assert(lines[1] == kv_line("endpoint_port"@, spec_dec(e.port as nat)));
                assert(lines.drop_first() =~= seq![
                    kv_line("endpoint_port"@, spec_dec(e.port as nat)),
                ]);
                assert(lines.drop_first().drop_first() =~= Seq::<Seq<char>>::empty());
                assert(spec_unlines(lines.drop_first().drop_first()) =~= Seq::<char>::empty());
                assert(spec_unlines(lines.drop_first()) =~= kv_line(
                    "endpoint_port"@,
                    spec_dec(e.port as nat),
                ) + seq!['\n']);
                assert(s@ =~= old(s)@ + spec_unlines(lines));
            }
        },
        None => {
            proof {
                assert(s@ =~= old(s)@ + spec_unlines(
                    endpoint_kv(crate::node::opt_endpoint_view(*o)),
                ));
            }
        },
    }
}

/// Appends the first eight field lines of a node's section.
#[verifier::rlimit(100)]
fn append_node_front(s: &mut String, node: &crate::node::Node)
    ensures
        final(s)@ == old(s)@ + spec_unlines(front_lines(node@)),
{
    let ghost nv = node@;
    append_kv_str(s, "name", &node.name);
    append_kv_nets(s, "address", &node.address);
    append_kv_str(s, "public_key", &node.public_key);
    append_kv_str(s, "private_key", &node.private_key);
    append_kv_u16(s, "listen_port", node.listen_port);
    append_kv_nets(s, "allowed_ips", &node.allowed_ips);
    append_kv_nets(s, "endpoint_allowed_ips", &node.endpoint_allowed_ips);
    append_kv_u16(s, "persistent_keepalive", node.persistent_keepalive);
    proof {
        let l1 = opt_kv("name"@, nv.name);
        let l2 = opt_kv_nets("address"@, nv.address);
        let l3 = opt_kv("public_key"@, nv.public_key);
        let l4 = opt_kv("private_key"@, nv.private_key);
        let l5 = opt_kv_u16("listen_port"@, nv.listen_port);
        let l6 = opt_kv_nets("allowed_ips"@, nv.allowed_ips);
        let l7 = opt_kv_nets("endpoint_allowed_ips"@, nv.endpoint_allowed_ips);
        let l8 = opt_kv_u16("persistent_keepalive"@, nv.persistent_keepalive);
        lemma_unlines_concat(l1, l2);
        lemma_unlines_concat(l1 + l2, l3);
        lemma_unlines_concat(l1 + l2 + l3, l4);
        lemma_unlines_concat(l1 + l2 + l3 + l4, l5);
        lemma_unlines_concat(l1 + l2 + l3 + l4 + l5, l6);
        lemma_unlines_concat(l1 + l2 + l3 + l4 + l5 + l6, l7);
        lemma_unlines_concat(l1 + l2 + l3 + l4 + l5 + l6 + l7, l8);
        assert(s@ =~= old(s)@ + spec_unlines(front_lines(nv)));
    }
}

/// Appends the remaining field lines of a node's section.
#[verifier::rlimit(100)]
fn append_node_back(s: &mut String, node: &crate::node::Node)
    ensures
        final(s)@ == old(s)@ + spec_unlines(back_lines(node@)),
{
    let ghost nv = node@;
    append_kv_endpoint(s, &node.endpoint);
    append_kv_u16(s, "mtu", node.mtu);
    append_kv_str(s, "pre_up", &node.pre_up);
    append_kv_str(s, "post_up", &node.post_up);
    append_kv_str(s, "pre_down", &node.pre_down);
    append_kv_str(s, "post_down", &node.post_down);
    proof {
        let l9 = endpoint_kv(nv.endpoint);
        let l10 = opt_kv_u16("mtu"@, nv.mtu);
        let l11 = opt_kv("pre_up"@, nv.pre_up);
        let l12 = opt_kv("post_up"@, nv.post_up);
        let l13 = opt_kv("pre_down"@, nv.pre_down);
        let l14 = opt_kv("post_down"@, nv.post_down);
        lemma_unlines_concat(l9, l10);
        lemma_unlines_concat(l9 + l10, l11);
        lemma_unlines_concat(l9 + l10 + l11, l12);
        lemma_unlines_concat(l9 + l10 + l11 + l12, l13);
        lemma_unlines_concat(l9 + l10 + l11 + l12 + l13, l14);
        assert(s@ =~= old(s)@ + spec_unlines(back_lines(nv)));
    }
}

/// Appends the whole section body of one node.
fn append_node_doc(s: &mut String, node: &crate::node::Node)
    ensures
        final(s)@ == old(s)@ + spec_unlines(node_lines(node@)),
{
    append_node_front(s, node);
    append_node_back(s, node);
    proof {
        lemma_node_lines_split(node@);
        lemma_unlines_concat(front_lines(node@), back_lines(node@));
        assert(s@ =~= old(s)@ + spec_unlines(node_lines(node@)));
    }
}

/// Renders the directory as its on-disk document.
#[verifier::rlimit(100)]
#[verifier::spinoff_prover]
pub fn to_document(d: &crate::directory::Directory) -> (r: String)
    ensures
        r@ == spec_render_doc(d@),
{
    let ghost dv = d@;
    let mut s = String::new();
    match &d.relay {
        Some(rn) => {
            s.append("[relay]");
            push_char(&mut s, '\n');
            append_node_doc(&mut s, rn);
            proof {
                let hd = seq!["[relay]"@] + node_lines(dv.relay.unwrap());
                assert(spec_unlines(seq!["[relay]"@]) =~= "[relay]"@ + seq!['\n']) by {
                    assert(seq!["[relay]"@].drop_first() =~= Seq::<Seq<char>>::empty());
                    assert(spec_unlines(seq!["[relay]"@].drop_first()) =~= Seq::<char>::empty());
                }
                lemma_unlines_concat(seq!["[relay]"@], node_lines(dv.relay.unwrap()));
                assert(s@ =~= spec_unlines(hd));
            }
        },
        None => {},
    }
    let ghost head = (match dv.relay {
        Some(r) => seq!["[relay]"@] + node_lines(r),
        None => Seq::<Seq<char>>::empty(),
    });
    let n = d.peers.len();
    let mut i: usize = 0;
    while i < n
        invariant
            i <= n,
            n == d.peers.len(),
            dv == d@,
            head == (match dv.relay {
                Some(r) => seq!["[relay]"@] + node_lines(r),
                None => Seq::<Seq<char>>::empty(),
            }),
            s@ == spec_unlines(head + peers_lines(dv.peers.subrange(0, i as int))),
        decreases n - i,
    {
        proof {
            assert(dv.peers[i as int] == d.peers@[i as int]@);
        }
        s.append("[peer]");
        push_char(&mut s, '\n');
        append_node_doc(&mut s, &d.peers[i]);
        proof {
            let pre = dv.peers.subrange(0, i as int);
            let cur = dv.peers.subrange(0, i as int + 1);
            assert(cur =~= pre.push(dv.peers[i as int]));
            lemma_peers_lines_push(pre, dv.peers[i as int]);
            let blk = seq!["[peer]"@] + node_lines(dv.peers[i as int]);
            assert(spec_unlines(seq!["[peer]"@]) =~= "[peer]"@ + seq!['\n']) by {
                assert(seq!["[peer]"@].drop_first() =~= Seq::<Seq<char>>::empty());
                assert(spec_unlines(seq!["[peer]"@].drop_first()) =~= Seq::<char>::empty());
            }
            lemma_unlines_concat(seq!["[peer]"@], node_lines(dv.peers[i as int]));
            lemma_unlines_concat(head, peers_lines(pre));
            lemma_unlines_concat(head, peers_lines(cur));
            lemma_unlines_concat(peers_lines(pre), blk);
            assert(peers_lines(cur) == peers_lines(pre) + blk);
            assert(s@ =~= spec_unlines(head + peers_lines(cur)));
        }
        i = i + 1;
    }
    proof {
        assert(dv.peers.subrange(0, n as int) =~= dv.peers);
        assert(dir_lines(dv) == head + peers_lines(dv.peers));
    }
    s
}

/// Splits the characters `v[from..to]` at commas into network values.
pub fn split_commas_vec(v: &Vec<char>, from: usize, to: usize) -> (r: Vec<crate::net::IpNet>)
    requires
        from <= to <= v@.len(),
    ensures
        r@.map_values(|n: crate::net::IpNet| n@) == spec_split_commas(
            v@.subrange(from as int, to as int),
        ),
{
    let ghost whole = v@.subrange(from as int, to as int);
    let mut out: Vec<crate::net::IpNet> = Vec::new();
    let mut pos: usize = from;
    loop
        invariant
            from <= pos <= to <= v@.len(),
            whole == v@.subrange(from as int, to as int),
            ({
                let done = out@.map_values(|n: crate::net::IpNet| n@);
                spec_split_commas(whole) == done + spec_split_commas(
                    v@.subrange(pos as int, to as int),
                )
            }),
        decreases to - pos,
    {
        let ghost done0 = out@.map_values(|n: crate::net::IpNet| n@);
        let ghost tail = v@.subrange(pos as int, to as int);
        let j = find_in(v, pos, to, ',');
        if j == to {
            proof {
                assert(find_char(tail, ',') == -1);
                assert(spec_split_commas(tail) == seq![tail]);
            }
            let seg = crate::net::IpNet::new(chars_string(v, pos, to));
            out.push(seg);
            proof {
                assert(out@.map_values(|n: crate::net::IpNet| n@) =~= done0.push(tail));
                assert(done0.push(tail) =~= done0 + seq![tail]);
            }
            return out;
        }
        proof {
            assert(find_char(tail, ',') == j - pos);
            assert(tail.subrange(0, j - pos) =~= v@.subrange(pos as int, j as int));
            assert(tail.subrange(j - pos + 1, tail.len() as int) =~= v@.subrange(
                j as int + 1,
                to as int,
            ));
            assert(spec_split_commas(tail) == seq![v@.subrange(pos as int, j as int)]
                + spec_split_commas(v@.subrange(j as int + 1, to as int)));
        }
        let seg = crate::net::IpNet::new(chars_string(v, pos, j));
        out.push(seg);
        proof {
            let done1 = out@.map_values(|n: crate::net::IpNet| n@);
            assert(done1 =~= done0.push(v@.subrange(pos as int, j as int)));
            assert(done0 + spec_split_commas(tail) =~= done1 + spec_split_commas(
                v@.subrange(j as int + 1, to as int),
            ));
        }
        pos = j + 1;
    }
}

/// Reads one node section from its lines, starting at `start`, until
/// a line that is no field line.  Fails on an unknown key, a bad
/// numeric value, or a half-present endpoint.
#[verifier::rlimit(100)]
#[verifier::spinoff_prover]
fn parse_section(
    v: &Vec<char>,
    ranges: &Vec<(usize, usize)>,
    start: usize,
    relay: bool,
) -> (r: Result<(crate::node::Node, usize), StoreError>)
    requires
        start <= ranges@.len(),
        forall|i: int|
            0 <= i < ranges@.len() ==> (#[trigger] ranges@[i]).0 <= ranges@[i].1 <= v@.len(),
    ensures
        ({
            let lines = Seq::new(
                ranges@.len(),
                |i: int| v@.subrange(ranges@[i].0 as int, ranges@[i].1 as int),
            );
            let sfx = lines.subrange(start as int, lines.len() as int);
            match r {
                Ok((node, next)) => {
                    &&& start <= next <= ranges@.len()
                    &&& parse_fields(sfx, raw_empty()) is Some
                    &&& parse_fields(sfx, raw_empty()).unwrap().1 == lines.subrange(
                        next as int,
                        lines.len() as int,
                    )
                    &&& raw_to_node(parse_fields(sfx, raw_empty()).unwrap().0, relay) == Some(
                        node@,
                    )
                },
                Err(e) => {
                    &&& e == StoreError::MalformedDocument
                    &&& (parse_fields(sfx, raw_empty()) is None || raw_to_node(
                        parse_fields(sfx, raw_empty()).unwrap().0,
                        relay,
                    ) is None)
                },
            }
        }),
{
    let ghost lines = Seq::new(
        ranges@.len(),
        |i: int| v@.subrange(ranges@[i].0 as int, ranges@[i].1 as int),
    );
    let n = ranges.len();
    let mut i: usize = start;
    let mut name: Option<String> = None;
    let mut address: Option<Vec<crate::net::IpNet>> = None;
    let mut public_key: Option<String> = None;
    let mut private_key: Option<String> = None;
    let mut listen_port: Option<u16> = None;
    let mut allowed_ips: Option<Vec<crate::net::IpNet>> = None;
    let mut endpoint_allowed_ips: Option<Vec<crate::net::IpNet>> = None;
    let mut persistent_keepalive: Option<u16> = None;
    let mut ep_host: Option<String> = None;
    let mut ep_port: Option<u16> = None;
    let mut mtu: Option<u16> = None;
    let mut pre_up: Option<String> = None;
    let mut post_up: Option<String> = None;
    let mut pre_down: Option<String> = None;
    let mut post_down: Option<String> = None;
    while i < n
        invariant
            start <= i <= n,
            n == ranges@.len(),
            lines == Seq::new(
                ranges@.len(),
                |i: int| v@.subrange(ranges@[i].0 as int, ranges@[i].1 as int),
            ),
            forall|k: int|
                0 <= k < ranges@.len() ==> (#[trigger] ranges@[k]).0 <= ranges@[k].1 <= v@.len(),
            parse_fields(lines.subrange(start as int, n as int), raw_empty()) == parse_fields(
                lines.subrange(i as int, n as int),
                (RawNode {
                    name: crate::node::opt_str_view(name),
                    address: crate::node::opt_nets_view(address),
                    public_key: crate::node::opt_str_view(public_key),
                    private_key: crate::node::opt_str_view(private_key),
                    listen_port: listen_port,
                    allowed_ips: crate::node::opt_nets_view(allowed_ips),
                    endpoint_allowed_ips: crate::node::opt_nets_view(endpoint_allowed_ips),
                    persistent_keepalive: persistent_keepalive,
                    endpoint_host: crate::node::opt_str_view(ep_host),
                    endpoint_port: ep_port,
                    mtu: mtu,
                    pre_up: crate::node::opt_str_view(pre_up),
                    post_up: crate::node::opt_str_view(post_up),
                    pre_down: crate::node::opt_str_view(pre_down),
                    post_down: crate::node::opt_str_view(post_down),
                }),
            ),
        ensures
            start <= i <= n,
            i == n || !is_kv(lines[i as int]),
        decreases n - i,
    {
        let ghost acc = (RawNode {
            name: crate::node::opt_str_view(name),
            address: crate::node::opt_nets_view(address),
            public_key: crate::node::opt_str_view(public_key),
            private_key: crate::node::opt_str_view(private_key),
            listen_port: listen_port,
            allowed_ips: crate::node::opt_nets_view(allowed_ips),
            endpoint_allowed_ips: crate::node::opt_nets_view(endpoint_allowed_ips),
            persistent_keepalive: persistent_keepalive,
            endpoint_host: crate::node::opt_str_view(ep_host),
            endpoint_port: ep_port,
            mtu: mtu,
            pre_up: crate::node::opt_str_view(pre_up),
            post_up: crate::node::opt_str_view(post_up),
            pre_down: crate::node::opt_str_view(pre_down),
            post_down: crate::node::opt_str_view(post_down),
        });
        let (a, b) = ranges[i];
        proof {
            assert(lines[i as int] == v@.subrange(a as int, b as int));
        }
        let eq = find_in(v, a, b, '=');
        proof {
            if eq < b {
                assert(find_char(lines[i as int], '=') == eq - a);
            } else {
                assert(find_char(lines[i as int], '=') == -1);
            }
        }
        if eq == b {
            break ;
        }
        let ghost key = kv_key(lines[i as int]);
        let ghost val = kv_val(lines[i as int]);
        proof {
            assert(key =~= v@.subrange(a as int, eq as int));
            assert(val =~= v@.subrange(eq as int + 1, b as int));
            assert(lines.subrange(i as int, n as int)[0] == lines[i as int]);
            assert(lines.subrange(i as int, n as int).drop_first() =~= lines.subrange(
                i as int + 1,
                n as int,
            ));
        }
        if crate::text::region_eq(v, a, eq, "name") {
            name = Some(chars_string(v, eq + 1, b));
        } else if crate::text::region_eq(v, a, eq, "address") {
            address = Some(split_commas_vec(v, eq + 1, b));
        } else if crate::text::region_eq(v, a, eq, "public_key") {
            public_key = Some(chars_string(v, eq + 1, b));
        } else if crate::text::region_eq(v, a, eq, "private_key") {
            private_key = Some(chars_string(v, eq + 1, b));
        } else if crate::text::region_eq(v, a, eq, "listen_port") {
            match crate::text::parse_dec(v, eq + 1, b) {
                Some(x) => {
                    if x <= 65535 {
                        listen_port = Some(x as u16);
                    } else {
                        return Err(StoreError::MalformedDocument);
                    }
                },
                None => {
                    return Err(StoreError::MalformedDocument);
                },
            }
        } else if crate::text::region_eq(v, a, eq, "allowed_ips") {
            allowed_ips = Some(split_commas_vec(v, eq + 1, b));
        } else if crate::text::region_eq(v, a, eq, "endpoint_allowed_ips") {
            endpoint_allowed_ips = Some(split_commas_vec(v, eq + 1, b));
        } else if crate::text::region_eq(v, a, eq, "persistent_keepalive") {
            match crate::text::parse_dec(v, eq + 1, b) {
                Some(x) => {
                    if x <= 65535 {
                        persistent_keepalive = Some(x as u16);
                    } else {
                        return Err(StoreError::MalformedDocument);
                    }
                },
                None => {
                    return Err(StoreError::MalformedDocument);
                },
            }
        } else if crate::text::region_eq(v, a, eq, "endpoint_host") {
            ep_host = Some(chars_string(v, eq + 1, b));
        } else if crate::text::region_eq(v, a, eq, "endpoint_port") {
            match crate::text::parse_dec(v, eq + 1, b) {
                Some(x) => {
                    if x <= 65535 {
                        ep_port = Some(x as u16);
                    } else {
                        return Err(StoreError::MalformedDocument);
                    }
                },
                None => {
                    return Err(StoreError::MalformedDocument);
                },
            }
        } else if crate::text::region_eq(v, a, eq, "mtu") {
            match crate::text::parse_dec(v, eq + 1, b) {
                Some(x) => {
                    if x <= 65535 {
                        mtu = Some(x as u16);
                    } else {
                        return Err(StoreError::MalformedDocument);
                    }
                },
                None => {
                    return Err(StoreError::MalformedDocument);
                },
            }
        } else if crate::text::region_eq(v, a, eq, "pre_up") {
            pre_up = Some(chars_string(v, eq + 1, b));
        } else if crate::text::region_eq(v, a, eq, "post_up") {
            post_up = Some(chars_string(v, eq + 1, b));
        } else if crate::text::region_eq(v, a, eq, "pre_down") {
            pre_down = Some(chars_string(v, eq + 1, b));
        } else if crate::text::region_eq(v, a, eq, "post_down") {
            post_down = Some(chars_string(v, eq + 1, b));
        } else {
            proof {
                assert(apply_field(acc, key, val) is None);
                assert(parse_fields(lines.subrange(i as int, n as int), acc) is None);
            }
            return Err(StoreError::MalformedDocument);
        }
        i = i + 1;
    }
    proof {
        let acc = (RawNode {
            name: crate::node::opt_str_view(name),
            address: crate::node::opt_nets_view(address),
            public_key: crate::node::opt_str_view(public_key),
            private_key: crate::node::opt_str_view(private_key),
            listen_port: listen_port,
            allowed_ips: crate::node::opt_nets_view(allowed_ips),
            endpoint_allowed_ips: crate::node::opt_nets_view(endpoint_allowed_ips),
            persistent_keepalive: persistent_keepalive,
            endpoint_host: crate::node::opt_str_view(ep_host),
            endpoint_port: ep_port,
            mtu: mtu,
            pre_up: crate::node::opt_str_view(pre_up),
            post_up: crate::node::opt_str_view(post_up),
            pre_down: crate::node::opt_str_view(pre_down),
            post_down: crate::node::opt_str_view(post_down),
        });
        assert(parse_fields(lines.subrange(i as int, n as int), acc) == Some(
            (acc, lines.subrange(i as int, n as int)),
        ));
    }
    let endpoint: Option<crate::node::Endpoint> = match (ep_host, ep_port) {
        (Some(h), Some(p)) => Some(crate::node::Endpoint::new(h, p)),
        (None, None) => None,
        _ => {
            return Err(StoreError::MalformedDocument);
        },
    };
    let node = crate::node::Node {
        relay,
        name,
        address,
        public_key,
        private_key,
        listen_port,
        allowed_ips,
        endpoint_allowed_ips,
        persistent_keepalive,
        endpoint,
        mtu,
        pre_up,
        post_up,
        pre_down,
        post_down,
    };
    Ok((node, i))
}

/// Splits the characters into the ranges of their lines.  Fails when
/// the text does not end in a newline.
fn split_line_ranges(v: &Vec<char>) -> (r: Option<Vec<(usize, usize)>>)
    ensures
        match r {
            Some(ranges) => {
                &&& spec_split_lines(v@) == Some(
                    Seq::new(
                        ranges@.len(),
                        |i: int| v@.subrange(ranges@[i].0 as int, ranges@[i].1 as int),
                    ),
                )
                &&& forall|i: int|
                    0 <= i < ranges@.len() ==> (#[trigger] ranges@[i]).0 <= ranges@[i].1
                        <= v@.len()
            },
            None => spec_split_lines(v@) is None,
        },
{
    let n = v.len();
    let mut ranges: Vec<(usize, usize)> = Vec::new();
    let mut pos: usize = 0;
    proof {
        assert(v@.subrange(0, n as int) =~= v@);
        let done = Seq::new(
            ranges@.len(),
            |i: int| v@.subrange(ranges@[i].0 as int, ranges@[i].1 as int),
        );
        if spec_split_lines(v@) is Some {
            assert(done + spec_split_lines(v@).unwrap() =~= spec_split_lines(v@).unwrap());
        }
    }
    while pos < n
        invariant
            pos <= n,
            n == v@.len(),
            forall|i: int|
                0 <= i < ranges@.len() ==> (#[trigger] ranges@[i]).0 <= ranges@[i].1 <= v@.len(),
            ({
                let done = Seq::new(
                    ranges@.len(),
                    |i: int| v@.subrange(ranges@[i].0 as int, ranges@[i].1 as int),
                );
                match spec_split_lines(v@.subrange(pos as int, n as int)) {
                    Some(r) => spec_split_lines(v@) == Some(done + r),
                    None => spec_split_lines(v@) is None,
                }
            }),
        decreases n - pos,
    {
        let j = find_in(v, pos, n, '\n');
        let ghost tail = v@.subrange(pos as int, n as int);
        if j == n {
            proof {
                assert(tail.len() > 0);
                assert(find_char(tail, '\n') == -1);
                assert(spec_split_lines(tail) is None);
            }
            return None;
        }
        let ghost done0 = Seq::new(
            ranges@.len(),
            |i: int| v@.subrange(ranges@[i].0 as int, ranges@[i].1 as int),
        );
        ranges.push((pos, j));
        proof {
            let done1 = Seq::new(
                ranges@.len(),
                |i: int| v@.subrange(ranges@[i].0 as int, ranges@[i].1 as int),
            );
            assert(find_char(tail, '\n') == j - pos);
            assert(tail.len() > 0);
            let next = v@.subrange(j as int + 1, n as int);
            assert(tail.subrange(j - pos + 1, tail.len() as int) =~= next);
            assert(tail.subrange(0, j - pos) =~= v@.subrange(pos as int, j as int));
            match spec_split_lines(next) {
                Some(r2) => {
                    assert(spec_split_lines(tail) == Some(
                        seq![v@.subrange(pos as int, j as int)] + r2,
                    ));
                    assert(done1 =~= done0.push(v@.subrange(pos as int, j as int)));
                    assert(done1 + r2 =~= done0 + (seq![v@.subrange(pos as int, j as int)] + r2));
                },
                None => {
                    assert(spec_split_lines(tail) is None);
                },
            }
        }
        pos = j + 1;
    }
    proof {
        let done = Seq::new(
            ranges@.len(),
            |i: int| v@.subrange(ranges@[i].0 as int, ranges@[i].1 as int),
        );
        assert(v@.subrange(pos as int, n as int).len() == 0);
        assert(spec_split_lines(v@.subrange(pos as int, n as int)) == Some(
            Seq::<Seq<char>>::empty(),
        ));
        assert(done + Seq::<Seq<char>>::empty() =~= done);
    }
    Some(ranges)
}

/// Reads a directory back from its on-disk document.  Fails with
/// `MalformedDocument` exactly when the text does not parse.
#[verifier::rlimit(100)]
#[verifier::spinoff_prover]
pub fn from_document(doc: &str) -> (r: Result<crate::directory::Directory, StoreError>)
    ensures
        match r {
            Ok(d) => spec_parse_doc(doc@) == Some(d@),
            Err(e) => e == StoreError::MalformedDocument && spec_parse_doc(doc@) is None,
        },
{
    let v = str_chars(doc);
    let ranges = match split_line_ranges(&v) {
        Some(r) => r,
        None => {
            return Err(StoreError::MalformedDocument);
        },
    };
    let ghost lines = Seq::new(
        ranges@.len(),
        |i: int| v@.subrange(ranges@[i].0 as int, ranges@[i].1 as int),
    );
    let n = ranges.len();
    let mut relay_slot: Option<crate::node::Node> = None;
    let mut idx: usize = 0;
    let mut has_relay: bool = false;
    if n > 0 {
        let (a, b) = ranges[0];
        proof {
            assert(lines[0] == v@.subrange(a as int, b as int));
        }
        if crate::text::region_eq(&v, a, b, "[relay]") {
            has_relay = true;
            match parse_section(&v, &ranges, 1, true) {
                Ok((node, next)) => {
                    proof {
                        assert(lines.subrange(1, n as int) =~= lines.drop_first());
                    }
                    relay_slot = Some(node);
                    idx = next;
                },
                Err(e) => {
                    proof {
                        assert(lines.subrange(1, n as int) =~= lines.drop_first());
                    }
                    return Err(e);
                },
            }
        }
    }
    let ghost peers_start = idx as int;
    proof {
        if has_relay {
            assert(raw_to_node(
                parse_fields(lines.drop_first(), raw_empty()).unwrap().0,
                true,
            ) == Some(relay_slot.unwrap()@));
        }
    }
    let mut peers: Vec<crate::node::Node> = Vec::new();
    while idx < n
        invariant
            peers_start <= idx <= n,
            n == ranges@.len(),
            lines == Seq::new(
                ranges@.len(),
                |i: int| v@.subrange(ranges@[i].0 as int, ranges@[i].1 as int),
            ),
            forall|k: int|
                0 <= k < ranges@.len() ==> (#[trigger] ranges@[k]).0 <= ranges@[k].1 <= v@.len(),
            v@ == doc@,
            spec_split_lines(doc@) == Some(lines),
            has_relay ==> lines.len() > 0 && lines[0] == "[relay]"@ && parse_fields(
                lines.drop_first(),
                raw_empty(),
            ) is Some && relay_slot is Some && raw_to_node(
                parse_fields(lines.drop_first(), raw_empty()).unwrap().0,
                true,
            ) == Some(relay_slot.unwrap()@) && parse_fields(
                lines.drop_first(),
                raw_empty(),
            ).unwrap().1 == lines.subrange(peers_start, n as int),
            !has_relay ==> peers_start == 0 && relay_slot is None && !(lines.len() > 0 && lines[0]
                == "[relay]"@),
            ({
                let done = crate::node::nodes_view(peers@);
                match parse_blocks(lines.subrange(idx as int, n as int)) {
                    Some(ps) => parse_blocks(lines.subrange(peers_start, n as int)) == Some(
                        done + ps,
                    ),
                    None => parse_blocks(lines.subrange(peers_start, n as int)) is None,
                }
            }),
        decreases n - idx,
    {
        let ghost done0 = crate::node::nodes_view(peers@);
        let ghost blk = lines.subrange(idx as int, n as int);
        let (a, b) = ranges[idx];
        proof {
            assert(lines[idx as int] == v@.subrange(a as int, b as int));
            assert(blk[0] == lines[idx as int]);
        }
        if !crate::text::region_eq(&v, a, b, "[peer]") {
            proof {
                assert(parse_blocks(blk) is None);
                if !has_relay {
                    assert(lines.subrange(0, n as int) =~= lines);
                }
                assert(parse_doc_lines(lines) is None);
            }
            return Err(StoreError::MalformedDocument);
        }
        match parse_section(&v, &ranges, idx + 1, false) {
            Ok((node, next)) => {
                proof {
                    assert(blk.drop_first() =~= lines.subrange(idx as int + 1, n as int));
                    let pf = parse_fields(blk.drop_first(), raw_empty());
                    assert(pf is Some);
                    assert(pf.unwrap().1 == lines.subrange(next as int, n as int));
                    assert(pf.unwrap().1.len() == n - next);
                    assert(n - next < blk.len());
                    assert(raw_to_node(pf.unwrap().0, false) == Some(node@));
                    match parse_blocks(lines.subrange(next as int, n as int)) {
                        Some(ps) => {
                            assert(parse_blocks(blk) == Some(seq![node@] + ps));
                        },
                        None => {
                            assert(parse_blocks(blk) is None);
                        },
                    }
                }
                peers.push(node);
                proof {
                    assert(crate::node::nodes_view(peers@) =~= done0.push(node@));
                    match parse_blocks(lines.subrange(next as int, n as int)) {
                        Some(ps) => {
                            assert(done0 + (seq![node@] + ps) =~= done0.push(node@) + ps);
                        },
                        None => {},
                    }
                }
                idx = next;
            },
            Err(e) => {
                proof {
                    assert(blk.drop_first() =~= lines.subrange(idx as int + 1, n as int));
                    assert(parse_blocks(blk) is None);
                    if !has_relay {
                        assert(lines.subrange(0, n as int) =~= lines);
                    }
                    assert(parse_doc_lines(lines) is None);
                }
                return Err(e);
            },
        }
    }
    proof {
        assert(lines.subrange(n as int, n as int).len() == 0);
        assert(parse_blocks(lines.subrange(n as int, n as int)) == Some(Seq::<NodeView>::empty()));
        assert(crate::node::nodes_view(peers@) + Seq::<NodeView>::empty() =~= crate::node::nodes_view(
            peers@,
        ));
    }
    let d = crate::directory::Directory { relay: relay_slot, peers };
    proof {
        if has_relay {
            assert(lines.len() > 0 && lines[0] == "[relay]"@);
            assert(lines.subrange(peers_start, n as int) == parse_fields(
                lines.drop_first(),
                raw_empty(),
            ).unwrap().1);
            assert(parse_doc_lines(lines) == Some(d@)) by {
                assert(d@.relay == Some(relay_slot.unwrap()@));
                assert(d@.peers == crate::node::nodes_view(peers@));
                assert(parse_doc_lines(lines).unwrap() =~= d@);
            }
        } else {
            assert(peers_start == 0);
            assert(lines.subrange(0, n as int) =~= lines);
            assert(!(lines.len() > 0 && lines[0] == "[relay]"@));
            assert(parse_doc_lines(lines) == Some(d@)) by {
                assert(d@.relay is None);
                assert(d@.peers == crate::node::nodes_view(peers@));
                assert(parse_doc_lines(lines).unwrap() =~= d@);
            }
        }
    }
    Ok(d)
}

} // verus!
