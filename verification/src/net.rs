//! CIDR network values and their normalization.
//!
//! A network value is kept in textual form.  Values that read as an
//! IPv4 CIDR (`a.b.c.d/p`, canonical decimal) can be truncated to the
//! network they denote; any other text is carried through unchanged.

use vstd::prelude::*;
use crate::text::{
    find_char, find_in, is_dec_digits, parse_dec, push_char, spec_dec, spec_dec_val, str_chars,
    u32_to_string,
};

verus! {

/// A CIDR network value, kept as its textual form.
#[derive(Debug, PartialEq, Eq)]
pub struct IpNet {
    pub value: String,
}

impl View for IpNet {
    type V = Seq<char>;

    open spec fn view(&self) -> Seq<char> {
        self.value@
    }
}

impl Clone for IpNet {
    fn clone(&self) -> (r: Self)
        ensures
            r == *self,
    {
        IpNet { value: self.value.clone() }
    }
}

impl IpNet {
    /// Wraps a textual CIDR network value.
    pub fn new(value: String) -> (r: IpNet)
        ensures
            r@ == value@,
    {
        IpNet { value }
    }

    /// The textual form of the network value.
    pub fn as_string(&self) -> (r: String)
        ensures
            r@ == self@,
    {
        self.value.clone()
    }
}

/// Two to the given power.
pub open spec fn spec_pow2(k: nat) -> nat
    decreases k,
{
    if k == 0 {
        1
    } else {
        2 * spec_pow2((k - 1) as nat)
    }
}

proof fn lemma_pow2_mono(k: nat, m: nat)
    requires
        k <= m,
    ensures
        spec_pow2(k) <= spec_pow2(m),
        spec_pow2(k) >= 1,
    decreases m,
{
    if k < m {
        lemma_pow2_mono(k, (m - 1) as nat);
    } else if k > 0 {
        lemma_pow2_mono((k - 1) as nat, (k - 1) as nat);
    }
}

proof fn lemma_pow2_add(a: nat, b: nat)
    ensures
        spec_pow2(a + b) == spec_pow2(a) * spec_pow2(b),
    decreases b,
{
    if b == 0 {
        assert(spec_pow2(b) == 1);
        assert(a + b == a);
        assert(spec_pow2(a + b) == spec_pow2(a) * spec_pow2(b));
    } else {
        lemma_pow2_add(a, (b - 1) as nat);
        assert(spec_pow2(a + b) == 2 * spec_pow2((a + b - 1) as nat));
        assert((a + b - 1) as nat == a + ((b - 1) as nat));
        assert(spec_pow2((a + b - 1) as nat) == spec_pow2(a) * spec_pow2((b - 1) as nat));
        assert(spec_pow2(a + b) == 2 * (spec_pow2(a) * spec_pow2((b - 1) as nat)));
        assert(2 * (spec_pow2(a) * spec_pow2((b - 1) as nat)) == spec_pow2(a) * (2 * spec_pow2(
            (b - 1) as nat,
        ))) by (nonlinear_arith);
        assert(spec_pow2(b) == 2 * spec_pow2((b - 1) as nat));
        assert(spec_pow2(a + b) == spec_pow2(a) * spec_pow2(b));
    }
}

proof fn lemma_pow2_bound(k: nat)
    requires
        k <= 32,
    ensures
        spec_pow2(k) <= 0x1_0000_0000,
{
    lemma_pow2_mono(k, 32);
    assert(spec_pow2(8) == 256) by {
        reveal_with_fuel(spec_pow2, 9);
    }
    lemma_pow2_add(8, 8);
    assert(spec_pow2(16) == 65536);
    lemma_pow2_add(16, 16);
    assert(spec_pow2(32) == 0x1_0000_0000);
}

fn pow2_u64(k: u32) -> (r: u64)
    requires
        k <= 32,
    ensures
        r as nat == spec_pow2(k as nat),
        r >= 1,
    decreases k,
{
    if k == 0 {
        1
    } else {
        proof {
            lemma_pow2_bound(k as nat);
        }
        2 * pow2_u64(k - 1)
    }
}

/// The value of a canonical decimal region: digits only, and no
/// leading zero unless the region is exactly `0`.
pub open spec fn spec_strict_dec(s: Seq<char>) -> Option<nat> {
    if is_dec_digits(s) && (s.len() == 1 || s[0] != '0') {
        Some(spec_dec_val(s))
    } else {
        None
    }
}

/// Reads `a.b.c.d/p` with canonical decimal parts, each octet up to
/// `255` and the prefix length up to `32`, as the address value and
/// the prefix length.
pub open spec fn spec_parse_cidr(s: Seq<char>) -> Option<(nat, nat)> {
    let slash = find_char(s, '/');
    if slash < 0 {
        None
    } else {
        let addr = s.subrange(0, slash);
        let pfx = s.subrange(slash + 1, s.len() as int);
        let d1 = find_char(addr, '.');
        if d1 < 0 {
            None
        } else {
            let o1 = addr.subrange(0, d1);
            let r1 = addr.subrange(d1 + 1, addr.len() as int);
            let d2 = find_char(r1, '.');
            if d2 < 0 {
                None
            } else {
                let o2 = r1.subrange(0, d2);
                let r2 = r1.subrange(d2 + 1, r1.len() as int);
                let d3 = find_char(r2, '.');
                if d3 < 0 {
                    None
                } else {
                    let o3 = r2.subrange(0, d3);
                    let o4 = r2.subrange(d3 + 1, r2.len() as int);
                    if find_char(o4, '.') >= 0 {
                        None
                    } else {
                        match (spec_strict_dec(o1), spec_strict_dec(o2), spec_strict_dec(o3),
                        spec_strict_dec(o4), spec_strict_dec(pfx)) {
                            (
                                Some(a),
                                Some(b),
                                Some(c),
                                Some(d),
                                Some(p),
                            ) => if a <= 255 && b <= 255 && c <= 255 && d <= 255 && p <= 32 {
                                Some(((a * 16777216 + b * 65536 + c * 256 + d) as nat, p))
                            } else {
                                None
                            },
                            _ => None,
                        }
                    }
                }
            }
        }
    }
}

/// The network address of a CIDR block: the address with its host bits
/// cleared.
pub open spec fn spec_network(addr: nat, p: nat) -> nat
    recommends
        p <= 32,
{
    (addr - (addr % spec_pow2((32 - p) as nat))) as nat
}

/// The canonical text of an IPv4 CIDR block.
pub open spec fn spec_cidr_str(addr: nat, p: nat) -> Seq<char> {
    spec_dec(addr / 16777216 % 256) + seq!['.'] + spec_dec(addr / 65536 % 256) + seq!['.']
        + spec_dec(addr / 256 % 256) + seq!['.'] + spec_dec(addr % 256) + seq!['/'] + spec_dec(p)
}

/// Normalizes a network value: an IPv4 CIDR becomes the canonical text
/// of its network; any other text stays as it is.
pub open spec fn spec_trunc(s: Seq<char>) -> Seq<char> {
    match spec_parse_cidr(s) {
        Some((addr, p)) => spec_cidr_str(spec_network(addr, p), p),
        None => s,
    }
}

/// Reads the canonical decimal value of `v[from..to]`, up to `max`.
fn strict_dec_upto(v: &Vec<char>, from: usize, to: usize, max: u32) -> (r: Option<u32>)
    requires
        from <= to <= v@.len(),
    ensures
        ({
            let sd = spec_strict_dec(v@.subrange(from as int, to as int));
            &&& (r is Some <==> sd is Some && sd.unwrap() <= max)
            &&& (r is Some ==> r.unwrap() as nat == sd.unwrap())
        }),
{
    let ghost region = v@.subrange(from as int, to as int);
    match parse_dec(v, from, to) {
        Some(x) => {
            if to - from > 1 && v[from] == '0' {
                proof {
                    assert(region[0] == v@[from as int]);
                }
                return None;
            }
            proof {
                assert(region.len() == 1 || region[0] != '0');
            }
            if x <= max {
                Some(x)
            } else {
                None
            }
        },
        None => None,
    }
}

/// Reads the characters of an IPv4 CIDR value, as
/// [`spec_parse_cidr`] describes.
#[verifier::rlimit(100)]
#[verifier::spinoff_prover]
fn parse_cidr_chars(v: &Vec<char>) -> (r: Option<(u32, u32)>)
    ensures
        match r {
            Some((a, p)) => spec_parse_cidr(v@) == Some((a as nat, p as nat)) && p <= 32,
            None => spec_parse_cidr(v@) is None,
        },
{
    let n = v.len();
    let ghost s = v@;
    let slash = find_in(v, 0, n, '/');
    proof {
        assert(s.subrange(0, n as int) =~= s);
    }
    if slash == n {
        return None;
    }
    let ghost addr_part = s.subrange(0, slash as int);
    let ghost pfx_part = s.subrange(slash as int + 1, n as int);
    let d1 = find_in(v, 0, slash, '.');
    proof {
        assert(v@.subrange(0, slash as int) =~= addr_part);
    }
    if d1 == slash {
        return None;
    }
    let ghost r1 = addr_part.subrange(d1 as int + 1, addr_part.len() as int);
    let d2 = find_in(v, d1 + 1, slash, '.');
    proof {
        assert(v@.subrange(d1 as int + 1, slash as int) =~= r1);
    }
    if d2 == slash {
        return None;
    }
    let ghost r2 = r1.subrange(d2 as int - d1, r1.len() as int);
    let d3 = find_in(v, d2 + 1, slash, '.');
    proof {
        assert(v@.subrange(d2 as int + 1, slash as int) =~= r2);
    }
    if d3 == slash {
        return None;
    }
    let ghost o4 = r2.subrange(d3 as int - d2, r2.len() as int);
    let d4 = find_in(v, d3 + 1, slash, '.');
    proof {
        assert(v@.subrange(d3 as int + 1, slash as int) =~= o4);
    }
    if d4 < slash {
        proof {
            assert(find_char(o4, '.') == d4 - (d3 + 1));
        }
        return None;
    }
    proof {
        assert(addr_part.subrange(0, d1 as int) =~= v@.subrange(0, d1 as int));
        assert(r1.subrange(0, d2 as int - d1 - 1) =~= v@.subrange(d1 as int + 1, d2 as int));
        assert(r2.subrange(0, d3 as int - d2 - 1) =~= v@.subrange(d2 as int + 1, d3 as int));
        assert(o4 =~= v@.subrange(d3 as int + 1, slash as int));
        assert(pfx_part =~= v@.subrange(slash as int + 1, n as int));
    }
    let a = match strict_dec_upto(v, 0, d1, 255) {
        Some(x) => x,
        None => {
            return None;
        },
    };
    let b = match strict_dec_upto(v, d1 + 1, d2, 255) {
        Some(x) => x,
        None => {
            return None;
        },
    };
    let c = match strict_dec_upto(v, d2 + 1, d3, 255) {
        Some(x) => x,
        None => {
            return None;
        },
    };
    let d = match strict_dec_upto(v, d3 + 1, slash, 255) {
        Some(x) => x,
        None => {
            return None;
        },
    };
    let p = match strict_dec_upto(v, slash + 1, n, 32) {
        Some(x) => x,
        None => {
            return None;
        },
    };
    let addr: u32 = a * 16777216 + b * 65536 + c * 256 + d;
    proof {
        assert(spec_parse_cidr(s) == Some((addr as nat, p as nat)));
    }
    Some((addr, p))
}

/// Normalizes one network value, as [`spec_trunc`] describes.
pub fn trunc_net(ip: &IpNet) -> (r: IpNet)
    ensures
        r@ == spec_trunc(ip@),
{
    let v = str_chars(ip.value.as_str());
    match parse_cidr_chars(&v) {
        None => ip.clone(),
        Some((addr, p)) => {
            let block = pow2_u64(32 - p);
            let host: u64 = (addr as u64) % block;
            proof {
                assert((addr as u64) % block <= addr as u64) by (nonlinear_arith)
                    requires
                        block >= 1,
                ;
            }
            let net64: u64 = (addr as u64) - host;
            let net: u32 = net64 as u32;
            proof {
                assert(net64 <= addr as u64);
                assert(net as nat == spec_network(addr as nat, p as nat));
            }
            IpNet { value: cidr_string(net, p) }
        },
    }
}

/// Whether a sequence of texts holds the given text.
pub open spec fn texts_contain(s: Seq<Seq<char>>, x: Seq<char>) -> bool {
    exists|i: int| 0 <= i < s.len() && s[i] == x
}

/// The sequence with every repeated text dropped: only the first
/// occurrence of each text is kept, in order.
pub open spec fn spec_dedup(s: Seq<Seq<char>>) -> Seq<Seq<char>>
    decreases s.len(),
{
    if s.len() == 0 {
        s
    } else if texts_contain(s.drop_last(), s.last()) {
        spec_dedup(s.drop_last())
    } else {
        spec_dedup(s.drop_last()).push(s.last())
    }
}

/// Every normalized value of two lists taken together, first
/// occurrences only: the union of the renderer.
pub open spec fn spec_union(a: Seq<Seq<char>>, b: Seq<Seq<char>>) -> Seq<Seq<char>> {
    spec_dedup(a + b)
}

/// Deduplication keeps membership.
proof fn lemma_dedup_contains(s: Seq<Seq<char>>, x: Seq<char>)
    ensures
        texts_contain(spec_dedup(s), x) <==> texts_contain(s, x),
    decreases s.len(),
{
    if s.len() > 0 {
        lemma_dedup_contains(s.drop_last(), x);
        let d = spec_dedup(s);
        if texts_contain(s, x) {
            let i = choose|i: int| 0 <= i < s.len() && s[i] == x;
            if i < s.len() - 1 {
                assert(s.drop_last()[i] == x);
                assert(texts_contain(s.drop_last(), x));
            }
            if texts_contain(s.drop_last(), x) {
                let j = choose|j: int|
                    0 <= j < spec_dedup(s.drop_last()).len() && spec_dedup(s.drop_last())[j] == x;
                if !texts_contain(s.drop_last(), s.last()) {
                    assert(d == spec_dedup(s.drop_last()).push(s.last()));
                    assert(d[j] == spec_dedup(s.drop_last())[j]);
                }
                assert(texts_contain(d, x));
            } else {
                assert(s[i] == x && i == s.len() - 1);
                assert(x == s.last());
                assert(d == spec_dedup(s.drop_last()).push(s.last()));
                assert(d[d.len() - 1] == x);
                assert(texts_contain(d, x));
            }
        }
        if texts_contain(d, x) {
            if texts_contain(s.drop_last(), s.last()) {
                assert(texts_contain(s.drop_last(), x));
                let j = choose|j: int| 0 <= j < s.drop_last().len() && s.drop_last()[j] == x;
                assert(s[j] == x);
            } else {
                let j = choose|j: int| 0 <= j < d.len() && d[j] == x;
                if j < d.len() - 1 {
                    assert(spec_dedup(s.drop_last())[j] == x);
                    assert(texts_contain(spec_dedup(s.drop_last()), x));
                    let k = choose|k: int|
                        0 <= k < s.drop_last().len() && s.drop_last()[k] == x;
                    assert(s[k] == x);
                } else {
                    assert(s[s.len() - 1] == x);
                }
            }
        }
    }
}

/// Whether the list holds a value with the given text.
fn nets_contain(v: &Vec<IpNet>, x: &IpNet) -> (r: bool)
    ensures
        r == texts_contain(v@.map_values(|n: IpNet| n@), x@),
{
    let ghost views = v@.map_values(|n: IpNet| n@);
    let n = v.len();
    let mut i: usize = 0;
    while i < n
        invariant
            i <= n,
            n == v@.len(),
            views == v@.map_values(|n: IpNet| n@),
            forall|k: int| 0 <= k < i ==> views[k] != x@,
        decreases n - i,
    {
        proof {
            assert(views[i as int] == v@[i as int]@);
        }
        if crate::text::str_eq(v[i].value.as_str(), x.value.as_str()) {
            return true;
        }
        i = i + 1;
    }
    false
}

/// Appends the values of `src` to `out`, keeping only first
/// occurrences over the whole of `out`.
fn extend_dedup(out: &mut Vec<IpNet>, src: &Vec<IpNet>)
    requires
        old(out)@.map_values(|n: IpNet| n@) == spec_dedup(old(out)@.map_values(|n: IpNet| n@)),
    ensures
        final(out)@.map_values(|n: IpNet| n@) == spec_dedup(
            old(out)@.map_values(|n: IpNet| n@) + src@.map_values(|n: IpNet| n@),
        ),
{
    let ghost base = old(out)@.map_values(|n: IpNet| n@);
    let ghost added = src@.map_values(|n: IpNet| n@);
    let n = src.len();
    let mut i: usize = 0;
    while i < n
        invariant
            i <= n,
            n == src@.len(),
            base == old(out)@.map_values(|n: IpNet| n@),
            added == src@.map_values(|n: IpNet| n@),
            base == spec_dedup(base),
            out@.map_values(|n: IpNet| n@) == spec_dedup(base + added.subrange(0, i as int)),
        decreases n - i,
    {
        let ghost pre = out@.map_values(|n: IpNet| n@);
        proof {
            assert(added[i as int] == src@[i as int]@);
        }
        let hit = nets_contain(out, &src[i]);
        proof {
            let ext = base + added.subrange(0, i as int + 1);
            assert(ext.drop_last() =~= base + added.subrange(0, i as int));
            assert(ext.last() == added[i as int]);
            lemma_dedup_contains(base + added.subrange(0, i as int), added[i as int]);
        }
        if !hit {
            let c = src[i].clone();
            let ghost out0 = out@;
            out.push(c);
            proof {
                assert(out@.map_values(|n: IpNet| n@) =~= pre.push(added[i as int]));
            }
        }
        i = i + 1;
    }
    proof {
        assert(added.subrange(0, n as int) =~= added);
    }
}

/// The normalized values of `v`, in order.
pub fn trunc_all(v: &Vec<IpNet>) -> (r: Vec<IpNet>)
    ensures
        r@.map_values(|n: IpNet| n@) == v@.map_values(|n: IpNet| n@).map_values(
            |t: Seq<char>| spec_trunc(t),
        ),
{
    let ghost views = v@.map_values(|n: IpNet| n@);
    let n = v.len();
    let mut r: Vec<IpNet> = Vec::new();
    let mut i: usize = 0;
    while i < n
        invariant
            i <= n,
            n == v@.len(),
            views == v@.map_values(|n: IpNet| n@),
            r@.map_values(|n: IpNet| n@) =~= views.map_values(|t: Seq<char>| spec_trunc(t)).subrange(
                0,
                i as int,
            ),
        decreases n - i,
    {
        proof {
            assert(views[i as int] == v@[i as int]@);
        }
        let t = trunc_net(&v[i]);
        let ghost r0 = r@;
        r.push(t);
        proof {
            let goal = views.map_values(|t: Seq<char>| spec_trunc(t));
            assert(r@ == r0.push(t));
            assert(r0.map_values(|n: IpNet| n@).len() == i as int);
            assert(r0.len() == i as int);
            assert forall|k: int| 0 <= k <= i as int implies r@.map_values(|n: IpNet| n@)[k]
                == goal[k] by {
                if k < i as int {
                    assert(r@[k] == r0[k]);
                    assert(r0.map_values(|n: IpNet| n@)[k] == goal.subrange(0, i as int)[k]);
                } else {
                    assert(r@[k] == t);
                    assert(goal[k] == spec_trunc(views[k]));
                }
            }
            assert(r@.map_values(|n: IpNet| n@) =~= goal.subrange(0, i as int + 1));
        }
        i = i + 1;
    }
    proof {
        assert(views.map_values(|t: Seq<char>| spec_trunc(t)).subrange(0, n as int) =~= views.map_values(
            |t: Seq<char>| spec_trunc(t),
        ));
    }
    r
}

/// The union of two lists of network values: first occurrences only,
/// in order.
pub fn union_nets(a: &Vec<IpNet>, b: &Vec<IpNet>) -> (r: Vec<IpNet>)
    ensures
        r@.map_values(|n: IpNet| n@) == spec_union(
            a@.map_values(|n: IpNet| n@),
            b@.map_values(|n: IpNet| n@),
        ),
{
    let ghost av = a@.map_values(|n: IpNet| n@);
    let ghost bv = b@.map_values(|n: IpNet| n@);
    let mut out: Vec<IpNet> = Vec::new();
    proof {
        assert(out@.map_values(|n: IpNet| n@) =~= Seq::<Seq<char>>::empty());
        assert(spec_dedup(Seq::<Seq<char>>::empty()) =~= Seq::<Seq<char>>::empty());
    }
    extend_dedup(&mut out, a);
    proof {
        assert(Seq::<Seq<char>>::empty() + av =~= av);
        lemma_dedup_idempotent(av);
    }
    extend_dedup(&mut out, b);
    proof {
        assert(spec_dedup(spec_dedup(av) + bv) =~= spec_union(av, bv)) by {
            lemma_dedup_concat_left(av, bv);
        }
    }
    out
}

/// Deduplication is idempotent.
proof fn lemma_dedup_idempotent(s: Seq<Seq<char>>)
    ensures
        spec_dedup(spec_dedup(s)) == spec_dedup(s),
    decreases s.len(),
{
    if s.len() > 0 {
        lemma_dedup_idempotent(s.drop_last());
        if texts_contain(s.drop_last(), s.last()) {
        } else {
            let d = spec_dedup(s.drop_last());
            assert(spec_dedup(s) == d.push(s.last()));
            assert(d.push(s.last()).drop_last() =~= d);
            assert(d.push(s.last()).last() == s.last());
            lemma_dedup_contains(s.drop_last(), s.last());
            assert(!texts_contain(d, s.last()));
        }
    }
}

/// Deduplicating the left part first changes nothing.
proof fn lemma_dedup_concat_left(a: Seq<Seq<char>>, b: Seq<Seq<char>>)
    ensures
        spec_dedup(spec_dedup(a) + b) == spec_dedup(a + b),
    decreases b.len(),
{
    if b.len() == 0 {
        assert(spec_dedup(a) + b =~= spec_dedup(a));
        assert(a + b =~= a);
        lemma_dedup_idempotent(a);
    } else {
        lemma_dedup_concat_left(a, b.drop_last());
        assert((spec_dedup(a) + b).drop_last() =~= spec_dedup(a) + b.drop_last());
        assert((a + b).drop_last() =~= a + b.drop_last());
        assert((spec_dedup(a) + b).last() == b.last());
        assert((a + b).last() == b.last());
        lemma_contains_concat_dedup(a, b.drop_last(), b.last());
    }
}

/// Membership in a concatenation is unchanged by deduplicating the
/// left part.
proof fn lemma_contains_concat_dedup(a: Seq<Seq<char>>, b: Seq<Seq<char>>, x: Seq<char>)
    ensures
        texts_contain(spec_dedup(a) + b, x) <==> texts_contain(a + b, x),
{
    lemma_dedup_contains(a, x);
    if texts_contain(spec_dedup(a) + b, x) {
        let i = choose|i: int| 0 <= i < (spec_dedup(a) + b).len() && (spec_dedup(a) + b)[i] == x;
        if i < spec_dedup(a).len() {
            assert(texts_contain(spec_dedup(a), x));
            let j = choose|j: int| 0 <= j < a.len() && a[j] == x;
            assert((a + b)[j] == x);
        } else {
            assert((a + b)[a.len() + (i - spec_dedup(a).len())] == x);
        }
    }
    if texts_contain(a + b, x) {
        let i = choose|i: int| 0 <= i < (a + b).len() && (a + b)[i] == x;
        if i < a.len() {
            assert(texts_contain(a, x));
            let j = choose|j: int|
                0 <= j < spec_dedup(a).len() && spec_dedup(a)[j] == x;
            assert((spec_dedup(a) + b)[j] == x);
        } else {
            assert((spec_dedup(a) + b)[spec_dedup(a).len() + (i - a.len())] == x);
        }
    }
}

/// Whether the value reads as an IPv4 CIDR block.
pub fn is_cidr(ip: &IpNet) -> (r: bool)
    ensures
        r == (spec_parse_cidr(ip@) is Some),
{
    let v = str_chars(ip.value.as_str());
    match parse_cidr_chars(&v) {
        Some(_) => true,
        None => false,
    }
}

/// Renders an IPv4 CIDR block canonically.
fn cidr_string(addr: u32, p: u32) -> (s: String)
    ensures
        s@ == spec_cidr_str(addr as nat, p as nat),
{
    let mut s = u32_to_string(addr / 16777216 % 256);
    push_char(&mut s, '.');
    let s2 = u32_to_string(addr / 65536 % 256);
    s.append(s2.as_str());
    push_char(&mut s, '.');
    let s3 = u32_to_string(addr / 256 % 256);
    s.append(s3.as_str());
    push_char(&mut s, '.');
    let s4 = u32_to_string(addr % 256);
    s.append(s4.as_str());
    push_char(&mut s, '/');
    let s5 = u32_to_string(p);
    s.append(s5.as_str());
    proof {
        assert(s@ =~= spec_cidr_str(addr as nat, p as nat));
    }
    s
}

} // verus!
