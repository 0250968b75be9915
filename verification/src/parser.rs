//! Checks for user-supplied values: hosts, ports, MTUs and address
//! lists.

use vstd::prelude::*;
use crate::keys::spec_trimmed;
use crate::net::{spec_parse_cidr, IpNet};
use crate::store::spec_split_commas;
use crate::text::{find_char, is_dec_digits, parse_dec, spec_dec_val, str_chars};

verus! {

/// Why a user-supplied value was rejected.
#[derive(Debug, Clone, Copy, PartialEq, Eq, Structural)]
pub enum ParseError {
    /// The text is neither an IPv4 address nor an acceptable domain
    /// name.
    BadHost,
    /// The text is not a port number between 1024 and 65535.
    BadPort,
    /// The text is not an MTU value.
    BadMtu,
    /// The text is not a comma-separated list of IPv4 CIDR blocks.
    BadAddress,
}

/// Whether a host text is acceptable: non-empty, at most 253
/// characters, holding at least one dot, not starting or ending with
/// a dash, and free of asterisks.  IPv4 addresses in dotted form pass
/// these rules as well.
pub open spec fn spec_host_ok(s: Seq<char>) -> bool {
    &&& 0 < s.len() <= 253
    &&& find_char(s, '.') >= 0
    &&& s[0] != '-'
    &&& s.last() != '-'
    &&& crate::store::no_char(s, '*')
}

/// Accepts a host: an IPv4 address or a domain-shaped name.
pub fn parser_host(s: &str) -> (r: Result<String, ParseError>)
    ensures
        r is Ok <==> spec_host_ok(s@),
        r is Ok ==> r.unwrap()@ == s@,
        r is Err ==> r == Err::<String, ParseError>(ParseError::BadHost),
{
    let v = str_chars(s);
    let n = v.len();
    if n == 0 || n > 253 {
        return Err(ParseError::BadHost);
    }
    let dot = crate::text::find_in(&v, 0, n, '.');
    proof {
        assert(v@.subrange(0, n as int) =~= v@);
    }
    if dot == n {
        return Err(ParseError::BadHost);
    }
    if v[0] == '-' || v[n - 1] == '-' {
        return Err(ParseError::BadHost);
    }
    let star = crate::text::find_in(&v, 0, n, '*');
    if star < n {
        return Err(ParseError::BadHost);
    }
    proof {
        assert(crate::store::no_char(s@, '*'));
    }
    Ok(String::from_str(s))
}

/// Whether a port text reads as a number between 1024 and 65535.
pub open spec fn spec_port_ok(s: Seq<char>) -> bool {
    is_dec_digits(s) && 1024 <= spec_dec_val(s) <= 65535
}

/// Accepts a port number in the unprivileged range 1024 to 65535.
pub fn parser_port_in_range(s: &str) -> (r: Result<u16, ParseError>)
    ensures
        r is Ok <==> spec_port_ok(s@),
        r is Ok ==> r.unwrap() as nat == spec_dec_val(s@),
        r is Err ==> r == Err::<u16, ParseError>(ParseError::BadPort),
{
    let v = str_chars(s);
    let n = v.len();
    proof {
        assert(v@.subrange(0, n as int) =~= v@);
    }
    match parse_dec(&v, 0, n) {
        Some(x) => {
            if 1024 <= x && x <= 65535 {
                Ok(x as u16)
            } else {
                Err(ParseError::BadPort)
            }
        },
        None => Err(ParseError::BadPort),
    }
}

/// Accepts a port number, as [`parser_port_in_range`] does.
pub fn verify_port_in_range(s: &str) -> (r: Result<u16, ParseError>)
    ensures
        r is Ok <==> spec_port_ok(s@),
        r is Ok ==> r.unwrap() as nat == spec_dec_val(s@),
        r is Err ==> r == Err::<u16, ParseError>(ParseError::BadPort),
{
    parser_port_in_range(s)
}

/// Whether an MTU text reads as a 16-bit number.
pub open spec fn spec_mtu_ok(s: Seq<char>) -> bool {
    is_dec_digits(s) && spec_dec_val(s) <= 65535
}

/// Accepts an MTU value.
pub fn parser_mtu(s: &str) -> (r: Result<u16, ParseError>)
    ensures
        r is Ok <==> spec_mtu_ok(s@),
        r is Ok ==> r.unwrap() as nat == spec_dec_val(s@),
        r is Err ==> r == Err::<u16, ParseError>(ParseError::BadMtu),
{
    let v = str_chars(s);
    let n = v.len();
    proof {
        assert(v@.subrange(0, n as int) =~= v@);
    }
    match parse_dec(&v, 0, n) {
        Some(x) => {
            if x <= 65535 {
                Ok(x as u16)
            } else {
                Err(ParseError::BadMtu)
            }
        },
        None => Err(ParseError::BadMtu),
    }
}

/// The comma-separated segments of a text, each trimmed.
pub open spec fn spec_segments(s: Seq<char>) -> Seq<Seq<char>> {
    spec_split_commas(s).map_values(|t: Seq<char>| spec_trimmed(t))
}

/// Accepts a comma-separated list of IPv4 CIDR blocks; each segment
/// is trimmed of surrounding whitespace first.
pub fn parser_address_in_range(s: &str) -> (r: Result<Vec<IpNet>, ParseError>)
    ensures
        r is Ok <==> (forall|i: int|
            0 <= i < spec_segments(s@).len() ==> spec_parse_cidr(
                #[trigger] spec_segments(s@)[i],
            ) is Some),
        r is Ok ==> r.unwrap()@.map_values(|n: IpNet| n@) == spec_segments(s@),
        r is Err ==> r == Err::<Vec<IpNet>, ParseError>(ParseError::BadAddress),
{
    let v = str_chars(s);
    let n = v.len();
    proof {
        assert(v@.subrange(0, n as int) =~= v@);
    }
    let raw = crate::store::split_commas_vec(&v, 0, n);
    let ghost segs = spec_segments(s@);
    let m = raw.len();
    proof {
        assert(segs.len() == raw@.map_values(|x: IpNet| x@).len());
    }
    let mut out: Vec<IpNet> = Vec::new();
    let mut i: usize = 0;
    while i < m
        invariant
            i <= m,
            m == raw@.len(),
            raw@.map_values(|x: IpNet| x@) == spec_split_commas(s@),
            segs == spec_segments(s@),
            segs.len() == m,
            out@.map_values(|x: IpNet| x@) =~= segs.subrange(0, i as int),
            forall|k: int| 0 <= k < i ==> spec_parse_cidr(#[trigger] segs[k]) is Some,
        decreases m - i,
    {
        proof {
            assert(raw@.map_values(|x: IpNet| x@)[i as int] == raw@[i as int]@);
            assert(segs[i as int] == spec_trimmed(raw@[i as int]@));
        }
        let t = crate::keys::trim_output(raw[i].value.as_str());
        let item = IpNet::new(t);
        if !crate::net::is_cidr(&item) {
            return Err(ParseError::BadAddress);
        }
        let ghost out0 = out@;
        let ghost itemv = item@;
        out.push(item);
        proof {
            assert(out0.map_values(|x: IpNet| x@).len() == i as int);
            assert(out0.len() == i as int);
            assert forall|k: int| 0 <= k <= i as int implies out@.map_values(|x: IpNet| x@)[k]
                == segs[k] by {
                if k < i as int {
                    assert(out@[k] == out0[k]);
                    assert(out0.map_values(|x: IpNet| x@)[k] == segs.subrange(0, i as int)[k]);
                } else {
                    assert(out@[k]@ == itemv);
                }
            }
            assert(out@.map_values(|x: IpNet| x@) =~= segs.subrange(0, i as int + 1));
        }
        i = i + 1;
    }
    proof {
        assert(segs.subrange(0, m as int) =~= segs);
    }
    Ok(out)
}

} // verus!
