//! Key material for nodes, and the checks around the external
//! key-generation tool.
//!
//! The tool itself runs outside this library; what it prints is handed
//! in as plain text and normalized and validated here.

use vstd::prelude::*;
use crate::text::{push_char, str_chars};

verus! {

/// Errors of key provisioning.
#[derive(Debug, Clone, Copy, PartialEq, Eq, Structural)]
pub enum ProvisioningError {
    /// The key-generation tool is not available.
    ToolUnavailable,
    /// The tool ran and failed, or printed a malformed result.
    ToolFailed,
}

/// An asymmetric key pair, with an optional pre-shared key.
#[derive(Debug, PartialEq, Eq)]
pub struct WgKeyPair {
    pub public_key: String,
    pub private_key: String,
    pub ps_key: Option<String>,
}

impl WgKeyPair {
    /// Pairs a public key with its private key; no pre-shared key yet.
    pub fn new(public_key: String, private_key: String) -> (r: Self)
        ensures
            r.public_key == public_key,
            r.private_key == private_key,
            r.ps_key is None,
    {
        WgKeyPair { public_key, private_key, ps_key: None }
    }

    /// The public key.
    pub fn public_key(&self) -> (r: &str)
        ensures
            r@ == self.public_key@,
    {
        self.public_key.as_str()
    }

    /// The private key.
    pub fn private_key(&self) -> (r: &str)
        ensures
            r@ == self.private_key@,
    {
        self.private_key.as_str()
    }

    /// Replaces the pre-shared key.
    pub fn set_ps_key(&mut self, ps_key: Option<String>)
        ensures
            final(self).ps_key == ps_key,
            final(self).public_key == old(self).public_key,
            final(self).private_key == old(self).private_key,
    {
        self.ps_key = ps_key;
    }
}

/// Whether a character counts as surrounding whitespace in tool
/// output.
pub open spec fn is_space(c: char) -> bool {
    c == ' ' || c == '\n' || c == '\r' || c == '\t'
}

/// The text with surrounding whitespace removed: the characters from
/// the first to the last non-space position.
pub open spec fn spec_trimmed(s: Seq<char>) -> Seq<char>
    decreases s.len(),
{
    if s.len() == 0 {
        s
    } else if is_space(s[0]) {
        spec_trimmed(s.drop_first())
    } else if is_space(s.last()) {
        spec_trimmed(s.drop_last())
    } else {
        s
    }
}

fn space_char(c: char) -> (r: bool)
    ensures
        r == is_space(c),
{
    c == ' ' || c == '\n' || c == '\r' || c == '\t'
}

/// Strips surrounding whitespace from one line of tool output.
pub fn trim_output(s: &str) -> (r: String)
    ensures
        r@ == spec_trimmed(s@),
{
    let v = str_chars(s);
    let n = v.len();
    proof {
        assert(v@.subrange(0, n as int) =~= s@);
    }
    let mut from: usize = 0;
    while from < n && space_char(v[from])
        invariant
            from <= n,
            n == v@.len(),
            v@ == s@,
            spec_trimmed(s@) == spec_trimmed(v@.subrange(from as int, n as int)),
        decreases n - from,
    {
        proof {
            let cur = v@.subrange(from as int, n as int);
            assert(cur[0] == v@[from as int]);
            assert(cur.drop_first() =~= v@.subrange(from as int + 1, n as int));
        }
        from = from + 1;
    }
    let mut to: usize = n;
    while to > from && space_char(v[to - 1])
        invariant
            from <= to <= n,
            n == v@.len(),
            v@ == s@,
            from < n ==> !is_space(v@[from as int]),
            from == to || !is_space(v@[from as int]),
            spec_trimmed(s@) == spec_trimmed(v@.subrange(from as int, to as int)),
        decreases to,
    {
        proof {
            let cur = v@.subrange(from as int, to as int);
            assert(cur.last() == v@[to as int - 1]);
            assert(cur.drop_last() =~= v@.subrange(from as int, to as int - 1));
        }
        to = to - 1;
    }
    proof {
        let cur = v@.subrange(from as int, to as int);
        if cur.len() > 0 {
            assert(cur[0] == v@[from as int]);
            assert(cur.last() == v@[to as int - 1]);
        }
        assert(spec_trimmed(cur) == cur);
    }
    crate::text::chars_string(&v, from, to)
}

/// The commands around the external key-generation tool.
#[derive(Debug, PartialEq, Eq)]
pub struct WireGuardCommand;

impl WireGuardCommand {
    /// Normalizes one line of tool output into a key.  The tool's
    /// output must be non-empty once surrounding whitespace is
    /// stripped; an empty result reads as a tool failure.
    pub fn output_to_key(output: &str) -> (r: Result<String, ProvisioningError>)
        ensures
            spec_trimmed(output@).len() > 0 ==> r is Ok && r.unwrap()@ == spec_trimmed(output@),
            spec_trimmed(output@).len() == 0 ==> r == Err::<String, ProvisioningError>(
                ProvisioningError::ToolFailed,
            ),
    {
        let t = trim_output(output);
        if t.as_str().unicode_len() == 0 {
            Err(ProvisioningError::ToolFailed)
        } else {
            Ok(t)
        }
    }

    /// Builds a key pair from the tool's printed private and public
    /// keys, and its printed pre-shared key when one was requested.
    /// Each line must be non-empty once trimmed.
    pub fn build_key_pair(public_out: &str, private_out: &str, psk_out: Option<&str>) -> (r:
        Result<WgKeyPair, ProvisioningError>)
        ensures
            ({
                let ok = spec_trimmed(public_out@).len() > 0 && spec_trimmed(private_out@).len()
                    > 0 && (match psk_out {
                    Some(p) => spec_trimmed(p@).len() > 0,
                    None => true,
                });
                &&& (r is Ok <==> ok)
                &&& (r is Ok ==> r.unwrap().public_key@ == spec_trimmed(public_out@)
                    && r.unwrap().private_key@ == spec_trimmed(private_out@) && (match psk_out {
                    Some(p) => r.unwrap().ps_key is Some && r.unwrap().ps_key.unwrap()@
                        == spec_trimmed(p@),
                    None => r.unwrap().ps_key is None,
                }))
                &&& (r is Err ==> r == Err::<WgKeyPair, ProvisioningError>(
                    ProvisioningError::ToolFailed,
                ))
            }),
    {
        let pub_key = match WireGuardCommand::output_to_key(public_out) {
            Ok(k) => k,
            Err(e) => {
                return Err(e);
            },
        };
        let prv_key = match WireGuardCommand::output_to_key(private_out) {
            Ok(k) => k,
            Err(e) => {
                return Err(e);
            },
        };
        let mut pair = WgKeyPair::new(pub_key, prv_key);
        match psk_out {
            Some(p) => {
                let ps = match WireGuardCommand::output_to_key(p) {
                    Ok(k) => k,
                    Err(e) => {
                        return Err(e);
                    },
                };
                pair.set_ps_key(Some(ps));
            },
            None => {},
        }
        Ok(pair)
    }
}

} // verus!
