//! Character-level helpers shared by the renderer and the document codec.

use vstd::prelude::*;

verus! {

/// Relies on `String::push`: appends the given character to the end of
/// the string.
#[verifier::external_body]
pub fn push_char(s: &mut String, c: char)
    ensures
        final(s)@ == old(s)@ + seq![c],
{
    s.push(c);
}

/// Collects the characters of a string slice into a vector.
pub fn str_chars(s: &str) -> (r: Vec<char>)
    ensures
        r@ == s@,
{
    let n: usize = s.unicode_len();
    let mut r: Vec<char> = Vec::new();
    let mut i: usize = 0;
    while i < n
        invariant
            i <= n,
            n == s@.len(),
            r@ == s@.subrange(0, i as int),
        decreases n - i,
    {
        r.push(s.get_char(i));
        i = i + 1;
        proof {
            assert(r@ =~= s@.subrange(0, i as int));
        }
    }
    proof {
        assert(r@ =~= s@);
    }
    r
}

/// Compares two string slices character by character.
pub fn str_eq(a: &str, b: &str) -> (r: bool)
    ensures
        r == (a@ == b@),
{
    let na: usize = a.unicode_len();
    let nb: usize = b.unicode_len();
    if na != nb {
        proof {
            assert(a@ != b@);
        }
        return false;
    }
    let mut i: usize = 0;
    while i < na
        invariant
            i <= na,
            na == a@.len(),
            na == b@.len(),
            forall|k: int| 0 <= k < i ==> a@[k] == b@[k],
        decreases na - i,
    {
        if a.get_char(i) != b.get_char(i) {
            return false;
        }
        i = i + 1;
    }
    proof {
        assert(a@ =~= b@);
    }
    true
}

/// Whether the characters `v[from..to]` spell exactly the given text.
pub fn region_eq(v: &Vec<char>, from: usize, to: usize, s: &str) -> (r: bool)
    requires
        from <= to <= v@.len(),
    ensures
        r == (v@.subrange(from as int, to as int) == s@),
{
    let ghost region = v@.subrange(from as int, to as int);
    let m: usize = s.unicode_len();
    if m != to - from {
        proof {
            assert(region != s@);
        }
        return false;
    }
    let mut i: usize = 0;
    while i < m
        invariant
            i <= m,
            m == to - from,
            from <= to <= v@.len(),
            m == s@.len(),
            region == v@.subrange(from as int, to as int),
            forall|k: int| 0 <= k < i ==> region[k] == s@[k],
        decreases m - i,
    {
        proof {
            assert(region[i as int] == v@[from + i]);
        }
        if v[from + i] != s.get_char(i) {
            return false;
        }
        i = i + 1;
    }
    proof {
        assert(region =~= s@);
    }
    true
}

/// Builds a string out of the characters `v[from..to]`.
pub fn chars_string(v: &Vec<char>, from: usize, to: usize) -> (r: String)
    requires
        from <= to <= v@.len(),
    ensures
        r@ == v@.subrange(from as int, to as int),
{
    let mut r = String::new();
    let mut i: usize = from;
    while i < to
        invariant
            from <= i <= to <= v@.len(),
            r@ == v@.subrange(from as int, i as int),
        decreases to - i,
    {
        push_char(&mut r, v[i]);
        i = i + 1;
        proof {
            assert(r@ =~= v@.subrange(from as int, i as int));
        }
    }
    r
}

/// The character of one decimal digit.
pub open spec fn spec_digit(d: nat) -> char {
    if d == 0 {
        '0'
    } else if d == 1 {
        '1'
    } else if d == 2 {
        '2'
    } else if d == 3 {
        '3'
    } else if d == 4 {
        '4'
    } else if d == 5 {
        '5'
    } else if d == 6 {
        '6'
    } else if d == 7 {
        '7'
    } else if d == 8 {
        '8'
    } else {
        '9'
    }
}

/// The value of one decimal digit character.
pub open spec fn spec_digit_val(c: char) -> nat {
    (c as int - '0' as int) as nat
}

/// The decimal rendering of a number, most significant digit first.
pub open spec fn spec_dec(n: nat) -> Seq<char>
    decreases n,
{
    if n < 10 {
        seq![spec_digit(n)]
    } else {
        spec_dec(n / 10).push(spec_digit(n % 10))
    }
}

/// Whether a character is a decimal digit.
pub open spec fn is_digit(c: char) -> bool {
    '0' <= c && c <= '9'
}

/// Whether a non-empty character sequence consists of decimal digits.
pub open spec fn is_dec_digits(s: Seq<char>) -> bool {
    s.len() > 0 && forall|i: int| 0 <= i < s.len() ==> is_digit(#[trigger] s[i])
}

/// The numeric value of a sequence of decimal digit characters.
pub open spec fn spec_dec_val(s: Seq<char>) -> nat
    decreases s.len(),
{
    if s.len() == 0 {
        0
    } else {
        spec_dec_val(s.drop_last()) * 10 + spec_digit_val(s.last())
    }
}

/// The decimal value of a sequence extended by one digit.
pub proof fn lemma_dec_val_push(s: Seq<char>, c: char)
    ensures
        spec_dec_val(s.push(c)) == spec_dec_val(s) * 10 + spec_digit_val(c),
{
    assert(s.push(c).drop_last() =~= s);
    assert(s.push(c).last() == c);
    assert(spec_dec_val(s.push(c)) == spec_dec_val(s.push(c).drop_last()) * 10 + spec_digit_val(
        s.push(c).last(),
    ));
}

/// Rendering a number gives digits whose value is the number again.
pub proof fn lemma_dec_round_trip(n: nat)
    ensures
        is_dec_digits(spec_dec(n)),
        spec_dec_val(spec_dec(n)) == n,
    decreases n,
{
    if n < 10 {
        assert(spec_dec(n) =~= seq![spec_digit(n)]);
        assert(Seq::<char>::empty().push(spec_digit(n)) =~= seq![spec_digit(n)]);
        lemma_dec_val_push(Seq::<char>::empty(), spec_digit(n));
        assert(spec_digit_val(spec_digit(n)) == n);
        assert(is_digit(spec_digit(n)));
    } else {
        lemma_dec_round_trip(n / 10);
        let s = spec_dec(n / 10);
        let c = spec_digit(n % 10);
        lemma_dec_val_push(s, c);
        assert(spec_digit_val(c) == n % 10);
        assert(spec_dec_val(s.push(c)) == (n / 10) * 10 + n % 10);
        assert(is_digit(c));
        assert forall|i: int| 0 <= i < s.push(c).len() implies is_digit(#[trigger] s.push(c)[i]) by {
            if i < s.len() {
                assert(s.push(c)[i] == s[i]);
            } else {
                assert(s.push(c)[i] == c);
            }
        }
    }
}

/// One digit character.
fn digit_char(d: u8) -> (c: char)
    requires
        d < 10,
    ensures
        c == spec_digit(d as nat),
{
    match d {
        0 => '0',
        1 => '1',
        2 => '2',
        3 => '3',
        4 => '4',
        5 => '5',
        6 => '6',
        7 => '7',
        8 => '8',
        _ => '9',
    }
}

/// Renders a number in decimal.
pub fn u32_to_string(n: u32) -> (s: String)
    ensures
        s@ == spec_dec(n as nat),
    decreases n,
{
    if n < 10 {
        let mut s = String::new();
        push_char(&mut s, digit_char(n as u8));
        proof {
            assert(s@ =~= seq![spec_digit(n as nat)]);
        }
        s
    } else {
        let mut s = u32_to_string(n / 10);
        push_char(&mut s, digit_char((n % 10) as u8));
        proof {
            assert(s@ =~= spec_dec((n / 10) as nat).push(spec_digit((n % 10) as nat)));
        }
        s
    }
}

/// Renders a 16-bit number in decimal.
pub fn u16_to_string(n: u16) -> (s: String)
    ensures
        s@ == spec_dec(n as nat),
{
    u32_to_string(n as u32)
}

/// Reads the decimal value of `v[from..to]`.  Yields the value exactly
/// when the region is non-empty, all digits, and fits 32 bits.
pub fn parse_dec(v: &Vec<char>, from: usize, to: usize) -> (r: Option<u32>)
    requires
        from <= to <= v@.len(),
    ensures
        ({
            let region = v@.subrange(from as int, to as int);
            &&& (r is Some <==> is_dec_digits(region) && spec_dec_val(region) <= u32::MAX)
            &&& (r is Some ==> r.unwrap() as nat == spec_dec_val(region))
        }),
{
    let ghost region = v@.subrange(from as int, to as int);
    if from == to {
        return None;
    }
    let mut acc: u64 = 0;
    let mut i: usize = from;
    while i < to
        invariant
            from <= i <= to <= v@.len(),
            region == v@.subrange(from as int, to as int),
            acc as nat == spec_dec_val(region.subrange(0, i - from)),
            acc <= u32::MAX,
            forall|k: int| 0 <= k < i - from ==> is_digit(#[trigger] region[k]),
        decreases to - i,
    {
        let c = v[i];
        proof {
            assert(region[i - from] == v@[i as int]);
        }
        if !(c >= '0' && c <= '9') {
            return None;
        }
        let d: u64 = (c as u32 - '0' as u32) as u64;
        proof {
            assert(d as nat == spec_digit_val(c));
            assert(region.subrange(0, i - from + 1) =~= region.subrange(0, i - from).push(
                region[i - from],
            ));
            lemma_dec_val_push(region.subrange(0, i - from), region[i - from]);
        }
        let next: u64 = acc * 10 + d;
        if next > 0xffff_ffff {
            proof {
                lemma_dec_val_oversize(region, i - from + 1);
            }
            return None;
        }
        acc = next;
        i = i + 1;
    }
    proof {
        assert(region.subrange(0, to - from) =~= region);
    }
    Some(acc as u32)
}

/// The first position of `c` in `s`, or `-1` when `s` does not hold it.
pub open spec fn find_char(s: Seq<char>, c: char) -> int
    decreases s.len(),
{
    if s.len() == 0 {
        -1
    } else if s[0] == c {
        0
    } else {
        let r = find_char(s.drop_first(), c);
        if r < 0 {
            -1
        } else {
            r + 1
        }
    }
}

/// `find_char` names the first position of its character.
pub proof fn lemma_find_char_is(s: Seq<char>, c: char, i: int)
    requires
        0 <= i < s.len(),
        s[i] == c,
        forall|k: int| 0 <= k < i ==> s[k] != c,
    ensures
        find_char(s, c) == i,
    decreases s.len(),
{
    if i > 0 {
        lemma_find_char_is(s.drop_first(), c, i - 1);
    }
}

/// `find_char` reports absence exactly.
pub proof fn lemma_find_char_none(s: Seq<char>, c: char)
    requires
        forall|k: int| 0 <= k < s.len() ==> s[k] != c,
    ensures
        find_char(s, c) == -1,
    decreases s.len(),
{
    if s.len() > 0 {
        lemma_find_char_none(s.drop_first(), c);
    }
}

/// Looks for `c` in `v[from..to]`; yields `to` when it is absent.
pub fn find_in(v: &Vec<char>, from: usize, to: usize, c: char) -> (r: usize)
    requires
        from <= to <= v@.len(),
    ensures
        from <= r <= to,
        r < to ==> v@[r as int] == c && find_char(v@.subrange(from as int, to as int), c) == r
            - from,
        r == to ==> find_char(v@.subrange(from as int, to as int), c) == -1,
        forall|k: int| from <= k < r ==> v@[k] != c,
{
    let ghost region = v@.subrange(from as int, to as int);
    let mut i: usize = from;
    while i < to
        invariant
            from <= i <= to <= v@.len(),
            region == v@.subrange(from as int, to as int),
            forall|k: int| from <= k < i ==> v@[k] != c,
        decreases to - i,
    {
        if v[i] == c {
            proof {
                assert(region[i - from] == v@[i as int]);
                assert forall|k: int| 0 <= k < i - from implies region[k] != c by {
                    assert(region[k] == v@[from + k]);
                }
                lemma_find_char_is(region, c, i - from);
            }
            return i;
        }
        i = i + 1;
    }
    proof {
        assert forall|k: int| 0 <= k < region.len() implies region[k] != c by {
            assert(region[k] == v@[from + k]);
        }
        lemma_find_char_none(region, c);
    }
    to
}

/// A digit region whose prefix value exceeds 32 bits exceeds them as a
/// whole.
proof fn lemma_dec_val_oversize(s: Seq<char>, i: int)
    requires
        0 <= i <= s.len(),
        spec_dec_val(s.subrange(0, i)) > u32::MAX,
    ensures
        spec_dec_val(s) > u32::MAX,
    decreases s.len() - i,
{
    if i < s.len() {
        assert(s.subrange(0, i + 1) =~= s.subrange(0, i).push(s[i]));
        lemma_dec_val_push(s.subrange(0, i), s[i]);
        lemma_dec_val_oversize(s, i + 1);
    } else {
        assert(s.subrange(0, i) =~= s);
    }
}

} // verus!
