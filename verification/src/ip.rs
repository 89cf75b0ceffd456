//! IP addresses, in numeric and textual form, and CIDR networks.
//!
//! An address value is a plain integer, one per family; the textual form a
//! value was read from is kept beside it, so documents print back exactly
//! as they were read. IPv4 text is parsed and printed here; IPv6 text goes
//! through the `ipnetwork` crate.

use vstd::prelude::*;
use vstd::arithmetic::power2::pow2;

use crate::text::{
    all_digits, chars_to_string, dec_chars, dec_val, is_digit, lemma_dec_chars_digits,
    lemma_dec_chars_no_leading_zero, lemma_dec_chars_of_val, lemma_dec_val_of_dec_chars,
    parse_u64_digits, push_u64_digits, str_to_chars,
};
use crate::json::{digits_end, lemma_digits_end, p_digits_end, sub_chars};

verus! {

/// The numeric value of an IP address.
#[derive(Clone, Copy, Debug, PartialEq, Eq, Structural)]
pub enum IpAddress {
    V4(u32),
    V6(u128),
}

impl IpAddress {
    /// The address as an integer, whatever the family.
    pub open spec fn val(self) -> u128 {
        match self {
            IpAddress::V4(a) => a as u128,
            IpAddress::V6(a) => a,
        }
    }

    /// Whether the address is IPv4.
    pub open spec fn is_v4(self) -> bool {
        self is V4
    }

    /// The number of bits in an address of this family.
    pub open spec fn bits(self) -> nat {
        if self is V4 {
            32
        } else {
            128
        }
    }

    /// Whether two addresses belong to the same family.
    pub open spec fn same_family(self, other: IpAddress) -> bool {
        (self is V4) == (other is V4)
    }

    /// The executable value of the address.
    pub fn value(&self) -> (r: u128)
        ensures
            r == self.val(),
    {
        match self {
            IpAddress::V4(a) => *a as u128,
            IpAddress::V6(a) => *a,
        }
    }

    /// The address of the same family whose value is `v`.
    pub fn with_val(&self, v: u128) -> (r: IpAddress)
        requires
            self is V4 ==> v < 0x1_0000_0000,
        ensures
            r.val() == v,
            r.same_family(*self),
    {
        match self {
            IpAddress::V4(_) => IpAddress::V4(v as u32),
            IpAddress::V6(_) => IpAddress::V6(v),
        }
    }
}

// ------------------------------------------------------------------
// IPv4 text
// ------------------------------------------------------------------

/// Parses dotted-decimal IPv4 text: four octets, each without leading
/// zeroes.
pub open spec fn parse_ipv4(s: Seq<char>) -> Option<u32> {
    let d1 = digits_end(s, 0);
    let d2 = digits_end(s, d1 + 1);
    let d3 = digits_end(s, d2 + 1);
    let d4 = digits_end(s, d3 + 1);
    if octet_wf(s, 0, d1) && d1 < s.len() && s[d1] == '.' && octet_wf(s, d1 + 1, d2) && d2
        < s.len() && s[d2] == '.' && octet_wf(s, d2 + 1, d3) && d3 < s.len() && s[d3] == '.'
        && octet_wf(s, d3 + 1, d4) && d4 == s.len() {
        Some(
            (dec_val(s.subrange(0, d1)) * 0x1000000 + dec_val(s.subrange(d1 + 1, d2)) * 0x10000
                + dec_val(s.subrange(d2 + 1, d3)) * 0x100 + dec_val(
                s.subrange(d3 + 1, d4),
            )) as u32,
        )
    } else {
        None
    }
}

/// Whether an octet field is well formed at `i` up to `e`: one to three
/// digits, no leading zero, value at most 255.
pub open spec fn octet_wf(s: Seq<char>, i: int, e: int) -> bool {
    &&& 0 <= i < e <= s.len()
    &&& e == digits_end(s, i)
    &&& (s[i] == '0' ==> e == i + 1)
    &&& dec_val(s.subrange(i, e)) <= 255
}

/// The dotted-decimal text of an IPv4 address.
pub open spec fn ipv4_chars(a: u32) -> Seq<char> {
    dec_chars((a / 0x1000000) as nat) + seq!['.'] + dec_chars(((a / 0x10000) % 0x100) as nat)
        + seq!['.'] + dec_chars(((a / 0x100) % 0x100) as nat) + seq!['.'] + dec_chars(
        (a % 0x100) as nat,
    )
}


/// Reads one octet field whose digit run is `[i, e)`.
fn octet(s: &Vec<char>, i: usize, e: usize) -> (r: Option<u32>)
    requires
        i <= e <= s@.len(),
        e == digits_end(s@, i as int),
    ensures
        octet_wf(s@, i as int, e as int) ==> r == Some(
            dec_val(s@.subrange(i as int, e as int)) as u32,
        ),
        !octet_wf(s@, i as int, e as int) ==> r is None,
{
    proof {
        lemma_digits_end(s@, i as int);
        assert forall|x: int| 0 <= x < s@.subrange(i as int, e as int).len() implies is_digit(
            #[trigger] s@.subrange(i as int, e as int)[x],
        ) by {
            assert(s@.subrange(i as int, e as int)[x] == s@[i + x]);
        }
    }
    match parse_u64_digits(s.as_slice(), i, e) {
        None => {
            proof {
                if i < e {
                    assert(dec_val(s@.subrange(i as int, e as int)) > u64::MAX);
                }
            }
            None
        },
        Some(v) => {
            if v > 255 {
                return None;
            }
            if s[i] == '0' && e != i + 1 {
                return None;
            }
            proof {
                assert(s@.subrange(i as int, e as int)[0] == s@[i as int]);
            }
            Some(v as u32)
        },
    }
}

/// Parses dotted-decimal IPv4 text.
#[verifier::rlimit(100)]
pub fn parse_ipv4_chars(s: &Vec<char>) -> (r: Option<u32>)
    ensures
        r == parse_ipv4(s@),
{
    let n = s.len();
    let d1 = p_digits_end(s, 0);
    proof {
        lemma_digits_end(s@, 0);
    }
    if d1 >= n || !(s[d1] == '.') {
        return None;
    }
    let d2 = p_digits_end(s, d1 + 1);
    proof {
        lemma_digits_end(s@, d1 + 1);
    }
    if d2 >= n || !(s[d2] == '.') {
        return None;
    }
    let d3 = p_digits_end(s, d2 + 1);
    proof {
        lemma_digits_end(s@, d2 + 1);
    }
    if d3 >= n || !(s[d3] == '.') {
        return None;
    }
    let d4 = p_digits_end(s, d3 + 1);
    proof {
        lemma_digits_end(s@, d3 + 1);
    }
    if d4 != n {
        return None;
    }
    let o1 = match octet(s, 0, d1) {
        Some(x) => x,
        None => {
            return None;
        },
    };
    let o2 = match octet(s, d1 + 1, d2) {
        Some(x) => x,
        None => {
            return None;
        },
    };
    let o3 = match octet(s, d2 + 1, d3) {
        Some(x) => x,
        None => {
            return None;
        },
    };
    let o4 = match octet(s, d3 + 1, d4) {
        Some(x) => x,
        None => {
            return None;
        },
    };
    Some(o1 * 0x1000000 + o2 * 0x10000 + o3 * 0x100 + o4)
}

/// The dotted-decimal text of an IPv4 address.
pub fn ipv4_to_chars(a: u32, out: &mut Vec<char>)
    ensures
        final(out)@ == old(out)@ + ipv4_chars(a),
{
    push_u64_digits((a / 0x1000000) as u64, out);
    out.push('.');
    push_u64_digits(((a / 0x10000) % 0x100) as u64, out);
    out.push('.');
    push_u64_digits(((a / 0x100) % 0x100) as u64, out);
    out.push('.');
    push_u64_digits((a % 0x100) as u64, out);
    proof {
        assert(out@ =~= old(out)@ + ipv4_chars(a));
    }
}


/// A digit run is pinned down by its ends.
proof fn lemma_digits_end_exact(s: Seq<char>, i: int, e: int)
    requires
        0 <= i <= e <= s.len(),
        forall|x: int| i <= x < e ==> is_digit(#[trigger] s[x]),
        e == s.len() || !is_digit(s[e]),
    ensures
        digits_end(s, i) == e,
    decreases e - i,
{
    if i < e {
        lemma_digits_end_exact(s, i + 1, e);
    }
}

/// Printing a parsed IPv4 address yields the text it was parsed from.
#[verifier::rlimit(100)]
pub proof fn lemma_ipv4_text_round_trip(s: Seq<char>)
    requires
        parse_ipv4(s) is Some,
    ensures
        ipv4_chars(parse_ipv4(s).unwrap()) == s,
{
    let a = parse_ipv4(s).unwrap();
    let d1 = digits_end(s, 0);
    let d2 = digits_end(s, d1 + 1);
    let d3 = digits_end(s, d2 + 1);
    let d4 = digits_end(s, d3 + 1);
    lemma_digits_end(s, 0);
    lemma_digits_end(s, d1 + 1);
    lemma_digits_end(s, d2 + 1);
    lemma_digits_end(s, d3 + 1);
    let s1 = s.subrange(0, d1);
    let s2 = s.subrange(d1 + 1, d2);
    let s3 = s.subrange(d2 + 1, d3);
    let s4 = s.subrange(d3 + 1, d4);
    let v1 = dec_val(s1);
    let v2 = dec_val(s2);
    let v3 = dec_val(s3);
    let v4 = dec_val(s4);
    assert forall|x: int| 0 <= x < s1.len() implies is_digit(#[trigger] s1[x]) by {
        assert(s1[x] == s[x]);
    }
    assert forall|x: int| 0 <= x < s2.len() implies is_digit(#[trigger] s2[x]) by {
        assert(s2[x] == s[d1 + 1 + x]);
    }
    assert forall|x: int| 0 <= x < s3.len() implies is_digit(#[trigger] s3[x]) by {
        assert(s3[x] == s[d2 + 1 + x]);
    }
    assert forall|x: int| 0 <= x < s4.len() implies is_digit(#[trigger] s4[x]) by {
        assert(s4[x] == s[d3 + 1 + x]);
    }
    assert(s1[0] == s[0] && s2[0] == s[d1 + 1] && s3[0] == s[d2 + 1] && s4[0] == s[d3 + 1]);
    lemma_dec_chars_of_val(s1);
    lemma_dec_chars_of_val(s2);
    lemma_dec_chars_of_val(s3);
    lemma_dec_chars_of_val(s4);
    assert(a == v1 * 0x1000000 + v2 * 0x10000 + v3 * 0x100 + v4);
    assert(v2 * 0x10000 + v3 * 0x100 + v4 < 0x1000000) by (nonlinear_arith)
        requires
            v2 <= 255 && v3 <= 255 && v4 <= 255,
    ;
    assert(a / 0x1000000 == v1 && (a / 0x10000) % 0x100 == v2 && (a / 0x100) % 0x100 == v3 && a
        % 0x100 == v4) by (nonlinear_arith)
        requires
            a == v1 * 0x1000000 + v2 * 0x10000 + v3 * 0x100 + v4,
            v1 <= 255 && v2 <= 255 && v3 <= 255 && v4 <= 255,
    ;
    assert(ipv4_chars(a) =~= s);
}

/// Parsing the printed text of an IPv4 address yields the address back.
#[verifier::rlimit(100)]
pub proof fn lemma_ipv4_value_round_trip(a: u32)
    ensures
        parse_ipv4(ipv4_chars(a)) == Some(a),
        forall|x: int| 0 <= x < ipv4_chars(a).len() ==> is_digit(#[trigger] ipv4_chars(a)[x])
            || ipv4_chars(a)[x] == '.',
{
    let s = ipv4_chars(a);
    let v1 = (a / 0x1000000) as nat;
    let v2 = (((a / 0x10000) as u32) % 0x100) as nat;
    let v3 = (((a / 0x100) as u32) % 0x100) as nat;
    let v4 = (a % 0x100) as nat;
    let c1 = dec_chars(v1);
    let c2 = dec_chars(v2);
    let c3 = dec_chars(v3);
    let c4 = dec_chars(v4);
    lemma_dec_chars_digits(v1);
    lemma_dec_chars_digits(v2);
    lemma_dec_chars_digits(v3);
    lemma_dec_chars_digits(v4);
    lemma_dec_chars_no_leading_zero(v1);
    lemma_dec_chars_no_leading_zero(v2);
    lemma_dec_chars_no_leading_zero(v3);
    lemma_dec_chars_no_leading_zero(v4);
    lemma_dec_val_of_dec_chars(v1);
    lemma_dec_val_of_dec_chars(v2);
    lemma_dec_val_of_dec_chars(v3);
    lemma_dec_val_of_dec_chars(v4);
    let l1 = c1.len() as int;
    let l2 = c2.len() as int;
    let l3 = c3.len() as int;
    let l4 = c4.len() as int;
    assert(s == c1 + seq!['.'] + c2 + seq!['.'] + c3 + seq!['.'] + c4);
    assert(!is_digit('.'));
    assert forall|x: int| 0 <= x < s.len() implies is_digit(#[trigger] s[x]) || s[x] == '.' by {
        assert(s[x] == (c1 + seq!['.'] + c2 + seq!['.'] + c3 + seq!['.'] + c4)[x]);
        if x < l1 {
            assert(s[x] == c1[x]);
        } else if x == l1 {
            assert(s[x] == '.');
        } else if x < l1 + 1 + l2 {
            assert(s[x] == c2[x - l1 - 1]);
        } else if x == l1 + 1 + l2 {
            assert(s[x] == '.');
        } else if x < l1 + 1 + l2 + 1 + l3 {
            assert(s[x] == c3[x - l1 - 1 - l2 - 1]);
        } else if x == l1 + 1 + l2 + 1 + l3 {
            assert(s[x] == '.');
        } else {
            assert(s[x] == c4[x - l1 - 1 - l2 - 1 - l3 - 1]);
        }
    }
    assert(s.subrange(0, l1) =~= c1);
    assert(s.subrange(l1 + 1, l1 + 1 + l2) =~= c2);
    assert(s.subrange(l1 + 1 + l2 + 1, l1 + 1 + l2 + 1 + l3) =~= c3);
    assert(s.subrange(l1 + 1 + l2 + 1 + l3 + 1, s.len() as int) =~= c4);
    assert(s[l1] == '.' && s[l1 + 1 + l2] == '.' && s[l1 + 1 + l2 + 1 + l3] == '.');
    lemma_digits_end_exact(s, 0, l1);
    lemma_digits_end_exact(s, l1 + 1, l1 + 1 + l2);
    lemma_digits_end_exact(s, l1 + 1 + l2 + 1, l1 + 1 + l2 + 1 + l3);
    lemma_digits_end_exact(s, l1 + 1 + l2 + 1 + l3 + 1, s.len() as int);
    assert(v1 <= 255 && v2 <= 255 && v3 <= 255 && v4 <= 255) by (nonlinear_arith)
        requires
            v1 == a / 0x1000000 && v2 == ((a / 0x10000) as u32) % 0x100 && v3 == ((a
                / 0x100) as u32) % 0x100 && v4 == a % 0x100,
            a <= 0xFFFFFFFFu32,
    ;
    assert(octet_wf(s, 0, l1));
    assert(octet_wf(s, l1 + 1, l1 + 1 + l2));
    assert(octet_wf(s, l1 + 1 + l2 + 1, l1 + 1 + l2 + 1 + l3));
    assert(octet_wf(s, l1 + 1 + l2 + 1 + l3 + 1, s.len() as int));
    assert(v1 * 0x1000000 + v2 * 0x10000 + v3 * 0x100 + v4 == a) by (nonlinear_arith)
        requires
            v1 == a / 0x1000000 && v2 == ((a / 0x10000) as u32) % 0x100 && v3 == ((a
                / 0x100) as u32) % 0x100 && v4 == a % 0x100,
            a <= 0xFFFFFFFFu32,
    ;
}

// ------------------------------------------------------------------
// IPv6 text, through the ipnetwork crate
// ------------------------------------------------------------------

/// What the `ipnetwork` crate reads out of a piece of IPv6 text: a
/// function of the text alone.
pub uninterp spec fn ipv6_of(s: Seq<char>) -> Option<u128>;

/// The canonical text of an IPv6 address: a function of the value alone.
pub uninterp spec fn ipv6_text_of(a: u128) -> Seq<char>;

/// The characters canonical IPv6 text can hold: lowercase hex digits,
/// colons, and dots (for the embedded-IPv4 forms).
pub open spec fn is_ipv6_text_char(c: char) -> bool {
    is_digit(c) || (97 <= (c as u32) && (c as u32) <= 102) || c == ':' || c == '.'
}

/// Relies on `ipnetwork::Ipv6Network::from_str`: a bare address parses
/// with an implicit full-length prefix, and the network address of the
/// result is the address the text denotes.
#[verifier::external_body]
fn parse_ipv6_str(s: &str) -> (r: Option<u128>)
    ensures
        r == ipv6_of(s@),
{
    match s.parse::<ipnetwork::Ipv6Network>() {
        Ok(n) => {
            let v: u128 = n.ip().into();
            Some(v)
        },
        Err(_) => None,
    }
}

/// Relies on `core::net::Ipv6Addr`'s canonical display form: it is made
/// of lowercase hex digits, colons and dots, always holds a colon, and
/// parses back to the same address.
#[verifier::external_body]
fn ipv6_to_string(a: u128) -> (r: String)
    ensures
        r@ == ipv6_text_of(a),
        ipv6_of(r@) == Some(a),
        r@.len() > 0,
        forall|i: int| 0 <= i < r@.len() ==> is_ipv6_text_char(#[trigger] r@[i]),
        exists|i: int| 0 <= i < r@.len() && r@[i] == ':',
{
    core::net::Ipv6Addr::from(a).to_string()
}

// ------------------------------------------------------------------
// Addresses with their text
// ------------------------------------------------------------------

/// Whether the text holds a colon (the IPv6 marker).
pub open spec fn has_colon(s: Seq<char>) -> bool {
    exists|i: int| 0 <= i < s.len() && s[i] == ':'
}

/// Whether the text holds a slash (the CIDR separator).
pub open spec fn has_slash(s: Seq<char>) -> bool {
    exists|i: int| 0 <= i < s.len() && s[i] == '/'
}

/// What a piece of text denotes as a bare address.
pub open spec fn ip_of(s: Seq<char>) -> Option<IpAddress> {
    if has_colon(s) {
        if has_slash(s) {
            None
        } else {
            match ipv6_of(s) {
                Some(v) => Some(IpAddress::V6(v)),
                None => None,
            }
        }
    } else {
        match parse_ipv4(s) {
            Some(a) => Some(IpAddress::V4(a)),
            None => None,
        }
    }
}

/// The canonical text of an address value.
pub open spec fn ip_chars(a: IpAddress) -> Seq<char> {
    match a {
        IpAddress::V4(v) => ipv4_chars(v),
        IpAddress::V6(v) => ipv6_text_of(v),
    }
}

/// Whether the text holds the character `c`.
fn scan_for(s: &Vec<char>, c: char) -> (r: bool)
    ensures
        r == exists|i: int| 0 <= i < s@.len() && s@[i] == c,
{
    let mut i: usize = 0;
    while i < s.len()
        invariant
            i <= s@.len(),
            forall|k: int| 0 <= k < i ==> s@[k] != c,
        decreases s@.len() - i,
    {
        if s[i] == c {
            return true;
        }
        i = i + 1;
    }
    false
}

/// An IP address: the numeric value beside the text it was read from, so
/// documents print back exactly as they were read.
pub struct Address {
    /// The text the address was read from, or its canonical spelling.
    pub text: String,
    /// The numeric value.
    pub value: IpAddress,
}

impl Address {
    /// The text denotes the value.
    pub open spec fn wf(self) -> bool {
        ip_of(self.text@) == Some(self.value)
    }

    /// Parses an address out of its text.
    pub fn parse(s: &str) -> (r: Option<Address>)
        ensures
            match r {
                Some(ad) => ip_of(s@) == Some(ad.value) && ad.text@ == s@ && ad.wf(),
                None => ip_of(s@) is None,
            },
    {
        let cs = str_to_chars(s);
        if scan_for(&cs, ':') {
            if scan_for(&cs, '/') {
                return None;
            }
            match parse_ipv6_str(s) {
                Some(v) => Some(
                    Address { text: s.to_owned(), value: IpAddress::V6(v) },
                ),
                None => None,
            }
        } else {
            match parse_ipv4_chars(&cs) {
                Some(a) => Some(
                    Address { text: s.to_owned(), value: IpAddress::V4(a) },
                ),
                None => None,
            }
        }
    }

    /// The address with the given value, spelled canonically.
    pub fn from_value(v: IpAddress) -> (r: Address)
        ensures
            r.value == v,
            r.wf(),
            r.text@ == ip_chars(v),
            ip_of(ip_chars(v)) == Some(v),
            !has_slash(r.text@),
            r.text@.len() > 0,
    {
        match v {
            IpAddress::V4(a) => {
                let mut cs: Vec<char> = Vec::new();
                ipv4_to_chars(a, &mut cs);
                let text = chars_to_string(&cs);
                proof {
                    lemma_ipv4_value_round_trip(a);
                    assert((':' as u32) == 58 && ('/' as u32) == 47 && ('.' as u32) == 46);
                    assert(!has_colon(text@)) by {
                        if has_colon(text@) {
                            let i = choose|i: int| 0 <= i < text@.len() && text@[i] == ':';
                            assert(is_digit(text@[i]) || text@[i] == '.');
                        }
                    }
                }
                Address { text, value: v }
            },
            IpAddress::V6(a) => {
                let text = ipv6_to_string(a);
                proof {
                    assert((':' as u32) == 58 && ('/' as u32) == 47);
                    assert(has_colon(text@));
                    assert(!has_slash(text@)) by {
                        if has_slash(text@) {
                            let i = choose|i: int| 0 <= i < text@.len() && text@[i] == '/';
                            assert(is_ipv6_text_char(text@[i]));
                        }
                    }
                }
                Address { text, value: v }
            },
        }
    }

    /// A fresh copy of this address.
    pub fn copied(&self) -> (r: Address)
        ensures
            r == *self,
    {
        Address { text: self.text.clone(), value: self.value }
    }
}

// ------------------------------------------------------------------
// CIDR networks with their text
// ------------------------------------------------------------------

/// The first index at or after `i` that holds `/`, or the length.
pub open spec fn slash_end(s: Seq<char>, i: int) -> int
    decreases s.len() - i when i <= s.len()
{
    if i < s.len() && s[i] != '/' {
        slash_end(s, i + 1)
    } else {
        i
    }
}

pub proof fn lemma_slash_end(s: Seq<char>, i: int)
    requires
        0 <= i <= s.len(),
    ensures
        i <= slash_end(s, i) <= s.len(),
        forall|x: int| i <= x < slash_end(s, i) ==> #[trigger] s[x] != '/',
        slash_end(s, i) < s.len() ==> s[slash_end(s, i)] == '/',
    decreases s.len() - i,
{
    if i < s.len() && s[i] != '/' {
        lemma_slash_end(s, i + 1);
    }
}

/// What a piece of text denotes as a CIDR network: an address, a slash,
/// and a prefix length within the family's bit width, without leading
/// zeroes.
pub open spec fn cidr_of(s: Seq<char>) -> Option<(IpAddress, u8)> {
    let fp = slash_end(s, 0);
    if fp == s.len() {
        None
    } else {
        match ip_of(s.subrange(0, fp)) {
            None => None,
            Some(a) => {
                let p = s.subrange(fp + 1, s.len() as int);
                if p.len() > 0 && all_digits(p) && (p[0] == '0' ==> p.len() == 1) && dec_val(p)
                    <= a.bits() {
                    Some((a, dec_val(p) as u8))
                } else {
                    None
                }
            },
        }
    }
}

/// A CIDR network: the address, the prefix length, and the text they
/// were read from.
pub struct Cidr {
    /// The text the network was read from, or its canonical spelling.
    pub text: String,
    /// The address part.
    pub ip: IpAddress,
    /// The prefix length, at most the family's bit width.
    pub prefix: u8,
}

impl Cidr {
    /// The text denotes the address and prefix.
    pub open spec fn wf(self) -> bool {
        &&& cidr_of(self.text@) == Some((self.ip, self.prefix))
        &&& self.prefix <= self.ip.bits()
    }

    /// Parses a network out of its text.
    #[verifier::rlimit(100)]
    pub fn parse(s: &str) -> (r: Option<Cidr>)
        ensures
            match r {
                Some(c) => cidr_of(s@) == Some((c.ip, c.prefix)) && c.text@ == s@ && c.wf(),
                None => cidr_of(s@) is None,
            },
    {
        let cs = str_to_chars(s);
        let mut fp: usize = 0;
        proof {
            lemma_slash_end(cs@, 0);
        }
        let ghost fpe = slash_end(cs@, 0);
        #[verifier::loop_isolation(false)]
        while fp < cs.len() && cs[fp] != '/'
            invariant
                0 <= fp <= fpe <= cs@.len(),
            decreases cs@.len() - fp,
        {
            proof {
                if fp == fpe {
                    assert(cs@[fpe] == '/');
                }
            }
            fp = fp + 1;
        }
        proof {
            if fp < fpe {
                assert(cs@[fp as int] != '/');
            }
        }
        if fp == cs.len() {
            return None;
        }
        let addr_cs = sub_chars(&cs, 0, fp);
        let addr_str = chars_to_string(&addr_cs);
        let av = if scan_for(&addr_cs, ':') {
            if scan_for(&addr_cs, '/') {
                return None;
            }
            match parse_ipv6_str(addr_str.as_str()) {
                Some(v) => IpAddress::V6(v),
                None => {
                    return None;
                },
            }
        } else {
            match parse_ipv4_chars(&addr_cs) {
                Some(a) => IpAddress::V4(a),
                None => {
                    return None;
                },
            }
        };
        let ghost p = cs@.subrange(fp + 1, cs@.len() as int);
        proof {
            assert forall|x: int| 0 <= x < p.len() implies p[x] == cs@[fp + 1 + x] by {
                assert(cs@.subrange(fp + 1, cs@.len() as int)[x] == cs@[fp + 1 + x]);
            }
        }
        let pv = match parse_u64_digits(cs.as_slice(), fp + 1, cs.len()) {
            Some(x) => x,
            None => {
                proof {
                    if p.len() > 0 && all_digits(p) {
                        crate::text::lemma_dec_val_append(p, Seq::empty());
                    }
                }
                return None;
            },
        };
        let bits: u64 = match av {
            IpAddress::V4(_) => 32,
            IpAddress::V6(_) => 128,
        };
        if pv > bits {
            return None;
        }
        if cs[fp + 1] == '0' && fp + 2 != cs.len() {
            proof {
                assert(p[0] == cs@[fp + 1]);
            }
            return None;
        }
        proof {
            assert(p[0] == cs@[fp + 1]);
        }
        Some(Cidr { text: s.to_owned(), ip: av, prefix: pv as u8 })
    }

    /// The network with the given parts, spelled canonically.
    #[verifier::rlimit(100)]
    pub fn from_parts(ip: IpAddress, prefix: u8) -> (r: Cidr)
        requires
            prefix <= ip.bits(),
        ensures
            r.ip == ip,
            r.prefix == prefix,
            r.wf(),
            r.text@ == ip_chars(ip) + seq!['/'] + dec_chars(prefix as nat),
    {
        let ad = Address::from_value(ip);
        let mut cs = str_to_chars(ad.text.as_str());
        let ghost alen = cs@.len() as int;
        cs.push('/');
        push_u64_digits(prefix as u64, &mut cs);
        let text = chars_to_string(&cs);
        proof {
            let pc = dec_chars(prefix as nat);
            lemma_dec_chars_digits(prefix as nat);
            lemma_dec_chars_no_leading_zero(prefix as nat);
            lemma_dec_val_of_dec_chars(prefix as nat);
            assert(text@ =~= ip_chars(ip) + seq!['/'] + pc);
            assert(('/' as u32) == 47 && (':' as u32) == 58 && ('.' as u32) == 46);
            // the slash stands right after the address text
            assert forall|x: int| 0 <= x < alen implies #[trigger] text@[x] != '/' by {
                assert(text@[x] == ad.text@[x]);
                if text@[x] == '/' {
                    assert(has_slash(ad.text@));
                }
            }
            assert(text@[alen] == '/');
            lemma_slash_end_exact(text@, 0, alen);
            assert(text@.subrange(0, alen) =~= ip_chars(ip));
            let p = text@.subrange(alen + 1, text@.len() as int);
            assert(p =~= pc);
        }
        Cidr { text, ip, prefix }
    }

    /// The canonical text of the address part alone.
    pub fn addr_text(&self) -> (r: String)
        ensures
            r@ == ip_chars(self.ip),
    {
        Address::from_value(self.ip).text
    }

    /// A fresh copy of this network.
    pub fn copied(&self) -> (r: Cidr)
        ensures
            r == *self,
    {
        Cidr { text: self.text.clone(), ip: self.ip, prefix: self.prefix }
    }
}

/// A slash-free run is pinned down by its ends.
proof fn lemma_slash_end_exact(s: Seq<char>, i: int, e: int)
    requires
        0 <= i <= e <= s.len(),
        forall|x: int| i <= x < e ==> #[trigger] s[x] != '/',
        e == s.len() || s[e] == '/',
    ensures
        slash_end(s, i) == e,
    decreases e - i,
{
    if i < e {
        lemma_slash_end_exact(s, i + 1, e);
    }
}


/// The parts of an address, in specification land.
pub ghost struct AddressV {
    pub text: Seq<char>,
    pub value: IpAddress,
}

impl vstd::prelude::DeepView for Address {
    type V = AddressV;

    open spec fn deep_view(&self) -> AddressV {
        AddressV { text: self.text@, value: self.value }
    }
}

/// The parts of a CIDR network, in specification land.
pub ghost struct CidrV {
    pub text: Seq<char>,
    pub ip: IpAddress,
    pub prefix: u8,
}

impl vstd::prelude::DeepView for Cidr {
    type V = CidrV;

    open spec fn deep_view(&self) -> CidrV {
        CidrV { text: self.text@, ip: self.ip, prefix: self.prefix }
    }
}

} // verus!
