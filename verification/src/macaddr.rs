//! MAC addresses, read and written as six colon-separated pairs of
//! hexadecimal digits.

use vstd::prelude::*;

use crate::json::{hex_char, hex_to_char, hex_val, is_hex, lemma_hex_char_val};
use crate::text::{chars_to_string, str_to_chars};

verus! {

/// A MAC address.
#[derive(Clone, Copy, Debug, PartialEq, Eq, Structural)]
pub struct MacAddr {
    pub b0: u8,
    pub b1: u8,
    pub b2: u8,
    pub b3: u8,
    pub b4: u8,
    pub b5: u8,
}

/// The bytes of the address, in order.
pub open spec fn mac_bytes(m: MacAddr) -> Seq<u8> {
    seq![m.b0, m.b1, m.b2, m.b3, m.b4, m.b5]
}

/// The canonical text of one byte: two lowercase hexadecimal digits.
pub open spec fn byte_chars(b: u8) -> Seq<char> {
    seq![hex_char((b / 16) as nat), hex_char((b % 16) as nat)]
}

/// The canonical text of a MAC address.
pub open spec fn mac_chars(m: MacAddr) -> Seq<char> {
    byte_chars(m.b0) + seq![':'] + byte_chars(m.b1) + seq![':'] + byte_chars(m.b2) + seq![':']
        + byte_chars(m.b3) + seq![':'] + byte_chars(m.b4) + seq![':'] + byte_chars(m.b5)
}

/// Parses MAC text: six pairs of hexadecimal digits, either case,
/// separated by colons.
pub open spec fn parse_mac(s: Seq<char>) -> Option<MacAddr> {
    if s.len() == 17 && (forall|k: int| 0 <= k < 6 ==> is_hex(#[trigger] s[3 * k]) && is_hex(
        s[3 * k + 1],
    )) && (forall|k: int| 1 <= k < 6 ==> #[trigger] s[3 * k - 1] == ':') {
        Some(
            MacAddr {
                b0: (hex_val(s[0]) * 16 + hex_val(s[1])) as u8,
                b1: (hex_val(s[3]) * 16 + hex_val(s[4])) as u8,
                b2: (hex_val(s[6]) * 16 + hex_val(s[7])) as u8,
                b3: (hex_val(s[9]) * 16 + hex_val(s[10])) as u8,
                b4: (hex_val(s[12]) * 16 + hex_val(s[13])) as u8,
                b5: (hex_val(s[15]) * 16 + hex_val(s[16])) as u8,
            },
        )
    } else {
        None
    }
}

impl MacAddr {
    /// Parses a MAC address from text.
    #[verifier::rlimit(100)]
    pub fn parse(s: &str) -> (r: Option<MacAddr>)
        ensures
            r == parse_mac(s@),
    {
        let cs = str_to_chars(s);
        if cs.len() != 17 {
            return None;
        }
        let mut bytes: Vec<u8> = Vec::new();
        let mut k: usize = 0;
        #[verifier::loop_isolation(false)]
        while k < 6
            invariant
                k <= 6,
                bytes@.len() == k,
                forall|x: int| 0 <= x < k ==> is_hex(#[trigger] cs@[3 * x]) && is_hex(
                    cs@[3 * x + 1],
                ) && bytes@[x] == (hex_val(cs@[3 * x]) * 16 + hex_val(cs@[3 * x + 1])) as u8,
                forall|x: int| 1 <= x < k ==> #[trigger] cs@[3 * x - 1] == ':',
            decreases 6 - k,
        {
            if k > 0 && cs[3 * k - 1] != ':' {
                return None;
            }
            let h1 = match hexv_pub(cs[3 * k]) {
                Some(v) => v,
                None => {
                    return None;
                },
            };
            let h2 = match hexv_pub(cs[3 * k + 1]) {
                Some(v) => v,
                None => {
                    return None;
                },
            };
            bytes.push((h1 * 16 + h2) as u8);
            k = k + 1;
        }
        let m = MacAddr {
            b0: bytes[0],
            b1: bytes[1],
            b2: bytes[2],
            b3: bytes[3],
            b4: bytes[4],
            b5: bytes[5],
        };
        proof {
            assert forall|x: int| 0 <= x < 6 implies is_hex(#[trigger] cs@[3 * x]) && is_hex(
                cs@[3 * x + 1],
            ) by {
                assert(0 <= x < 6);
            }
            assert(bytes@[0] == (hex_val(cs@[3 * 0int]) * 16 + hex_val(cs@[3 * 0int + 1])) as u8);
            assert(bytes@[1] == (hex_val(cs@[3 * 1int]) * 16 + hex_val(cs@[3 * 1int + 1])) as u8);
            assert(bytes@[2] == (hex_val(cs@[3 * 2int]) * 16 + hex_val(cs@[3 * 2int + 1])) as u8);
            assert(bytes@[3] == (hex_val(cs@[3 * 3int]) * 16 + hex_val(cs@[3 * 3int + 1])) as u8);
            assert(bytes@[4] == (hex_val(cs@[3 * 4int]) * 16 + hex_val(cs@[3 * 4int + 1])) as u8);
            assert(bytes@[5] == (hex_val(cs@[3 * 5int]) * 16 + hex_val(cs@[3 * 5int + 1])) as u8);
            assert(parse_mac(cs@) == Some(m));
        }
        Some(m)
    }

    /// The canonical text of the address: lowercase, colon separated.
    pub fn format(&self) -> (r: String)
        ensures
            r@ == mac_chars(*self),
    {
        let mut out: Vec<char> = Vec::new();
        push_byte(self.b0, &mut out);
        out.push(':');
        push_byte(self.b1, &mut out);
        out.push(':');
        push_byte(self.b2, &mut out);
        out.push(':');
        push_byte(self.b3, &mut out);
        out.push(':');
        push_byte(self.b4, &mut out);
        out.push(':');
        push_byte(self.b5, &mut out);
        proof {
            assert(out@ =~= mac_chars(*self));
        }
        chars_to_string(&out)
    }

    /// The six bytes of the address.
    pub fn bytes(&self) -> (r: Vec<u8>)
        ensures
            r@ == mac_bytes(*self),
    {
        let mut v: Vec<u8> = Vec::new();
        v.push(self.b0);
        v.push(self.b1);
        v.push(self.b2);
        v.push(self.b3);
        v.push(self.b4);
        v.push(self.b5);
        proof {
            assert(v@ =~= mac_bytes(*self));
        }
        v
    }

    /// The address with the given bytes.
    pub fn from_bytes(b: &Vec<u8>) -> (r: Option<MacAddr>)
        ensures
            b@.len() == 6 ==> (r matches Some(m) && mac_bytes(m) == b@),
            b@.len() != 6 ==> r is None,
    {
        if b.len() != 6 {
            return None;
        }
        let m = MacAddr { b0: b[0], b1: b[1], b2: b[2], b3: b[3], b4: b[4], b5: b[5] };
        proof {
            assert(mac_bytes(m) =~= b@);
        }
        Some(m)
    }
}

/// The numeric value of a hexadecimal digit character, if it is one.
pub fn hexv_pub(c: char) -> (r: Option<u32>)
    ensures
        r is Some <==> is_hex(c),
        match r {
            Some(v) => v == hex_val(c) && v < 16,
            None => true,
        },
{
    let u = c as u32;
    if 48 <= u && u <= 57 {
        Some(u - 48)
    } else if 97 <= u && u <= 102 {
        Some(u - 87)
    } else if 65 <= u && u <= 70 {
        Some(u - 55)
    } else {
        None
    }
}

/// Appends the canonical two-digit text of one byte.
fn push_byte(b: u8, out: &mut Vec<char>)
    ensures
        final(out)@ == old(out)@ + byte_chars(b),
{
    out.push(hex_to_char((b / 16) as u64));
    out.push(hex_to_char((b % 16) as u64));
    proof {
        assert(out@ =~= old(out)@ + byte_chars(b));
    }
}

/// Parsing the canonical text of a MAC address yields the address back.
pub proof fn lemma_mac_value_round_trip(m: MacAddr)
    ensures
        parse_mac(mac_chars(m)) == Some(m),
{
    let s = mac_chars(m);
    lemma_hex_char_val((m.b0 / 16) as nat);
    lemma_hex_char_val((m.b0 % 16) as nat);
    lemma_hex_char_val((m.b1 / 16) as nat);
    lemma_hex_char_val((m.b1 % 16) as nat);
    lemma_hex_char_val((m.b2 / 16) as nat);
    lemma_hex_char_val((m.b2 % 16) as nat);
    lemma_hex_char_val((m.b3 / 16) as nat);
    lemma_hex_char_val((m.b3 % 16) as nat);
    lemma_hex_char_val((m.b4 / 16) as nat);
    lemma_hex_char_val((m.b4 % 16) as nat);
    lemma_hex_char_val((m.b5 / 16) as nat);
    lemma_hex_char_val((m.b5 % 16) as nat);
    assert(s.len() == 17);
    assert(s[0] == hex_char((m.b0 / 16) as nat) && s[1] == hex_char((m.b0 % 16) as nat));
    assert(s[2] == ':' && s[5] == ':' && s[8] == ':' && s[11] == ':' && s[14] == ':');
    assert(s[3] == hex_char((m.b1 / 16) as nat) && s[4] == hex_char((m.b1 % 16) as nat));
    assert(s[6] == hex_char((m.b2 / 16) as nat) && s[7] == hex_char((m.b2 % 16) as nat));
    assert(s[9] == hex_char((m.b3 / 16) as nat) && s[10] == hex_char((m.b3 % 16) as nat));
    assert(s[12] == hex_char((m.b4 / 16) as nat) && s[13] == hex_char((m.b4 % 16) as nat));
    assert(s[15] == hex_char((m.b5 / 16) as nat) && s[16] == hex_char((m.b5 % 16) as nat));
    assert forall|k: int| 0 <= k < 6 implies is_hex(#[trigger] s[3 * k]) && is_hex(
        s[3 * k + 1],
    ) by {
        assert(0 <= k < 6);
    }
    assert forall|k: int| 1 <= k < 6 implies #[trigger] s[3 * k - 1] == ':' by {
        assert(1 <= k < 6);
    }
    let p = parse_mac(s).unwrap();
    assert(hex_val(s[0]) * 16 + hex_val(s[1]) == m.b0);
    assert(hex_val(s[3]) * 16 + hex_val(s[4]) == m.b1);
    assert(hex_val(s[6]) * 16 + hex_val(s[7]) == m.b2);
    assert(hex_val(s[9]) * 16 + hex_val(s[10]) == m.b3);
    assert(hex_val(s[12]) * 16 + hex_val(s[13]) == m.b4);
    assert(hex_val(s[15]) * 16 + hex_val(s[16]) == m.b5);
}

} // verus!
