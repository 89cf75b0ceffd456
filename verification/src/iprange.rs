//! IP ranges: a subnet with optional bounds and gateway, and the free
//! addresses it offers.
//!
//! The free addresses of a range are the addresses of the subnet, clipped
//! to `[range_start, range_end]`, without the subnet's network address,
//! without its broadcast address (IPv4), and without the gateway. They are
//! handed out in ascending order.

use vstd::prelude::*;
use vstd::arithmetic::power2::{
    lemma2_to64, lemma2_to64_rest, lemma_pow2_adds, lemma_pow2_pos, pow2,
};

use crate::ip::{Address, Cidr, IpAddress};

verus! {

/// The number of host bits of a network.
pub open spec fn host_bits(c: Cidr) -> nat {
    (c.ip.bits() - c.prefix) as nat
}

/// The first address value of a network.
pub open spec fn net_base(c: Cidr) -> int {
    c.ip.val() - (c.ip.val() as nat % pow2(host_bits(c)))
}

/// The last address value of a network.
pub open spec fn net_last(c: Cidr) -> int {
    net_base(c) + pow2(host_bits(c)) - 1
}

/// Whether a value lies inside a network.
pub open spec fn in_net(c: Cidr, v: int) -> bool {
    net_base(c) <= v <= net_last(c)
}

/// Whether an address lies inside a network: same family, value in range.
pub open spec fn cidr_contains(c: Cidr, a: IpAddress) -> bool {
    a.same_family(c.ip) && in_net(c, a.val() as int)
}

/// Two to the power `k`, executably.
pub fn pow2_u128(k: usize) -> (r: u128)
    requires
        k <= 127,
    ensures
        r == pow2(k as nat),
{
    proof {
        lemma2_to64();
        vstd::arithmetic::power2::lemma_pow2_strictly_increases(0, 127);
    }
    let mut r: u128 = 1;
    let mut i: usize = 0;
    while i < k
        invariant
            i <= k <= 127,
            r == pow2(i as nat),
            r <= pow2(127),
        decreases k - i,
    {
        proof {
            lemma_pow2_adds(i as nat, 1);
            lemma2_to64();
            assert(pow2(1) == 2);
            assert(pow2((i + 1) as nat) <= pow2(127)) by {
                if i + 1 < 127 {
                    vstd::arithmetic::power2::lemma_pow2_strictly_increases(
                        (i + 1) as nat,
                        127,
                    );
                }
            }
            assert(pow2(127) < u128::MAX) by {
                lemma_pow2_adds(64, 63);
                lemma2_to64_rest();
                lemma2_to64();
                assert(pow2(64) == 0x10000000000000000);
                assert(pow2(63) == 0x8000000000000000);
            }
        }
        r = r * 2;
        i = i + 1;
    }
    r
}

/// The value of two to the bit width of the family.
pub open spec fn family_size(a: IpAddress) -> int {
    pow2(a.bits()) as int
}

/// An address value is below the family's size.
pub proof fn lemma_val_bound(a: IpAddress)
    ensures
        0 <= a.val() < family_size(a),
{
    lemma2_to64_rest();
    lemma_pow2_adds(64, 64);
    assert(pow2(64) == 0x10000000000000000);
    assert(pow2(32) == 0x100000000) by {
        lemma2_to64();
    }
    assert(pow2(128) == 0x10000000000000000 * 0x10000000000000000);
}

/// The first and last address values of a network.
#[verifier::rlimit(100)]
pub fn net_range(c: &Cidr) -> (r: (u128, u128))
    requires
        c.prefix <= c.ip.bits(),
    ensures
        r.0 == net_base(*c),
        r.1 == net_last(*c),
        r.0 <= c.ip.val() <= r.1,
        r.1 < family_size(c.ip),
{
    let bits: usize = match c.ip {
        IpAddress::V4(_) => 32,
        IpAddress::V6(_) => 128,
    };
    let h: usize = bits - (c.prefix as usize);
    let v = c.ip.value();
    proof {
        lemma_val_bound(c.ip);
    }
    if h == 128 {
        proof {
            lemma2_to64_rest();
            lemma_pow2_adds(64, 64);
            assert(pow2(64) == 0x10000000000000000);
            assert(pow2(128) == 0x10000000000000000 * 0x10000000000000000);
            assert(v < pow2(128));
            assert(v as nat % pow2(128) == v) by (nonlinear_arith)
                requires
                    0 <= v < pow2(128),
                    pow2(128) > 0,
            ;
        }
        (0, u128::MAX)
    } else {
        let m = pow2_u128(h);
        proof {
            lemma_pow2_pos(h as nat);
        }
        proof {
            vstd::arithmetic::div_mod::lemma_fundamental_div_mod(v as int, m as int);
            assert(v % m <= v) by (nonlinear_arith)
                requires
                    m > 0,
                    v >= 0,
            ;
        }
        let base = v - v % m;
        proof {
            let q = (v as int) / (m as int);
            let p = pow2((c.prefix) as nat) as int;
            lemma_pow2_adds(c.prefix as nat, h as nat);
            assert(p * m == family_size(c.ip));
            vstd::arithmetic::div_mod::lemma_fundamental_div_mod(v as int, m as int);
            assert(v == m * q + v % m);
            assert(base == m * q);
            assert(q >= 0) by (nonlinear_arith)
                requires
                    m > 0,
                    m * q == base,
                    base >= 0,
            ;
            assert(q < p) by (nonlinear_arith)
                requires
                    m > 0,
                    m * q <= v,
                    v < p * m,
                    q >= 0,
            ;
            assert(m * (q + 1) <= m * p) by (nonlinear_arith)
                requires
                    q + 1 <= p,
                    m > 0,
            ;
            assert(base + m <= family_size(c.ip)) by (nonlinear_arith)
                requires
                    base == m * q,
                    m * (q + 1) <= m * p,
                    p * m == family_size(c.ip),
            ;
            assert(family_size(c.ip) <= u128::MAX + 1) by {
                lemma_val_bound(c.ip);
                lemma2_to64_rest();
                lemma_pow2_adds(64, 64);
                assert(pow2(64) == 0x10000000000000000);
                assert(pow2(128) == 0x10000000000000000 * 0x10000000000000000);
                if c.ip is V4 {
                    lemma2_to64();
                    vstd::arithmetic::power2::lemma_pow2_strictly_increases(32, 128);
                }
            }
            assert(v % m < m) by (nonlinear_arith)
                requires
                    m > 0,
            ;
        }
        (base, base + (m - 1))
    }
}

/// A range of IPs, usable for defining an IP pool: a subnet, optionally
/// clipped by an inclusive start and end, with an optional gateway.
pub struct IpRange {
    /// The subnet for the range.
    pub subnet: Cidr,
    /// The start of the available range within the subnet, inclusive.
    pub range_start: Option<Address>,
    /// The end of the available range within the subnet, inclusive.
    pub range_end: Option<Address>,
    /// The gateway of the range.
    pub gateway: Option<Address>,
}

impl IpRange {
    /// Every part parses, and the bounds and gateway match the subnet's
    /// family.
    pub open spec fn wf(self) -> bool {
        &&& self.subnet.wf()
        &&& match self.range_start {
            Some(a) => a.wf() && a.value.same_family(self.subnet.ip),
            None => true,
        }
        &&& match self.range_end {
            Some(a) => a.wf() && a.value.same_family(self.subnet.ip),
            None => true,
        }
        &&& match self.gateway {
            Some(a) => a.wf() && a.value.same_family(self.subnet.ip),
            None => true,
        }
    }

    /// Whether the subnet's network and broadcast addresses are withheld:
    /// they are, unless the subnet is a point-to-point link or a single
    /// host.
    pub open spec fn withholds_edges(self) -> bool {
        host_bits(self.subnet) >= 2
    }

    /// The first candidate value: the subnet's first usable address,
    /// or `range_start` if that is higher.
    pub open spec fn lo(self) -> int {
        let first = net_base(self.subnet) + if self.withholds_edges() {
            1int
        } else {
            0int
        };
        match self.range_start {
            Some(a) => if a.value.val() > first {
                a.value.val() as int
            } else {
                first
            },
            None => first,
        }
    }

    /// The last candidate value: the subnet's last usable address, or
    /// `range_end` if that is lower.
    pub open spec fn hi(self) -> int {
        let last = net_last(self.subnet) - if self.subnet.ip is V4 && self.withholds_edges() {
            1int
        } else {
            0int
        };
        match self.range_end {
            Some(a) => if (a.value.val() as int) < last {
                a.value.val() as int
            } else {
                last
            },
            None => last,
        }
    }

    /// The gateway's value, if a gateway is set.
    pub open spec fn gw(self) -> Option<int> {
        match self.gateway {
            Some(a) => Some(a.value.val() as int),
            None => None,
        }
    }

    /// Whether `v` is one of the range's free values.
    pub open spec fn is_free(self, v: int) -> bool {
        self.lo() <= v <= self.hi() && self.gw() != Some(v)
    }

    /// The range's free values, in ascending order.
    pub open spec fn free_values(self) -> Seq<int> {
        free_seq(self.lo(), self.hi(), self.gw())
    }
}

/// The values of `[lo, hi]` except `g`, ascending.
pub open spec fn free_seq(lo: int, hi: int, g: Option<int>) -> Seq<int>
    decreases hi + 1 - lo,
{
    if lo > hi {
        Seq::empty()
    } else if g == Some(lo) {
        free_seq(lo + 1, hi, g)
    } else {
        seq![lo] + free_seq(lo + 1, hi, g)
    }
}

/// What `free_seq` holds: every value of `[lo, hi]` except `g`, each
/// exactly once, in ascending order; its length is the size of the
/// interval, less one if the gateway lies inside it.
pub proof fn lemma_free_seq(lo: int, hi: int, g: Option<int>)
    requires
        lo <= hi + 1,
    ensures
        free_seq(lo, hi, g).len() == (hi + 1 - lo) - (if g matches Some(v) && lo <= v <= hi {
            1int
        } else {
            0int
        }),
        forall|k: int| 0 <= k < free_seq(lo, hi, g).len() ==> lo <= #[trigger] free_seq(
            lo,
            hi,
            g,
        )[k] <= hi && g != Some(free_seq(lo, hi, g)[k]),
        forall|k1: int, k2: int| 0 <= k1 < k2 < free_seq(lo, hi, g).len() ==> #[trigger] free_seq(
            lo,
            hi,
            g,
        )[k1] < #[trigger] free_seq(lo, hi, g)[k2],
        forall|v: int| lo <= v <= hi && g != Some(v) ==> free_seq(lo, hi, g).contains(v),
    decreases hi + 1 - lo,
{
    if lo > hi {
    } else {
        lemma_free_seq(lo + 1, hi, g);
        let rest = free_seq(lo + 1, hi, g);
        if g == Some(lo) {
            assert forall|v: int| lo <= v <= hi && g != Some(v) implies free_seq(
                lo,
                hi,
                g,
            ).contains(v) by {
                assert(rest.contains(v));
            }
        } else {
            let s = free_seq(lo, hi, g);
            assert(s == seq![lo] + rest);
            assert forall|v: int| lo <= v <= hi && g != Some(v) implies s.contains(v) by {
                if v == lo {
                    assert(s[0] == lo);
                } else {
                    assert(rest.contains(v));
                    let k = choose|k: int| 0 <= k < rest.len() && rest[k] == v;
                    assert(s[k + 1] == v);
                }
            }
        }
    }
}

/// The free addresses a range yields lie between its bounds, omit the
/// gateway exactly, and number the size of the clipped range less the
/// gateway if it lies inside; they are ascending, so no address is
/// yielded twice.
pub proof fn lemma_range_free_values(r: IpRange)
    requires
        r.lo() <= r.hi() + 1,
    ensures
        r.free_values().len() == (r.hi() + 1 - r.lo()) - (
        if r.gw() matches Some(v) && r.lo() <= v <= r.hi() {
            1int
        } else {
            0int
        }),
        forall|k: int| 0 <= k < r.free_values().len() ==> r.is_free(
            #[trigger] r.free_values()[k],
        ),
        forall|k1: int, k2: int| 0 <= k1 < k2 < r.free_values().len()
            ==> #[trigger] r.free_values()[k1] < #[trigger] r.free_values()[k2],
        forall|v: int| r.is_free(v) ==> r.free_values().contains(v),
{
    lemma_free_seq(r.lo(), r.hi(), r.gw());
}


/// The address of the subnet's family whose value is `v`.
pub open spec fn fam_addr(is4: bool, v: int) -> IpAddress {
    if is4 {
        IpAddress::V4(v as u32)
    } else {
        IpAddress::V6(v as u128)
    }
}

/// Whether the list holds the address.
pub open spec fn taken_has(s: Seq<IpAddress>, a: IpAddress) -> bool {
    exists|i: int| 0 <= i < s.len() && s[i] == a
}

/// Whether an address lies inside a network.
pub fn cidr_contains_exec(c: &Cidr, a: &IpAddress) -> (r: bool)
    requires
        c.prefix <= c.ip.bits(),
    ensures
        r == cidr_contains(*c, *a),
{
    let fam_ok = match (c.ip, a) {
        (IpAddress::V4(_), IpAddress::V4(_)) => true,
        (IpAddress::V6(_), IpAddress::V6(_)) => true,
        _ => false,
    };
    if !fam_ok {
        return false;
    }
    let (base, last) = net_range(c);
    let v = a.value();
    base <= v && v <= last
}

impl IpRange {
    /// The first and last candidate values, as machine integers.
    #[verifier::rlimit(100)]
    pub fn bounds(&self) -> (r: (u128, u128))
        requires
            self.subnet.prefix <= self.subnet.ip.bits(),
        ensures
            r.0 == self.lo(),
            r.1 as int == self.hi(),
            (r.1 as int) < family_size(self.subnet.ip),
    {
        let (base, last) = net_range(&self.subnet);
        let withhold = match self.subnet.ip {
            IpAddress::V4(_) => self.subnet.prefix <= 30,
            IpAddress::V6(_) => self.subnet.prefix <= 126,
        };
        proof {
            if withhold {
                vstd::arithmetic::power2::lemma_pow2_strictly_increases(1, host_bits(self.subnet));
                lemma2_to64();
            }
        }
        let first = if withhold {
            base + 1
        } else {
            base
        };
        let last_use = if withhold {
            match self.subnet.ip {
                IpAddress::V4(_) => last - 1,
                IpAddress::V6(_) => last,
            }
        } else {
            last
        };
        let lo = match &self.range_start {
            Some(a) => {
                let sv = a.value.value();
                if sv > first {
                    sv
                } else {
                    first
                }
            },
            None => first,
        };
        let hi = match &self.range_end {
            Some(a) => {
                let ev = a.value.value();
                if ev < last_use {
                    ev
                } else {
                    last_use
                }
            },
            None => last_use,
        };
        proof {
            lemma_val_bound(self.subnet.ip);
        }
        (lo, hi)
    }

    /// The first free value not yet taken, walking the range upward.
    ///
    /// Returns the address for that value, or `None` when every free
    /// value of the range is already taken.
    #[verifier::loop_isolation(false)]
    #[verifier::rlimit(100)]
    pub fn first_free(&self, taken: &Vec<IpAddress>) -> (r: Option<IpAddress>)
        requires
            self.subnet.prefix <= self.subnet.ip.bits(),
        ensures
            match r {
                Some(a) => {
                    &&& a.same_family(self.subnet.ip)
                    &&& self.is_free(a.val() as int)
                    &&& !taken_has(taken@, a)
                    &&& a == fam_addr(self.subnet.ip is V4, a.val() as int)
                    &&& forall|v: int| self.is_free(v) && v < a.val() ==> taken_has(
                        taken@,
                        fam_addr(self.subnet.ip is V4, v),
                    )
                },
                None => forall|v: int| self.is_free(v) ==> taken_has(
                    taken@,
                    fam_addr(self.subnet.ip is V4, v),
                ),
            },
    {
        let (lo, hi) = self.bounds();
        if hi < lo {
            return None;
        }
        proof {
            lemma2_to64();
        }
        let is4 = match self.subnet.ip {
            IpAddress::V4(_) => true,
            IpAddress::V6(_) => false,
        };
        let gw: Option<u128> = match &self.gateway {
            Some(a) => Some(a.value.value()),
            None => None,
        };
        let mut cur: u128 = lo;
        loop
            invariant
                lo <= cur <= hi,
                hi as int == self.hi(),
                forall|v: int| self.is_free(v) && v < cur ==> taken_has(
                    taken@,
                    fam_addr(is4, v),
                ),
            decreases hi - cur,
        {
            proof {
                lemma2_to64();
            }
            let skip_gw = match gw {
                Some(g) => g == cur,
                None => false,
            };
            if !skip_gw {
                let cand = self.subnet.ip.with_val(cur);
                proof {
                    assert(cand == fam_addr(is4, cur as int));
                }
                let mut found = false;
                let mut i: usize = 0;
                while i < taken.len()
                    invariant
                        i <= taken@.len(),
                        found == exists|k: int| 0 <= k < i && taken@[k] == cand,
                    decreases taken@.len() - i,
                {
                    let t = taken[i];
                    let same = match (t, cand) {
                        (IpAddress::V4(x), IpAddress::V4(y)) => x == y,
                        (IpAddress::V6(x), IpAddress::V6(y)) => x == y,
                        _ => false,
                    };
                    if same {
                        found = true;
                    }
                    i = i + 1;
                }
                if !found {
                    return Some(cand);
                }
            }
            if cur == hi {
                return None;
            }
            cur = cur + 1;
        }
    }

    /// Every free address of the range, in the order they are handed
    /// out, each with the subnet's prefix length.
    #[verifier::loop_isolation(false)]
    #[verifier::rlimit(100)]
    pub fn free_ips(&self) -> (r: Vec<Cidr>)
        requires
            self.subnet.prefix <= self.subnet.ip.bits(),
        ensures
            r@.len() == self.free_values().len(),
            forall|k: int| 0 <= k < r@.len() ==> (#[trigger] r@[k]).ip == fam_addr(
                self.subnet.ip is V4,
                self.free_values()[k],
            ) && r@[k].prefix == self.subnet.prefix && r@[k].wf(),
    {
        let (lo, hi) = self.bounds();
        let is4 = match self.subnet.ip {
            IpAddress::V4(_) => true,
            IpAddress::V6(_) => false,
        };
        let gw: Option<u128> = match &self.gateway {
            Some(a) => Some(a.value.value()),
            None => None,
        };
        let mut out: Vec<Cidr> = Vec::new();
        if hi < lo {
            return out;
        }
        let ghost gwi: Option<int> = match gw {
            Some(g) => Some(g as int),
            None => None,
        };
        proof {
            assert(gwi == self.gw());
            assert(self.free_values() =~= Seq::<int>::empty() + free_seq(lo as int, hi as int, gwi));
        }
        let mut cur: u128 = lo;
        let ghost mut vals: Seq<int> = Seq::empty();
        loop
            invariant
                lo <= cur <= hi,
                hi as int == self.hi(),
                out@.len() == vals.len(),
                forall|k: int| 0 <= k < out@.len() ==> (#[trigger] out@[k]).ip == fam_addr(
                    is4,
                    vals[k],
                ) && out@[k].prefix == self.subnet.prefix && out@[k].wf(),
                self.free_values() == vals + free_seq(cur as int, hi as int, gwi),
            decreases hi - cur,
        {
            proof {
                lemma2_to64();
            }
            let skip_gw = match gw {
                Some(g) => g == cur,
                None => false,
            };
            if !skip_gw {
                let cand = self.subnet.ip.with_val(cur);
                let c = Cidr::from_parts(cand, self.subnet.prefix);
                out.push(c);
                proof {
                    vals = vals.push(cur as int);
                    assert(free_seq(cur as int, hi as int, gwi) == seq![cur as int] + free_seq(
                        cur + 1,
                        hi as int,
                        gwi,
                    ));
                    assert(vals.drop_last() + (seq![cur as int] + free_seq(cur + 1, hi as int, gwi))
                        =~= vals + free_seq(cur + 1, hi as int, gwi));
                }
            } else {
                proof {
                    assert(free_seq(cur as int, hi as int, gwi) == free_seq(
                        cur + 1,
                        hi as int,
                        gwi,
                    ));
                }
            }
            if cur == hi {
                proof {
                    assert(free_seq(cur + 1, hi as int, gwi) =~= Seq::<int>::empty());
                    assert(self.free_values() =~= vals);
                }
                return out;
            }
            cur = cur + 1;
        }
    }
}

} // verus!
