//! The host network mutator's decisions: which neighbour and route
//! entries to apply, which installed entries a delete matches, and how
//! the reply is amended.
//!
//! The netlink calls themselves stand outside; this module decides, for
//! every directive and every entry the kernel reports, exactly what to
//! do.

use vstd::prelude::*;

use crate::error::CniError;
use crate::ip::{Address, Cidr, IpAddress};
use crate::json::{
    json_as_obj, json_as_str, lemma_deep_arr, lemma_deep_obj, obj_get, obj_get_v, JsonV,
    JsonValue,
};
use crate::macaddr::{mac_bytes, MacAddr};
use crate::Command;

verus! {

/// A neighbour directive's link-layer part: a hardware address, or the
/// name of a device whose address is to be used.
pub enum MacOrDevice {
    /// A hardware address.
    Mac(MacAddr),
    /// A device name, resolved to that device's address.
    Device(String),
}

/// The link-layer part, in specification land.
pub ghost enum MacOrDeviceV {
    Mac(MacAddr),
    Device(Seq<char>),
}

impl vstd::prelude::DeepView for MacOrDevice {
    type V = MacOrDeviceV;

    open spec fn deep_view(&self) -> MacOrDeviceV {
        match self {
            MacOrDevice::Mac(m) => MacOrDeviceV::Mac(*m),
            MacOrDevice::Device(d) => MacOrDeviceV::Device(d@),
        }
    }
}

/// What a piece of text denotes as a link-layer part: a hardware
/// address where it parses as one, the device name otherwise.
pub open spec fn mac_or_device_of(t: Seq<char>) -> MacOrDeviceV {
    match crate::macaddr::parse_mac(t) {
        Some(m) => MacOrDeviceV::Mac(m),
        None => MacOrDeviceV::Device(t),
    }
}

/// The text of a link-layer part: the canonical address spelling, or
/// the device name.
pub open spec fn mac_or_device_chars(v: MacOrDeviceV) -> Seq<char> {
    match v {
        MacOrDeviceV::Mac(m) => crate::macaddr::mac_chars(m),
        MacOrDeviceV::Device(d) => d,
    }
}

impl MacOrDevice {
    /// The hardware address, if this is one.
    pub fn as_mac(&self) -> (r: Option<&MacAddr>)
        ensures
            match r {
                Some(m) => *self matches MacOrDevice::Mac(x) && x == *m,
                None => *self is Device,
            },
    {
        match self {
            MacOrDevice::Mac(m) => Some(m),
            MacOrDevice::Device(_) => None,
        }
    }

    /// What a document denotes: a hardware address where the text parses
    /// as one, the device name otherwise.
    pub fn from_json(j: &JsonValue) -> (r: Option<MacOrDevice>)
        ensures
            match r {
                Some(v) => j.deep_view() matches JsonV::Str(t) && v.deep_view()
                    == mac_or_device_of(t),
                None => !(j.deep_view() is Str),
            },
    {
        match json_as_str(j) {
            Some(t) => match MacAddr::parse(t.as_str()) {
                Some(m) => Some(MacOrDevice::Mac(m)),
                None => Some(MacOrDevice::Device(t.clone())),
            },
            None => None,
        }
    }

    /// The document of this value: the canonical address text, or the
    /// device name.
    pub fn to_json(&self) -> (r: JsonValue)
        ensures
            r.deep_view() == JsonV::Str(mac_or_device_chars(self.deep_view())),
    {
        match self {
            MacOrDevice::Mac(m) => JsonValue::Str(m.format()),
            MacOrDevice::Device(d) => JsonValue::Str(d.clone()),
        }
    }
}

/// A neighbour directive: a static ARP or NDP entry for an address on a
/// device.
pub struct Neigh {
    /// The IP address of the entry.
    pub address: Address,
    /// The device the entry is for.
    pub device: String,
    /// The link-layer address; required unless the command is DEL.
    pub lladdr: Option<MacOrDevice>,
}

/// The parts of a neighbour directive, in specification land.
pub ghost struct NeighV {
    pub address: crate::ip::AddressV,
    pub device: Seq<char>,
    pub lladdr: Option<MacOrDeviceV>,
}

impl vstd::prelude::DeepView for Neigh {
    type V = NeighV;

    open spec fn deep_view(&self) -> NeighV {
        NeighV {
            address: self.address.deep_view(),
            device: self.device@,
            lladdr: match self.lladdr {
                Some(m) => Some(m.deep_view()),
                None => None,
            },
        }
    }
}

/// What a document denotes as a neighbour directive: an address, a
/// device, and an optional link-layer part. Unknown members are
/// ignored.
pub open spec fn neigh_of_jv(j: JsonV) -> Option<NeighV> {
    match j {
        JsonV::Obj(o) => {
            let at = obj_get_v(o, "address"@);
            let dev = obj_get_v(o, "device"@);
            if !(at matches Some(JsonV::Str(t)) && crate::ip::ip_of(t) is Some) {
                None
            } else if !(dev matches Some(JsonV::Str(_))) {
                None
            } else {
                let text = at->Some_0->Str_0;
                let ll = match obj_get_v(o, "lladdr"@) {
                    None => Some(None),
                    Some(JsonV::Str(lt)) => Some(Some(mac_or_device_of(lt))),
                    Some(_) => None,
                };
                match ll {
                    None => None,
                    Some(lladdr) => Some(
                        NeighV {
                            address: crate::ip::AddressV {
                                text,
                                value: crate::ip::ip_of(text).unwrap(),
                            },
                            device: dev->Some_0->Str_0,
                            lladdr,
                        },
                    ),
                }
            }
        },
        _ => None,
    }
}

/// The document of a neighbour directive.
pub open spec fn neigh_jv(n: NeighV) -> JsonV {
    JsonV::Obj(
        seq![
            ("address"@, JsonV::Str(n.address.text)),
            ("device"@, JsonV::Str(n.device)),
        ] + (match n.lladdr {
            Some(v) => seq![("lladdr"@, JsonV::Str(mac_or_device_chars(v)))],
            None => Seq::empty(),
        }),
    )
}

impl Neigh {
    /// Checks the directive against the command: everything but DEL
    /// needs a link-layer address.
    pub fn validate(self, command: Command) -> (r: Result<Neigh, CniError>)
        ensures
            match r {
                Ok(n) => n == self && (self.lladdr is Some || command is Del),
                Err(e) => self.lladdr is None && !(command is Del) && e is Generic,
            },
    {
        if self.lladdr.is_none() && !matches!(command, Command::Del) {
            Err(CniError::Generic("lladdr is required when command is not DEL".to_owned()))
        } else {
            Ok(self)
        }
    }

    /// Reads a neighbour directive out of a document.
    pub fn from_json(j: &JsonValue) -> (r: Option<Neigh>)
        ensures
            match r {
                Some(n) => neigh_of_jv(j.deep_view()) == Some(n.deep_view()) && n.address.wf(),
                None => neigh_of_jv(j.deep_view()) is None,
            },
    {
        let o = match json_as_obj(j) {
            Some(o) => o,
            None => {
                return None;
            },
        };
        let address = match obj_get(o, "address") {
            Some(v) => match json_as_str(v) {
                Some(t) => match Address::parse(t.as_str()) {
                    Some(a) => a,
                    None => {
                        return None;
                    },
                },
                None => {
                    return None;
                },
            },
            None => {
                return None;
            },
        };
        let device = match obj_get(o, "device") {
            Some(v) => match json_as_str(v) {
                Some(t) => t.clone(),
                None => {
                    return None;
                },
            },
            None => {
                return None;
            },
        };
        let lladdr = match obj_get(o, "lladdr") {
            Some(v) => match MacOrDevice::from_json(v) {
                Some(m) => Some(m),
                None => {
                    return None;
                },
            },
            None => None,
        };
        Some(Neigh { address, device, lladdr })
    }

    /// The document of this directive.
    pub fn to_json(&self) -> (r: JsonValue)
        ensures
            r.deep_view() == neigh_jv(self.deep_view()),
    {
        let mut members: Vec<(String, JsonValue)> = Vec::new();
        members.push(("address".to_owned(), JsonValue::Str(self.address.text.clone())));
        members.push(("device".to_owned(), JsonValue::Str(self.device.clone())));
        match &self.lladdr {
            Some(m) => {
                members.push(("lladdr".to_owned(), m.to_json()));
            },
            None => {},
        }
        let r = JsonValue::Obj(members);
        proof {
            crate::reply::lemma_deep_obj_members(r);
            lemma_deep_obj(members@);
            assert(r.deep_view() matches JsonV::Obj(o) && o =~= (
            match neigh_jv(self.deep_view()) {
                JsonV::Obj(o2) => o2,
                _ => Seq::empty(),
            }));
        }
        r
    }

    /// Whether an installed neighbour entry, as the kernel reports it,
    /// is one this directive asks to delete: same interface, same
    /// destination, and — when the directive gives a link-layer address —
    /// the same hardware address. A device-named `lladdr` must be
    /// resolved to that device's address first; `resolved_lladdr` is the
    /// result of that resolution.
    pub fn matches_installed(
        &self,
        resolved_lladdr: &Option<MacAddr>,
        link: u32,
        cand_ifindex: u32,
        cand_lladdr: &Option<Vec<u8>>,
        cand_dest: &Option<Vec<u8>>,
    ) -> (r: bool)
        ensures
            r == ({
                &&& cand_ifindex == link
                &&& (match (resolved_lladdr, cand_lladdr) {
                    (Some(m), Some(ll)) => mac_bytes(*m) == ll@,
                    (Some(_), None) => false,
                    _ => true,
                })
                &&& (cand_dest matches Some(d) && d@ == addr_octets(self.address.value))
            }),
    {
        if cand_ifindex != link {
            return false;
        }
        match (resolved_lladdr, cand_lladdr) {
            (Some(m), Some(ll)) => {
                let mb = m.bytes();
                if !bytes_eq(&mb, ll) {
                    return false;
                }
            },
            (Some(_), None) => {
                return false;
            },
            _ => {},
        }
        match cand_dest {
            Some(d) => {
                let mine = address_octets(&self.address.value);
                bytes_eq(&mine, d)
            },
            None => false,
        }
    }
}

/// The network-order bytes of an address value.
pub open spec fn addr_octets(a: IpAddress) -> Seq<u8>
    decreases a,
{
    match a {
        IpAddress::V4(v) => seq![
            (v / 0x1000000) as u8,
            ((v / 0x10000) % 0x100) as u8,
            ((v / 0x100) % 0x100) as u8,
            (v % 0x100) as u8,
        ],
        IpAddress::V6(v) => Seq::new(16, |i: int| ((v as int) / pow256(15 - i) % 0x100) as u8),
    }
}

/// Two hundred fifty-six to the power `e`.
pub open spec fn pow256(e: int) -> int
    decreases e when e >= 0
{
    if e <= 0 {
        1
    } else {
        0x100 * pow256(e - 1)
    }
}

/// The network-order bytes of an address value, executably.
#[verifier::loop_isolation(false)]
#[verifier::rlimit(100)]
pub fn address_octets(a: &IpAddress) -> (r: Vec<u8>)
    ensures
        r@ == addr_octets(*a),
{
    match a {
        IpAddress::V4(v) => {
            let mut out: Vec<u8> = Vec::new();
            out.push((*v / 0x1000000) as u8);
            out.push(((*v / 0x10000) % 0x100) as u8);
            out.push(((*v / 0x100) % 0x100) as u8);
            out.push((*v % 0x100) as u8);
            proof {
                assert(out@ =~= addr_octets(*a));
            }
            out
        },
        IpAddress::V6(v) => {
            let mut out: Vec<u8> = Vec::new();
            let mut i: usize = 0;
            proof {
                lemma_pow256_top();
            }
            while i < 16
                invariant
                    i <= 16,
                    out@.len() == i,
                    forall|k: int| 0 <= k < i ==> out@[k] == (#[trigger] addr_octets(*a)[k]),
                decreases 16 - i,
            {
                let mut p: u128 = 1;
                let mut e: usize = 0;
                proof {
                    lemma_pow256_mono(0, 15);
                }
                while e < 15 - i
                    invariant
                        e <= 15 - i,
                        i <= 15,
                        p == pow256(e as int),
                        p <= pow256(15),
                    decreases 15 - i - e,
                {
                    proof {
                        lemma_pow256_mono(e as int + 1, 15);
                        lemma_pow256_pos(e as int);
                    }
                    p = p * 0x100;
                    e = e + 1;
                }
                proof {
                    lemma_pow256_pos(15 - i as int);
                }
                let byte = ((*v / p) % 0x100) as u8;
                out.push(byte);
                proof {
                    assert(addr_octets(*a)[i as int] == ((*v as int) / pow256(15 - i as int)
                        % 0x100) as u8);
                }
                i = i + 1;
            }
            proof {
                assert(out@ =~= addr_octets(*a));
            }
            out
        },
    }
}

/// Powers of two hundred fifty-six are positive.
pub proof fn lemma_pow256_pos(e: int)
    requires
        e >= 0,
    ensures
        pow256(e) >= 1,
    decreases e,
{
    if e > 0 {
        lemma_pow256_pos(e - 1);
        assert(pow256(e) == 0x100 * pow256(e - 1));
        assert(0x100 * pow256(e - 1) >= 1) by (nonlinear_arith)
            requires
                pow256(e - 1) >= 1,
        ;
    }
}

/// Powers of two hundred fifty-six grow with the exponent.
pub proof fn lemma_pow256_mono(a: int, b: int)
    requires
        0 <= a <= b,
    ensures
        pow256(a) <= pow256(b),
    decreases b - a,
{
    if a < b {
        lemma_pow256_mono(a, b - 1);
        lemma_pow256_pos(b - 1);
        assert(pow256(b) == 0x100 * pow256(b - 1));
        assert(0x100 * pow256(b - 1) >= pow256(b - 1)) by (nonlinear_arith)
            requires
                pow256(b - 1) >= 1,
        ;
    }
}

/// The fifteenth power of two hundred fifty-six, spelled out: every
/// address byte divisor fits a `u128`.
pub proof fn lemma_pow256_top()
    ensures
        pow256(15) == 0x1000000000000000000000000000000int,
{
    assert(pow256(0) == 1);
    assert(pow256(1) == 0x100);
    assert(pow256(2) == 0x10000);
    assert(pow256(3) == 0x1000000);
    assert(pow256(4) == 0x100000000);
    assert(pow256(5) == 0x10000000000);
    assert(pow256(6) == 0x1000000000000);
    assert(pow256(7) == 0x100000000000000);
    assert(pow256(8) == 0x10000000000000000);
    assert(pow256(9) == 0x1000000000000000000);
    assert(pow256(10) == 0x100000000000000000000);
    assert(pow256(11) == 0x10000000000000000000000);
    assert(pow256(12) == 0x1000000000000000000000000);
    assert(pow256(13) == 0x100000000000000000000000000);
    assert(pow256(14) == 0x10000000000000000000000000000);
    assert(pow256(15) == 0x1000000000000000000000000000000);
}

/// Whether two byte lists hold the same bytes.
pub fn bytes_eq(a: &Vec<u8>, b: &Vec<u8>) -> (r: bool)
    ensures
        r == (a@ == b@),
{
    if a.len() != b.len() {
        return false;
    }
    let mut i: usize = 0;
    #[verifier::loop_isolation(false)]
    while i < a.len()
        invariant
            i <= a@.len(),
            a@.len() == b@.len(),
            forall|k: int| 0 <= k < i ==> a@[k] == b@[k],
        decreases a@.len() - i,
    {
        if a[i] != b[i] {
            return false;
        }
        i = i + 1;
    }
    proof {
        assert(a@ =~= b@);
    }
    true
}

/// A route directive: a destination prefix through a device, a gateway,
/// or both.
pub struct Routing {
    /// The destination of the route.
    pub prefix: Cidr,
    /// The output device, if constrained.
    pub device: Option<String>,
    /// The next hop, if any.
    pub gateway: Option<Address>,
}

/// The parts of a route directive, in specification land.
pub ghost struct RoutingV {
    pub prefix: crate::ip::CidrV,
    pub device: Option<Seq<char>>,
    pub gateway: Option<crate::ip::AddressV>,
}

impl vstd::prelude::DeepView for Routing {
    type V = RoutingV;

    open spec fn deep_view(&self) -> RoutingV {
        RoutingV {
            prefix: self.prefix.deep_view(),
            device: match self.device {
                Some(d) => Some(d@),
                None => None,
            },
            gateway: match self.gateway {
                Some(g) => Some(g.deep_view()),
                None => None,
            },
        }
    }
}

/// What a document denotes as a route directive: a destination network,
/// an optional device, an optional gateway. Unknown members are
/// ignored.
pub open spec fn routing_of_jv(j: JsonV) -> Option<RoutingV> {
    match j {
        JsonV::Obj(o) => {
            let pt = obj_get_v(o, "prefix"@);
            if !(pt matches Some(JsonV::Str(t)) && crate::ip::cidr_of(t) is Some) {
                None
            } else {
                let text = pt->Some_0->Str_0;
                let parts = crate::ip::cidr_of(text).unwrap();
                let dev = match obj_get_v(o, "device"@) {
                    None => Some(None),
                    Some(JsonV::Str(d)) => Some(Some(d)),
                    Some(_) => None,
                };
                let gw = match obj_get_v(o, "gateway"@) {
                    None => Some(None),
                    Some(JsonV::Str(g)) => if crate::ip::ip_of(g) is Some {
                        Some(Some(crate::ip::AddressV { text: g, value: crate::ip::ip_of(g).unwrap() }))
                    } else {
                        None
                    },
                    Some(_) => None,
                };
                if dev is Some && gw is Some {
                    Some(
                        RoutingV {
                            prefix: crate::ip::CidrV { text, ip: parts.0, prefix: parts.1 },
                            device: dev.unwrap(),
                            gateway: gw.unwrap(),
                        },
                    )
                } else {
                    None
                }
            }
        },
        _ => None,
    }
}

/// The document of a route directive.
pub open spec fn routing_jv(n: RoutingV) -> JsonV {
    JsonV::Obj(
        seq![("prefix"@, JsonV::Str(n.prefix.text))] + (match n.device {
            Some(d) => seq![("device"@, JsonV::Str(d))],
            None => Seq::empty(),
        }) + (match n.gateway {
            Some(g) => seq![("gateway"@, JsonV::Str(g.text))],
            None => Seq::empty(),
        }),
    )
}

impl Routing {
    /// Checks the directive: at least one of device and gateway must be
    /// given.
    pub fn validate(self) -> (r: Result<Routing, CniError>)
        ensures
            match r {
                Ok(n) => n == self && (self.device is Some || self.gateway is Some),
                Err(e) => self.device is None && self.gateway is None && e is Generic,
            },
    {
        if self.device.is_none() && self.gateway.is_none() {
            Err(
                CniError::Generic(
                    "at least one of device or gateway is required, none provided".to_owned(),
                ),
            )
        } else {
            Ok(self)
        }
    }

    /// Reads a route directive out of a document.
    pub fn from_json(j: &JsonValue) -> (r: Option<Routing>)
        ensures
            match r {
                Some(n) => routing_of_jv(j.deep_view()) == Some(n.deep_view()) && n.prefix.wf()
                    && (match n.gateway {
                    Some(g) => g.wf(),
                    None => true,
                }),
                None => routing_of_jv(j.deep_view()) is None,
            },
    {
        let o = match json_as_obj(j) {
            Some(o) => o,
            None => {
                return None;
            },
        };
        let prefix = match obj_get(o, "prefix") {
            Some(v) => match json_as_str(v) {
                Some(t) => match Cidr::parse(t.as_str()) {
                    Some(c) => c,
                    None => {
                        return None;
                    },
                },
                None => {
                    return None;
                },
            },
            None => {
                return None;
            },
        };
        let device = match obj_get(o, "device") {
            Some(v) => match json_as_str(v) {
                Some(t) => Some(t.clone()),
                None => {
                    return None;
                },
            },
            None => None,
        };
        let gateway = match obj_get(o, "gateway") {
            Some(v) => match json_as_str(v) {
                Some(t) => match Address::parse(t.as_str()) {
                    Some(a) => Some(a),
                    None => {
                        return None;
                    },
                },
                None => {
                    return None;
                },
            },
            None => None,
        };
        Some(Routing { prefix, device, gateway })
    }

    /// The document of this directive.
    pub fn to_json(&self) -> (r: JsonValue)
        ensures
            r.deep_view() == routing_jv(self.deep_view()),
    {
        let mut members: Vec<(String, JsonValue)> = Vec::new();
        members.push(("prefix".to_owned(), JsonValue::Str(self.prefix.text.clone())));
        match &self.device {
            Some(d) => {
                members.push(("device".to_owned(), JsonValue::Str(d.clone())));
            },
            None => {},
        }
        match &self.gateway {
            Some(g) => {
                members.push(("gateway".to_owned(), JsonValue::Str(g.text.clone())));
            },
            None => {},
        }
        let r = JsonValue::Obj(members);
        proof {
            crate::reply::lemma_deep_obj_members(r);
            lemma_deep_obj(members@);
            assert(r.deep_view() matches JsonV::Obj(o) && o =~= (
            match routing_jv(self.deep_view()) {
                JsonV::Obj(o2) => o2,
                _ => Seq::empty(),
            }));
        }
        r
    }

    /// Whether an installed route, as the kernel reports it, is one this
    /// directive asks to delete: same output interface, same destination
    /// prefix, same gateway.
    pub fn matches_installed(
        &self,
        link: &Option<u32>,
        cand_oif: &Option<u32>,
        cand_dest: &Option<(Vec<u8>, u8)>,
        cand_gw: &Option<Vec<u8>>,
    ) -> (r: bool)
        ensures
            r == ({
                &&& cand_oif == link
                &&& (cand_dest matches Some(d) && d.0@ == addr_octets(self.prefix.ip) && d.1
                    == self.prefix.prefix)
                &&& (match (self.gateway, cand_gw) {
                    (Some(g), Some(b)) => addr_octets(g.value) == b@,
                    (None, None) => true,
                    _ => false,
                })
            }),
    {
        let oif_ok = match (link, cand_oif) {
            (Some(a), Some(b)) => *a == *b,
            (None, None) => true,
            _ => false,
        };
        if !oif_ok {
            return false;
        }
        let dest_ok = match cand_dest {
            Some((d, plen)) => {
                let mine = address_octets(&self.prefix.ip);
                bytes_eq(&mine, d) && *plen == self.prefix.prefix
            },
            None => false,
        };
        if !dest_ok {
            return false;
        }
        match (&self.gateway, cand_gw) {
            (Some(g), Some(b)) => {
                let mine = address_octets(&g.value);
                bytes_eq(&mine, b)
            },
            (None, None) => true,
            _ => false,
        }
    }
}

/// The retry budget of one directive: the default of three when the
/// configuration gives none, one through ten as configured, larger
/// values clamped down to ten. Zero is no budget at all, so it falls
/// back to the default.
pub fn clamp_tries(raw: &Option<u64>) -> (r: u8)
    ensures
        match raw {
            Some(n) => {
                &&& (1 <= *n <= 10) ==> r == *n
                &&& (*n > 10) ==> r == 10
                &&& (*n == 0) ==> r == 3
            },
            None => r == 3,
        },
        1 <= r <= 10,
{
    match raw {
        Some(n) => {
            if *n == 0 {
                3
            } else if *n > 10 {
                10
            } else {
                *n as u8
            }
        },
        None => 3,
    }
}

/// Appends the applied directives to the reply's named list, creating
/// the list when absent; any other value under that key is refused.
///
/// This is how `hostNeighbours` and `hostRoutes` are threaded through a
/// chain: the reply keeps everything it had, and the named list grows by
/// the given entries at its end.
#[verifier::loop_isolation(false)]
#[verifier::rlimit(100)]
pub fn append_host_entries(
    reply: &mut crate::reply::SuccessReply,
    key: &str,
    entries: Vec<JsonValue>,
) -> (r: Result<(), CniError>)
    ensures
        final(reply).cni_version == old(reply).cni_version,
        final(reply).interfaces == old(reply).interfaces,
        final(reply).ips == old(reply).ips,
        final(reply).routes == old(reply).routes,
        final(reply).dns == old(reply).dns,
        match r {
            Ok(_) => {
                let dv = crate::json::deep_obj(old(reply).specific@);
                let dv2 = crate::json::deep_obj(final(reply).specific@);
                match obj_get_v(dv, key@) {
                    None => dv2 == dv.push((key@, JsonV::Arr(crate::json::deep_arr(entries@)))),
                    Some(JsonV::Arr(items)) => exists|ix: int|
                        0 <= ix < dv.len() && dv[ix].0 == key@ && #[trigger] dv2[ix] == (
                            key@,
                            JsonV::Arr(items + crate::json::deep_arr(entries@)),
                        ) && dv2.len() == dv.len() && (forall|k: int|
                            0 <= k < dv.len() && k != ix ==> #[trigger] dv2[k] == dv[k]),
                    Some(_) => false,
                }
            },
            Err(e) => e is InvalidField && final(reply).specific == old(reply).specific && (
            obj_get_v(crate::json::deep_obj(old(reply).specific@), key@) matches Some(v) && !(
            v is Arr)),
        },
{
    proof {
        crate::json::lemma_deep_obj(reply.specific@);
        crate::json::lemma_deep_arr(entries@);
    }
    let ghost dv = crate::json::deep_obj(reply.specific@);
    let mut found: Option<usize> = None;
    let mut i: usize = 0;
    while i < reply.specific.len()
        invariant
            i <= reply.specific@.len(),
            match found {
                Some(x) => 0 <= x < i && dv[x as int].0 == key@ && (forall|k: int|
                    0 <= k < x ==> (#[trigger] dv[k]).0 != key@),
                None => forall|k: int| 0 <= k < i ==> (#[trigger] dv[k]).0 != key@,
            },
        decreases reply.specific@.len() - i,
    {
        if found.is_none() && crate::json::str_eq(reply.specific[i].0.as_str(), key) {
            found = Some(i);
        }
        i = i + 1;
    }
    match found {
        Some(ix) => {
            proof {
                lemma_first_key(dv, key@, ix as int);
            }
            let is_arr = match &reply.specific[ix].1 {
                JsonValue::Arr(_) => true,
                _ => false,
            };
            if !is_arr {
                return Err(
                    CniError::InvalidField {
                        field: key.to_owned(),
                        expected: "array".to_owned(),
                        value: crate::json::json_copy(&reply.specific[ix].1),
                    },
                );
            }
            // rebuild the member list with the named list extended
            let mut out: Vec<(String, JsonValue)> = Vec::new();
            let mut k: usize = 0;
            let n = reply.specific.len();
            while k < n
                invariant
                    k <= n == reply.specific@.len(),
                    ix < n,
                    out@.len() == k,
                    crate::json::deep_obj(reply.specific@) == dv,
                    reply.specific@[ix as int].1 is Arr,
                    forall|x: int| 0 <= x < k && x != ix ==> crate::json::deep_obj(out@)[x]
                        == #[trigger] dv[x],
                    k > ix ==> crate::json::deep_obj(out@)[ix as int] == (
                        key@,
                        JsonV::Arr(
                            crate::json::deep_arr(reply.specific@[ix as int].1->Arr_0@)
                                + crate::json::deep_arr(entries@),
                        ),
                    ),
                decreases n - k,
            {
                proof {
                    crate::json::lemma_deep_obj(out@);
                }
                let ghost prev = out@;
                if k == ix {
                    let mut items: Vec<JsonValue> = match &reply.specific[k].1 {
                        JsonValue::Arr(v) => {
                            let mut copies: Vec<JsonValue> = Vec::new();
                            let mut y: usize = 0;
                            while y < v.len()
                                invariant
                                    y <= v@.len(),
                                    copies@.len() == y,
                                    forall|z: int| 0 <= z < y ==> (#[trigger] copies@[
                                        z]).deep_view() == v@[z].deep_view(),
                                decreases v@.len() - y,
                            {
                                copies.push(crate::json::json_copy(&v[y]));
                                y = y + 1;
                            }
                            proof {
                                crate::json::lemma_deep_arr(copies@);
                                crate::json::lemma_deep_arr(v@);
                                assert(crate::json::deep_arr(copies@) =~= crate::json::deep_arr(
                                    v@,
                                ));
                            }
                            copies
                        },
                        _ => Vec::new(),
                    };
                    let mut more = crate::json::copy_json_items(&entries);
                    proof {
                        crate::json::lemma_deep_arr(items@);
                        crate::json::lemma_deep_arr(more@);
                    }
                    let ghost items0 = items@;
                    let ghost more0 = more@;
                    items.append(&mut more);
                    proof {
                        crate::json::lemma_deep_arr_append(items0, more0);
                    }
                    out.push((key.to_owned(), JsonValue::Arr(items)));
                    proof {
                        crate::json::lemma_deep_obj(out@);
                        assert(out@.drop_last() =~= prev);
                    }
                } else {
                    let kc = reply.specific[k].0.clone();
                    let vc = crate::json::json_copy(&reply.specific[k].1);
                    out.push((kc, vc));
                    proof {
                        crate::json::lemma_deep_obj(out@);
                        assert(out@.drop_last() =~= prev);
                    }
                }
                k = k + 1;
            }
            proof {
                crate::json::lemma_deep_obj(out@);
            }
            reply.specific = out;
            proof {
                let dv2 = crate::json::deep_obj(reply.specific@);
                assert(dv2.len() == dv.len());
                assert(dv2[ix as int] == (
                    key@,
                    JsonV::Arr(
                        (dv[ix as int].1)->Arr_0 + crate::json::deep_arr(entries@),
                    ),
                )) by {
                    assert(dv[ix as int].1 == old(reply).specific@[ix as int].1.deep_view());
                }
            }
            Ok(())
        },
        None => {
            proof {
                crate::json::lemma_obj_get_no_key(dv, key@);
            }
            let ghost prev = reply.specific@;
            reply.specific.push((key.to_owned(), JsonValue::Arr(entries)));
            proof {
                crate::json::lemma_deep_obj(reply.specific@);
                assert(reply.specific@.drop_last() =~= prev);
                assert(crate::json::deep_obj(reply.specific@) == crate::json::deep_obj(
                    prev,
                ).push((key@, JsonV::Arr(crate::json::deep_arr(entries@)))));
            }
            Ok(())
        },
    }
}

/// The first binding of a key is what a lookup yields.
proof fn lemma_first_key(o: Seq<(Seq<char>, JsonV)>, k: Seq<char>, ix: int)
    requires
        0 <= ix < o.len(),
        o[ix].0 == k,
        forall|x: int| 0 <= x < ix ==> (#[trigger] o[x]).0 != k,
    ensures
        obj_get_v(o, k) == Some(o[ix].1),
    decreases ix,
{
    if ix == 0 {
    } else {
        assert(o[0].0 != k);
        assert forall|x: int| 0 <= x < ix - 1 implies (#[trigger] o.drop_first()[x]).0 != k by {
            assert(o.drop_first()[x] == o[x + 1]);
        }
        assert(o.drop_first()[ix - 1] == o[ix]);
        lemma_first_key(o.drop_first(), k, ix - 1);
    }
}

} // verus!
