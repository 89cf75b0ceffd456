//! Reply documents: what a plugin writes on standard output.
//!
//! Every reply serializes to a JSON document through [`crate::json`]; the
//! exact shape of each document is pinned by the `*_jv` functions here.

use vstd::prelude::*;

use crate::error::{app_error_code, app_error_msg, cni_error_code, cni_error_msg, AppError,
    CniError};
use crate::ip::{Address, AddressV, Cidr, CidrV};
use crate::json::{deep_arr, deep_obj, lemma_deep_arr, lemma_deep_obj, obj_get_v, JsonV,
    JsonValue};
use crate::macaddr::{mac_chars, MacAddr};
use crate::text::{chars_to_string, dec_chars};
use crate::version::{compatible, version_chars, Version, VersionV};

verus! {

/// A reply type that can be written out, with its exit code.
pub trait ReplyPayload {
    /// The exit code set when replying with this payload.
    spec fn spec_code(&self) -> int;

    /// The exit code set when replying with this payload.
    fn code(&self) -> (r: i32)
        ensures
            r as int == self.spec_code(),
    ;
}

// ------------------------------------------------------------------
// DNS settings
// ------------------------------------------------------------------

/// DNS configuration or settings.
pub struct Dns {
    /// Priority-ordered nameservers.
    pub nameservers: Vec<Address>,
    /// The local domain for short hostname lookups.
    pub domain: Option<String>,
    /// Priority-ordered search domains.
    pub search: Vec<String>,
    /// Options passed to the resolver.
    pub options: Vec<String>,
}

/// The parts of DNS settings, in specification land.
pub ghost struct DnsV {
    pub nameservers: Seq<AddressV>,
    pub domain: Option<Seq<char>>,
    pub search: Seq<Seq<char>>,
    pub options: Seq<Seq<char>>,
}

impl vstd::prelude::DeepView for Dns {
    type V = DnsV;

    open spec fn deep_view(&self) -> DnsV {
        DnsV {
            nameservers: self.nameservers.deep_view(),
            domain: match self.domain {
                Some(d) => Some(d@),
                None => None,
            },
            search: self.search.deep_view(),
            options: self.options.deep_view(),
        }
    }
}

/// The addresses of a list, as JSON strings of their text.
pub open spec fn addr_strs_jv(s: Seq<AddressV>) -> Seq<JsonV>
    decreases s.len(),
{
    if s.len() == 0 {
        Seq::empty()
    } else {
        addr_strs_jv(s.drop_last()).push(JsonV::Str(s.last().text))
    }
}

/// A list of strings, as JSON strings.
pub open spec fn strs_jv(s: Seq<Seq<char>>) -> Seq<JsonV>
    decreases s.len(),
{
    if s.len() == 0 {
        Seq::empty()
    } else {
        strs_jv(s.drop_last()).push(JsonV::Str(s.last()))
    }
}

/// The document of DNS settings: empty lists and absent fields are left
/// out.
pub open spec fn dns_jv(d: DnsV) -> JsonV {
    JsonV::Obj(
        (if d.nameservers.len() > 0 {
            seq![("nameservers"@, JsonV::Arr(addr_strs_jv(d.nameservers)))]
        } else {
            Seq::empty()
        }) + (match d.domain {
            Some(t) => seq![("domain"@, JsonV::Str(t))],
            None => Seq::empty(),
        }) + (if d.search.len() > 0 {
            seq![("search"@, JsonV::Arr(strs_jv(d.search)))]
        } else {
            Seq::empty()
        }) + (if d.options.len() > 0 {
            seq![("options"@, JsonV::Arr(strs_jv(d.options)))]
        } else {
            Seq::empty()
        }),
    )
}

impl Dns {
    /// Empty DNS settings.
    pub fn empty() -> (r: Dns)
        ensures
            r.deep_view() == (DnsV {
                nameservers: Seq::<AddressV>::empty(),
                domain: None,
                search: Seq::<Seq<char>>::empty(),
                options: Seq::<Seq<char>>::empty(),
            }),
    {
        let d = Dns { nameservers: Vec::new(), domain: None, search: Vec::new(), options: Vec::new() };
        proof {
            assert(d.nameservers.deep_view() =~= Seq::<AddressV>::empty());
            assert(d.search.deep_view() =~= Seq::<Seq<char>>::empty());
            assert(d.options.deep_view() =~= Seq::<Seq<char>>::empty());
        }
        d
    }

    /// The document of these settings.
    pub fn to_json(&self) -> (r: JsonValue)
        ensures
            r.deep_view() == dns_jv(self.deep_view()),
    {
        let mut members: Vec<(String, JsonValue)> = Vec::new();
        if self.nameservers.len() > 0 {
            let mut items: Vec<JsonValue> = Vec::new();
            let mut i: usize = 0;
            #[verifier::loop_isolation(false)]
            while i < self.nameservers.len()
                invariant
                    i <= self.nameservers@.len(),
                    deep_arr(items@) == addr_strs_jv(self.nameservers.deep_view().take(i as int)),
                decreases self.nameservers@.len() - i,
            {
                let ghost prev = items@;
                items.push(JsonValue::Str(self.nameservers[i].text.clone()));
                proof {
                    let dv = self.nameservers.deep_view();
                    assert(items@.drop_last() =~= prev);
                    assert(deep_arr(items@) == deep_arr(prev).push(items@.last().deep_view()));
                    assert(dv.take(i + 1).drop_last() =~= dv.take(i as int));
                    assert(dv.take(i + 1).last() == dv[i as int]);
                    assert(dv[i as int].text == self.nameservers@[i as int].text@);
                }
                i = i + 1;
            }
            proof {
                assert(self.nameservers.deep_view().take(self.nameservers@.len() as int)
                    =~= self.nameservers.deep_view());
            }
            members.push(("nameservers".to_owned(), JsonValue::Arr(items)));
        }
        match &self.domain {
            Some(d) => {
                members.push(("domain".to_owned(), JsonValue::Str(d.clone())));
            },
            None => {},
        }
        if self.search.len() > 0 {
            let items = str_vec_json(&self.search);
            members.push(("search".to_owned(), JsonValue::Arr(items)));
        }
        if self.options.len() > 0 {
            let items = str_vec_json(&self.options);
            members.push(("options".to_owned(), JsonValue::Arr(items)));
        }
        let r = JsonValue::Obj(members);
        proof {
            lemma_deep_obj_members(r);
            lemma_deep_obj(members@);
            assert(r.deep_view() matches JsonV::Obj(o) && o =~= (match dns_jv(self.deep_view()) {
                JsonV::Obj(o2) => o2,
                _ => Seq::empty(),
            }));
        }
        r
    }

    /// A fresh copy of these settings.
    pub fn copied(&self) -> (r: Dns)
        ensures
            r.deep_view() == self.deep_view(),
    {
        let mut nameservers: Vec<Address> = Vec::new();
        let mut i: usize = 0;
        #[verifier::loop_isolation(false)]
        while i < self.nameservers.len()
            invariant
                i <= self.nameservers@.len(),
                nameservers.deep_view() =~= self.nameservers.deep_view().take(i as int),
            decreases self.nameservers@.len() - i,
        {
            nameservers.push(self.nameservers[i].copied());
            proof {
                assert(nameservers.deep_view() =~= self.nameservers.deep_view().take(i + 1));
            }
            i = i + 1;
        }
        let domain = match &self.domain {
            Some(d) => Some(d.clone()),
            None => None,
        };
        let search = clone_strings(&self.search);
        let options = clone_strings(&self.options);
        let r = Dns { nameservers, domain, search, options };
        proof {
            assert(r.nameservers.deep_view() =~= self.nameservers.deep_view());
            assert(r.deep_view() =~= self.deep_view());
        }
        r
    }
}

/// A list of strings, as JSON string documents.
fn str_vec_json(v: &Vec<String>) -> (r: Vec<JsonValue>)
    ensures
        deep_arr(r@) == strs_jv(v.deep_view()),
{
    let mut items: Vec<JsonValue> = Vec::new();
    let mut i: usize = 0;
    #[verifier::loop_isolation(false)]
    while i < v.len()
        invariant
            i <= v@.len(),
            deep_arr(items@) == strs_jv(v.deep_view().take(i as int)),
        decreases v@.len() - i,
    {
        let ghost prev = items@;
        items.push(JsonValue::Str(v[i].clone()));
        proof {
            let dv = v.deep_view();
            assert(items@.drop_last() =~= prev);
            assert(deep_arr(items@) == deep_arr(prev).push(items@.last().deep_view()));
            assert(dv.take(i + 1).drop_last() =~= dv.take(i as int));
            assert(dv.take(i + 1).last() == dv[i as int]);
            assert(dv[i as int] == v@[i as int]@);
        }
        i = i + 1;
    }
    proof {
        assert(v.deep_view().take(v@.len() as int) =~= v.deep_view());
    }
    items
}

/// Fresh copies of a list of strings.
pub fn clone_strings(v: &Vec<String>) -> (r: Vec<String>)
    ensures
        r.deep_view() == v.deep_view(),
{
    let mut out: Vec<String> = Vec::new();
    let mut i: usize = 0;
    #[verifier::loop_isolation(false)]
    while i < v.len()
        invariant
            i <= v@.len(),
            out.deep_view() =~= v.deep_view().take(i as int),
        decreases v@.len() - i,
    {
        out.push(v[i].clone());
        proof {
            assert(out.deep_view() =~= v.deep_view().take(i + 1));
        }
        i = i + 1;
    }
    proof {
        assert(out.deep_view() =~= v.deep_view());
    }
    out
}


/// An empty list, with its empty deep view.
pub fn empty_vec<T: DeepView>() -> (r: Vec<T>)
    ensures
        r@.len() == 0,
        r.deep_view() == Seq::<T::V>::empty(),
{
    let v: Vec<T> = Vec::new();
    proof {
        assert(v.deep_view() =~= Seq::<T::V>::empty());
    }
    v
}

/// The members of an object document.
pub proof fn lemma_deep_obj_members(v: JsonValue)
    requires
        v is Obj,
    ensures
        v.deep_view() matches JsonV::Obj(o) && o == deep_obj((v->Obj_0)@),
{
}


// ------------------------------------------------------------------
// Interfaces, IPs, routes
// ------------------------------------------------------------------

/// An interface entry of a success reply.
pub struct Interface {
    /// The name of the interface.
    pub name: String,
    /// The hardware address, if applicable.
    pub mac: Option<MacAddr>,
    /// The namespace path the interface is in; empty for the host.
    pub sandbox: String,
}

/// The parts of an interface entry, in specification land.
pub ghost struct InterfaceV {
    pub name: Seq<char>,
    pub mac: Option<MacAddr>,
    pub sandbox: Seq<char>,
}

impl vstd::prelude::DeepView for Interface {
    type V = InterfaceV;

    open spec fn deep_view(&self) -> InterfaceV {
        InterfaceV {
            name: self.name@,
            mac: self.mac,
            sandbox: self.sandbox@,
        }
    }
}

/// The document of an interface entry.
pub open spec fn interface_jv(v: InterfaceV) -> JsonV {
    JsonV::Obj(
        seq![("name"@, JsonV::Str(v.name))] + (match v.mac {
            Some(m) => seq![("mac"@, JsonV::Str(mac_chars(m)))],
            None => Seq::empty(),
        }) + seq![("sandbox"@, JsonV::Str(v.sandbox))],
    )
}

/// What a document denotes as an interface entry.
pub open spec fn interface_of_jv(j: JsonV) -> Option<InterfaceV> {
    match j {
        JsonV::Obj(o) => {
            let name = obj_get_v(o, "name"@);
            let sandbox = obj_get_v(o, "sandbox"@);
            if !(name matches Some(JsonV::Str(_)) && sandbox matches Some(JsonV::Str(_))) {
                None
            } else {
                let mac = match obj_get_v(o, "mac"@) {
                    Some(JsonV::Str(mt)) => crate::macaddr::parse_mac(mt),
                    Some(_) => None,
                    None => None,
                };
                if obj_get_v(o, "mac"@) is Some && mac is None {
                    None
                } else {
                    Some(
                        InterfaceV {
                            name: name->Some_0->Str_0,
                            mac,
                            sandbox: sandbox->Some_0->Str_0,
                        },
                    )
                }
            }
        },
        _ => None,
    }
}

impl Interface {
    /// The document of this entry.
    pub fn to_json(&self) -> (r: JsonValue)
        ensures
            r.deep_view() == interface_jv(self.deep_view()),
    {
        let mut members: Vec<(String, JsonValue)> = Vec::new();
        members.push(("name".to_owned(), JsonValue::Str(self.name.clone())));
        match &self.mac {
            Some(m) => {
                members.push(("mac".to_owned(), JsonValue::Str(m.format())));
            },
            None => {},
        }
        members.push(("sandbox".to_owned(), JsonValue::Str(self.sandbox.clone())));
        let r = JsonValue::Obj(members);
        proof {
            lemma_deep_obj_members(r);
            lemma_deep_obj(members@);
            assert(r.deep_view() matches JsonV::Obj(o) && o =~= (
            match interface_jv(self.deep_view()) {
                JsonV::Obj(o2) => o2,
                _ => Seq::empty(),
            }));
        }
        r
    }

    /// Reads an interface entry out of a document.
    pub fn from_json(j: &JsonValue) -> (r: Option<Interface>)
        ensures
            match r {
                Some(v) => interface_of_jv(j.deep_view()) == Some(v.deep_view()),
                None => interface_of_jv(j.deep_view()) is None,
            },
    {
        let o = match crate::json::json_as_obj(j) {
            Some(o) => o,
            None => {
                return None;
            },
        };
        let name = match crate::json::obj_get(o, "name") {
            Some(v) => match crate::json::json_as_str(v) {
                Some(t) => t.clone(),
                None => {
                    return None;
                },
            },
            None => {
                return None;
            },
        };
        let sandbox = match crate::json::obj_get(o, "sandbox") {
            Some(v) => match crate::json::json_as_str(v) {
                Some(t) => t.clone(),
                None => {
                    return None;
                },
            },
            None => {
                return None;
            },
        };
        let mac = match crate::json::obj_get(o, "mac") {
            Some(v) => match crate::json::json_as_str(v) {
                Some(t) => match MacAddr::parse(t.as_str()) {
                    Some(m) => Some(m),
                    None => {
                        return None;
                    },
                },
                None => {
                    return None;
                },
            },
            None => None,
        };
        Some(Interface { name, mac, sandbox })
    }
}

/// An IP entry of a success reply.
pub struct Ip {
    /// The assigned address, with its network.
    pub address: Cidr,
    /// The default gateway for the subnet, if one exists.
    pub gateway: Option<Address>,
    /// The index into `interfaces` this IP is for; absent in IPAM
    /// replies.
    pub interface: Option<u64>,
}

/// The parts of an IP entry, in specification land.
pub ghost struct IpV {
    pub address: CidrV,
    pub gateway: Option<AddressV>,
    pub interface: Option<u64>,
}

impl vstd::prelude::DeepView for Ip {
    type V = IpV;

    open spec fn deep_view(&self) -> IpV {
        IpV {
            address: self.address.deep_view(),
            gateway: match self.gateway {
                Some(g) => Some(g.deep_view()),
                None => None,
            },
            interface: self.interface,
        }
    }
}

/// The document of an IP entry.
pub open spec fn ip_jv(v: IpV) -> JsonV {
    JsonV::Obj(
        seq![("address"@, JsonV::Str(v.address.text))] + (match v.gateway {
            Some(g) => seq![("gateway"@, JsonV::Str(g.text))],
            None => Seq::empty(),
        }) + (match v.interface {
            Some(ix) => seq![("interface"@, JsonV::Num(dec_chars(ix as nat)))],
            None => Seq::empty(),
        }),
    )
}

/// What a document denotes as an IP entry.
pub open spec fn ip_of_jv(j: JsonV) -> Option<IpV> {
    match j {
        JsonV::Obj(o) => {
            let at = obj_get_v(o, "address"@);
            if !(at matches Some(JsonV::Str(t)) && crate::ip::cidr_of(t) is Some) {
                None
            } else {
                let text = at->Some_0->Str_0;
                let parts = crate::ip::cidr_of(text).unwrap();
                let gw_ok = match obj_get_v(o, "gateway"@) {
                    Some(JsonV::Str(gt)) => crate::ip::ip_of(gt) is Some,
                    Some(_) => false,
                    None => true,
                };
                let ix_ok = match obj_get_v(o, "interface"@) {
                    Some(JsonV::Num(lx)) => crate::json::lex_u64(lx) is Some,
                    Some(_) => false,
                    None => true,
                };
                if !(gw_ok && ix_ok) {
                    None
                } else {
                    Some(
                        IpV {
                            address: CidrV { text, ip: parts.0, prefix: parts.1 },
                            gateway: match obj_get_v(o, "gateway"@) {
                                Some(JsonV::Str(gt)) => Some(
                                    AddressV { text: gt, value: crate::ip::ip_of(gt).unwrap() },
                                ),
                                _ => None,
                            },
                            interface: match obj_get_v(o, "interface"@) {
                                Some(JsonV::Num(lx)) => crate::json::lex_u64(lx),
                                _ => None,
                            },
                        },
                    )
                }
            }
        },
        _ => None,
    }
}

impl Ip {
    /// Whether every address of the entry parses back from its text.
    pub open spec fn wf(self) -> bool {
        &&& self.address.wf()
        &&& match self.gateway {
            Some(g) => g.wf(),
            None => true,
        }
    }

    /// The document of this entry.
    pub fn to_json(&self) -> (r: JsonValue)
        ensures
            r.deep_view() == ip_jv(self.deep_view()),
    {
        let mut members: Vec<(String, JsonValue)> = Vec::new();
        members.push(("address".to_owned(), JsonValue::Str(self.address.text.clone())));
        match &self.gateway {
            Some(g) => {
                members.push(("gateway".to_owned(), JsonValue::Str(g.text.clone())));
            },
            None => {},
        }
        match &self.interface {
            Some(ix) => {
                let mut cs: Vec<char> = Vec::new();
                crate::text::push_u64_digits(*ix, &mut cs);
                members.push(("interface".to_owned(), JsonValue::Num(chars_to_string(&cs))));
            },
            None => {},
        }
        let r = JsonValue::Obj(members);
        proof {
            lemma_deep_obj_members(r);
            lemma_deep_obj(members@);
            assert(r.deep_view() matches JsonV::Obj(o) && o =~= (match ip_jv(self.deep_view()) {
                JsonV::Obj(o2) => o2,
                _ => Seq::empty(),
            }));
        }
        r
    }

    /// Reads an IP entry out of a document.
    pub fn from_json(j: &JsonValue) -> (r: Option<Ip>)
        ensures
            match r {
                Some(v) => ip_of_jv(j.deep_view()) == Some(v.deep_view()) && v.wf(),
                None => ip_of_jv(j.deep_view()) is None,
            },
    {
        let o = match crate::json::json_as_obj(j) {
            Some(o) => o,
            None => {
                return None;
            },
        };
        let address = match crate::json::obj_get(o, "address") {
            Some(v) => match crate::json::json_as_str(v) {
                Some(t) => match Cidr::parse(t.as_str()) {
                    Some(c) => c,
                    None => {
                        return None;
                    },
                },
                None => {
                    return None;
                },
            },
            None => {
                return None;
            },
        };
        let gateway = match crate::json::obj_get(o, "gateway") {
            Some(v) => match crate::json::json_as_str(v) {
                Some(t) => match Address::parse(t.as_str()) {
                    Some(a) => Some(a),
                    None => {
                        return None;
                    },
                },
                None => {
                    return None;
                },
            },
            None => None,
        };
        let interface = match crate::json::obj_get(o, "interface") {
            Some(v) => match crate::json::json_as_u64(v) {
                Some(n) => Some(n),
                None => {
                    return None;
                },
            },
            None => None,
        };
        Some(Ip { address, gateway, interface })
    }

    /// A fresh copy of this entry.
    pub fn copied(&self) -> (r: Ip)
        ensures
            r.deep_view() == self.deep_view(),
            r.wf() == self.wf(),
    {
        Ip {
            address: self.address.copied(),
            gateway: match &self.gateway {
                Some(g) => Some(g.copied()),
                None => None,
            },
            interface: self.interface,
        }
    }
}

/// A route entry of a success reply.
pub struct Route {
    /// The destination of the route.
    pub dst: Cidr,
    /// The next hop, if set.
    pub gw: Option<Address>,
}

/// The parts of a route entry, in specification land.
pub ghost struct RouteV {
    pub dst: CidrV,
    pub gw: Option<AddressV>,
}

impl vstd::prelude::DeepView for Route {
    type V = RouteV;

    open spec fn deep_view(&self) -> RouteV {
        RouteV {
            dst: self.dst.deep_view(),
            gw: match self.gw {
                Some(g) => Some(g.deep_view()),
                None => None,
            },
        }
    }
}

/// The document of a route entry.
pub open spec fn route_jv(v: RouteV) -> JsonV {
    JsonV::Obj(
        seq![("dst"@, JsonV::Str(v.dst.text))] + (match v.gw {
            Some(g) => seq![("gw"@, JsonV::Str(g.text))],
            None => Seq::empty(),
        }),
    )
}

/// What a document denotes as a route entry.
pub open spec fn route_of_jv(j: JsonV) -> Option<RouteV> {
    match j {
        JsonV::Obj(o) => {
            let at = obj_get_v(o, "dst"@);
            if !(at matches Some(JsonV::Str(t)) && crate::ip::cidr_of(t) is Some) {
                None
            } else {
                let text = at->Some_0->Str_0;
                let parts = crate::ip::cidr_of(text).unwrap();
                let gw_ok = match obj_get_v(o, "gw"@) {
                    Some(JsonV::Str(gt)) => crate::ip::ip_of(gt) is Some,
                    Some(_) => false,
                    None => true,
                };
                if !gw_ok {
                    None
                } else {
                    Some(
                        RouteV {
                            dst: CidrV { text, ip: parts.0, prefix: parts.1 },
                            gw: match obj_get_v(o, "gw"@) {
                                Some(JsonV::Str(gt)) => Some(
                                    AddressV { text: gt, value: crate::ip::ip_of(gt).unwrap() },
                                ),
                                _ => None,
                            },
                        },
                    )
                }
            }
        },
        _ => None,
    }
}

impl Route {
    /// The document of this entry.
    pub fn to_json(&self) -> (r: JsonValue)
        ensures
            r.deep_view() == route_jv(self.deep_view()),
    {
        let mut members: Vec<(String, JsonValue)> = Vec::new();
        members.push(("dst".to_owned(), JsonValue::Str(self.dst.text.clone())));
        match &self.gw {
            Some(g) => {
                members.push(("gw".to_owned(), JsonValue::Str(g.text.clone())));
            },
            None => {},
        }
        let r = JsonValue::Obj(members);
        proof {
            lemma_deep_obj_members(r);
            lemma_deep_obj(members@);
            assert(r.deep_view() matches JsonV::Obj(o) && o =~= (match route_jv(self.deep_view()) {
                JsonV::Obj(o2) => o2,
                _ => Seq::empty(),
            }));
        }
        r
    }

    /// Reads a route entry out of a document.
    pub fn from_json(j: &JsonValue) -> (r: Option<Route>)
        ensures
            match r {
                Some(v) => route_of_jv(j.deep_view()) == Some(v.deep_view()),
                None => route_of_jv(j.deep_view()) is None,
            },
    {
        let o = match crate::json::json_as_obj(j) {
            Some(o) => o,
            None => {
                return None;
            },
        };
        let dst = match crate::json::obj_get(o, "dst") {
            Some(v) => match crate::json::json_as_str(v) {
                Some(t) => match Cidr::parse(t.as_str()) {
                    Some(c) => c,
                    None => {
                        return None;
                    },
                },
                None => {
                    return None;
                },
            },
            None => {
                return None;
            },
        };
        let gw = match crate::json::obj_get(o, "gw") {
            Some(v) => match crate::json::json_as_str(v) {
                Some(t) => match Address::parse(t.as_str()) {
                    Some(a) => Some(a),
                    None => {
                        return None;
                    },
                },
                None => {
                    return None;
                },
            },
            None => None,
        };
        Some(Route { dst, gw })
    }

    /// A fresh copy of this entry.
    pub fn copied(&self) -> (r: Route)
        ensures
            r.deep_view() == self.deep_view(),
    {
        Route {
            dst: self.dst.copied(),
            gw: match &self.gw {
                Some(g) => Some(g.copied()),
                None => None,
            },
        }
    }
}


// ------------------------------------------------------------------
// Success replies
// ------------------------------------------------------------------

/// The documents of a list of IP entries.
pub open spec fn ips_jv(s: Seq<IpV>) -> Seq<JsonV>
    decreases s.len(),
{
    if s.len() == 0 {
        Seq::empty()
    } else {
        ips_jv(s.drop_last()).push(ip_jv(s.last()))
    }
}

/// The documents of a list of route entries.
pub open spec fn routes_jv(s: Seq<RouteV>) -> Seq<JsonV>
    decreases s.len(),
{
    if s.len() == 0 {
        Seq::empty()
    } else {
        routes_jv(s.drop_last()).push(route_jv(s.last()))
    }
}

/// The documents of a list of interface entries.
pub open spec fn interfaces_jv(s: Seq<InterfaceV>) -> Seq<JsonV>
    decreases s.len(),
{
    if s.len() == 0 {
        Seq::empty()
    } else {
        interfaces_jv(s.drop_last()).push(interface_jv(s.last()))
    }
}

/// What a list of documents denotes as IP entries.
pub open spec fn ips_of_jv(s: Seq<JsonV>) -> Option<Seq<IpV>>
    decreases s.len(),
{
    if s.len() == 0 {
        Some(Seq::empty())
    } else {
        match (ips_of_jv(s.drop_last()), ip_of_jv(s.last())) {
            (Some(rest), Some(v)) => Some(rest.push(v)),
            _ => None,
        }
    }
}

/// What a list of documents denotes as route entries.
pub open spec fn routes_of_jv(s: Seq<JsonV>) -> Option<Seq<RouteV>>
    decreases s.len(),
{
    if s.len() == 0 {
        Some(Seq::empty())
    } else {
        match (routes_of_jv(s.drop_last()), route_of_jv(s.last())) {
            (Some(rest), Some(v)) => Some(rest.push(v)),
            _ => None,
        }
    }
}

/// What a list of documents denotes as interface entries.
pub open spec fn interfaces_of_jv(s: Seq<JsonV>) -> Option<Seq<InterfaceV>>
    decreases s.len(),
{
    if s.len() == 0 {
        Some(Seq::empty())
    } else {
        match (interfaces_of_jv(s.drop_last()), interface_of_jv(s.last())) {
            (Some(rest), Some(v)) => Some(rest.push(v)),
            _ => None,
        }
    }
}

/// The members whose keys are not among `keys`, in order.
pub open spec fn strip_keys(o: Seq<(Seq<char>, JsonV)>, keys: Seq<Seq<char>>) -> Seq<
    (Seq<char>, JsonV),
>
    decreases o.len(),
{
    if o.len() == 0 {
        Seq::empty()
    } else {
        let rest = strip_keys(o.drop_first(), keys);
        if keys.contains(o[0].0) {
            rest
        } else {
            seq![o[0]] + rest
        }
    }
}

/// The reply structure used when returning a success.
pub struct SuccessReply {
    /// The CNI version of the plugin input config.
    pub cni_version: Version,
    /// All interfaces created by this plugin and its predecessors.
    pub interfaces: Vec<Interface>,
    /// All IPs assigned by this plugin and its predecessors.
    pub ips: Vec<Ip>,
    /// All routes created by this plugin and its predecessors.
    pub routes: Vec<Route>,
    /// Final DNS configuration for the namespace.
    pub dns: Dns,
    /// Custom reply fields, preserved verbatim.
    pub specific: Vec<(String, JsonValue)>,
}

/// The parts of a success reply, in specification land.
pub ghost struct SuccessV {
    pub cni_version: VersionV,
    pub interfaces: Seq<InterfaceV>,
    pub ips: Seq<IpV>,
    pub routes: Seq<RouteV>,
    pub dns: DnsV,
    pub specific: Seq<(Seq<char>, JsonV)>,
}

impl vstd::prelude::DeepView for SuccessReply {
    type V = SuccessV;

    open spec fn deep_view(&self) -> SuccessV {
        SuccessV {
            cni_version: self.cni_version.deep_view(),
            interfaces: self.interfaces.deep_view(),
            ips: self.ips.deep_view(),
            routes: self.routes.deep_view(),
            dns: self.dns.deep_view(),
            specific: deep_obj(self.specific@),
        }
    }
}

/// The reply structure used when returning an abbreviated IPAM success.
pub struct IpamSuccessReply {
    /// The CNI version of the plugin input config.
    pub cni_version: Version,
    /// All IPs assigned by this plugin and its predecessors.
    pub ips: Vec<Ip>,
    /// All routes created by this plugin and its predecessors.
    pub routes: Vec<Route>,
    /// Final DNS configuration for the namespace.
    pub dns: Dns,
    /// Custom reply fields, preserved verbatim.
    pub specific: Vec<(String, JsonValue)>,
}

/// The parts of an IPAM success reply, in specification land.
pub ghost struct IpamSuccessV {
    pub cni_version: VersionV,
    pub ips: Seq<IpV>,
    pub routes: Seq<RouteV>,
    pub dns: DnsV,
    pub specific: Seq<(Seq<char>, JsonV)>,
}

impl vstd::prelude::DeepView for IpamSuccessReply {
    type V = IpamSuccessV;

    open spec fn deep_view(&self) -> IpamSuccessV {
        IpamSuccessV {
            cni_version: self.cni_version.deep_view(),
            ips: self.ips.deep_view(),
            routes: self.routes.deep_view(),
            dns: self.dns.deep_view(),
            specific: deep_obj(self.specific@),
        }
    }
}

/// The document of a success reply.
pub open spec fn success_jv(v: SuccessV) -> JsonV {
    JsonV::Obj(
        seq![
            ("cniVersion"@, JsonV::Str(version_chars(v.cni_version))),
            ("interfaces"@, JsonV::Arr(interfaces_jv(v.interfaces))),
            ("ips"@, JsonV::Arr(ips_jv(v.ips))),
            ("routes"@, JsonV::Arr(routes_jv(v.routes))),
            ("dns"@, dns_jv(v.dns)),
        ] + v.specific,
    )
}

/// The document of an IPAM success reply.
pub open spec fn ipam_success_jv(v: IpamSuccessV) -> JsonV {
    JsonV::Obj(
        seq![
            ("cniVersion"@, JsonV::Str(version_chars(v.cni_version))),
            ("ips"@, JsonV::Arr(ips_jv(v.ips))),
            ("routes"@, JsonV::Arr(routes_jv(v.routes))),
            ("dns"@, dns_jv(v.dns)),
        ] + v.specific,
    )
}

/// The documents of a list of IP entries, executably.
pub fn ips_to_json(v: &Vec<Ip>) -> (r: Vec<JsonValue>)
    ensures
        deep_arr(r@) == ips_jv(v.deep_view()),
{
    let mut items: Vec<JsonValue> = Vec::new();
    let mut i: usize = 0;
    #[verifier::loop_isolation(false)]
    while i < v.len()
        invariant
            i <= v@.len(),
            deep_arr(items@) == ips_jv(v.deep_view().take(i as int)),
        decreases v@.len() - i,
    {
        let ghost prev = items@;
        items.push(v[i].to_json());
        proof {
            let dv = v.deep_view();
            assert(items@.drop_last() =~= prev);
            assert(deep_arr(items@) == deep_arr(prev).push(items@.last().deep_view()));
            assert(dv.take(i + 1).drop_last() =~= dv.take(i as int));
            assert(dv.take(i + 1).last() == dv[i as int]);
            assert(dv[i as int] == v@[i as int].deep_view());
        }
        i = i + 1;
    }
    proof {
        assert(v.deep_view().take(v@.len() as int) =~= v.deep_view());
    }
    items
}

/// The documents of a list of route entries, executably.
pub fn routes_to_json(v: &Vec<Route>) -> (r: Vec<JsonValue>)
    ensures
        deep_arr(r@) == routes_jv(v.deep_view()),
{
    let mut items: Vec<JsonValue> = Vec::new();
    let mut i: usize = 0;
    #[verifier::loop_isolation(false)]
    while i < v.len()
        invariant
            i <= v@.len(),
            deep_arr(items@) == routes_jv(v.deep_view().take(i as int)),
        decreases v@.len() - i,
    {
        let ghost prev = items@;
        items.push(v[i].to_json());
        proof {
            let dv = v.deep_view();
            assert(items@.drop_last() =~= prev);
            assert(deep_arr(items@) == deep_arr(prev).push(items@.last().deep_view()));
            assert(dv.take(i + 1).drop_last() =~= dv.take(i as int));
            assert(dv.take(i + 1).last() == dv[i as int]);
            assert(dv[i as int] == v@[i as int].deep_view());
        }
        i = i + 1;
    }
    proof {
        assert(v.deep_view().take(v@.len() as int) =~= v.deep_view());
    }
    items
}

/// The documents of a list of interface entries, executably.
pub fn interfaces_to_json(v: &Vec<Interface>) -> (r: Vec<JsonValue>)
    ensures
        deep_arr(r@) == interfaces_jv(v.deep_view()),
{
    let mut items: Vec<JsonValue> = Vec::new();
    let mut i: usize = 0;
    #[verifier::loop_isolation(false)]
    while i < v.len()
        invariant
            i <= v@.len(),
            deep_arr(items@) == interfaces_jv(v.deep_view().take(i as int)),
        decreases v@.len() - i,
    {
        let ghost prev = items@;
        items.push(v[i].to_json());
        proof {
            let dv = v.deep_view();
            assert(items@.drop_last() =~= prev);
            assert(deep_arr(items@) == deep_arr(prev).push(items@.last().deep_view()));
            assert(dv.take(i + 1).drop_last() =~= dv.take(i as int));
            assert(dv.take(i + 1).last() == dv[i as int]);
            assert(dv[i as int] == v@[i as int].deep_view());
        }
        i = i + 1;
    }
    proof {
        assert(v.deep_view().take(v@.len() as int) =~= v.deep_view());
    }
    items
}

/// Fresh copies of custom members.
pub fn copy_members(v: &Vec<(String, JsonValue)>) -> (r: Vec<(String, JsonValue)>)
    ensures
        deep_obj(r@) == deep_obj(v@),
{
    let mut out: Vec<(String, JsonValue)> = Vec::new();
    let mut i: usize = 0;
    proof {
        lemma_deep_obj(v@);
    }
    #[verifier::loop_isolation(false)]
    while i < v.len()
        invariant
            i <= v@.len(),
            out@.len() == i,
            forall|k: int| 0 <= k < i ==> (#[trigger] out@[k]).0@ == v@[k].0@ && out@[k].1.deep_view()
                == v@[k].1.deep_view(),
        decreases v@.len() - i,
    {
        let key = v[i].0.clone();
        let val = crate::json::json_copy(&v[i].1);
        out.push((key, val));
        i = i + 1;
    }
    proof {
        lemma_deep_obj(out@);
        assert(deep_obj(out@) =~= deep_obj(v@));
    }
    out
}

impl SuccessReply {
    /// The document of this reply.
    pub fn to_json(&self) -> (r: JsonValue)
        ensures
            r.deep_view() == success_jv(self.deep_view()),
    {
        let mut members: Vec<(String, JsonValue)> = Vec::new();
        members.push(("cniVersion".to_owned(), JsonValue::Str(self.cni_version.format())));
        members.push(("interfaces".to_owned(), JsonValue::Arr(interfaces_to_json(&self.interfaces))));
        members.push(("ips".to_owned(), JsonValue::Arr(ips_to_json(&self.ips))));
        members.push(("routes".to_owned(), JsonValue::Arr(routes_to_json(&self.routes))));
        members.push(("dns".to_owned(), self.dns.to_json()));
        let mut rest = copy_members(&self.specific);
        proof {
            lemma_deep_obj(members@);
            lemma_deep_obj(rest@);
        }
        let ghost head = members@;
        let ghost rest0 = rest@;
        members.append(&mut rest);
        let r = JsonValue::Obj(members);
        proof {
            lemma_deep_obj_members(r);
            lemma_deep_obj(members@);
            assert(members@ == head + rest0);
            lemma_deep_obj_append(head, rest0);
            assert(deep_obj(members@) == deep_obj(head) + deep_obj(rest0));
            assert(r.deep_view() matches JsonV::Obj(o) && o =~= (
            match success_jv(self.deep_view()) {
                JsonV::Obj(o2) => o2,
                _ => Seq::empty(),
            }));
        }
        r
    }

    /// Casts into an abbreviated IPAM success reply, if the interface
    /// list is empty.
    pub fn into_ipam(self) -> (r: Option<IpamSuccessReply>)
        ensures
            self.interfaces@.len() == 0 ==> (r matches Some(p) && p.deep_view() == (IpamSuccessV {
                cni_version: self.deep_view().cni_version,
                ips: self.deep_view().ips,
                routes: self.deep_view().routes,
                dns: self.deep_view().dns,
                specific: self.deep_view().specific,
            })),
            self.interfaces@.len() != 0 ==> r is None,
    {
        if self.interfaces.len() == 0 {
            Some(
                IpamSuccessReply {
                    cni_version: self.cni_version,
                    ips: self.ips,
                    routes: self.routes,
                    dns: self.dns,
                    specific: self.specific,
                },
            )
        } else {
            None
        }
    }
}

impl IpamSuccessReply {
    /// The document of this reply.
    pub fn to_json(&self) -> (r: JsonValue)
        ensures
            r.deep_view() == ipam_success_jv(self.deep_view()),
    {
        let mut members: Vec<(String, JsonValue)> = Vec::new();
        members.push(("cniVersion".to_owned(), JsonValue::Str(self.cni_version.format())));
        members.push(("ips".to_owned(), JsonValue::Arr(ips_to_json(&self.ips))));
        members.push(("routes".to_owned(), JsonValue::Arr(routes_to_json(&self.routes))));
        members.push(("dns".to_owned(), self.dns.to_json()));
        let mut rest = copy_members(&self.specific);
        proof {
            lemma_deep_obj(members@);
            lemma_deep_obj(rest@);
        }
        let ghost head = members@;
        let ghost rest0 = rest@;
        members.append(&mut rest);
        let r = JsonValue::Obj(members);
        proof {
            lemma_deep_obj_members(r);
            lemma_deep_obj(members@);
            assert(members@ == head + rest0);
            lemma_deep_obj_append(head, rest0);
            assert(deep_obj(members@) == deep_obj(head) + deep_obj(rest0));
            assert(r.deep_view() matches JsonV::Obj(o) && o =~= (
            match ipam_success_jv(self.deep_view()) {
                JsonV::Obj(o2) => o2,
                _ => Seq::empty(),
            }));
        }
        r
    }
}

/// The deep view of concatenated member lists is the concatenation of
/// their deep views.
pub proof fn lemma_deep_obj_append(a: Seq<(String, JsonValue)>, b: Seq<(String, JsonValue)>)
    ensures
        deep_obj(a + b) == deep_obj(a) + deep_obj(b),
    decreases b.len(),
{
    if b.len() == 0 {
        assert(a + b =~= a);
        assert(deep_obj(a) + deep_obj(b) =~= deep_obj(a));
    } else {
        lemma_deep_obj_append(a, b.drop_last());
        assert((a + b).drop_last() =~= a + b.drop_last());
        assert((a + b).last() == b.last());
        assert(deep_obj(a + b) == deep_obj(a + b.drop_last()).push(
            ((a + b).last().0@, (a + b).last().1.deep_view()),
        ));
        assert(deep_obj(a) + deep_obj(b) =~= (deep_obj(a) + deep_obj(b.drop_last())).push(
            (b.last().0@, b.last().1.deep_view()),
        ));
    }
}


// ------------------------------------------------------------------
// Reading replies back (for `prevResult`)
// ------------------------------------------------------------------

/// What a list of documents denotes as addresses.
pub open spec fn addrs_of_jv(s: Seq<JsonV>) -> Option<Seq<AddressV>>
    decreases s.len(),
{
    if s.len() == 0 {
        Some(Seq::empty())
    } else {
        match (addrs_of_jv(s.drop_last()), s.last()) {
            (Some(rest), JsonV::Str(t)) => match crate::ip::ip_of(t) {
                Some(v) => Some(rest.push(AddressV { text: t, value: v })),
                None => None,
            },
            _ => None,
        }
    }
}

/// What a list of documents denotes as strings.
pub open spec fn strs_of_jv(s: Seq<JsonV>) -> Option<Seq<Seq<char>>>
    decreases s.len(),
{
    if s.len() == 0 {
        Some(Seq::empty())
    } else {
        match (strs_of_jv(s.drop_last()), s.last()) {
            (Some(rest), JsonV::Str(t)) => Some(rest.push(t)),
            _ => None,
        }
    }
}

/// What a document denotes as DNS settings. Unknown members are ignored.
pub open spec fn dns_of_jv(j: JsonV) -> Option<DnsV> {
    match j {
        JsonV::Obj(o) => {
            let ns = match obj_get_v(o, "nameservers"@) {
                Some(JsonV::Arr(xs)) => addrs_of_jv(xs),
                Some(_) => None,
                None => Some(Seq::empty()),
            };
            let dom_ok = match obj_get_v(o, "domain"@) {
                Some(JsonV::Str(_)) => true,
                Some(_) => false,
                None => true,
            };
            let se = match obj_get_v(o, "search"@) {
                Some(JsonV::Arr(xs)) => strs_of_jv(xs),
                Some(_) => None,
                None => Some(Seq::empty()),
            };
            let op = match obj_get_v(o, "options"@) {
                Some(JsonV::Arr(xs)) => strs_of_jv(xs),
                Some(_) => None,
                None => Some(Seq::empty()),
            };
            if ns is Some && dom_ok && se is Some && op is Some {
                Some(
                    DnsV {
                        nameservers: ns.unwrap(),
                        domain: match obj_get_v(o, "domain"@) {
                            Some(JsonV::Str(t)) => Some(t),
                            _ => None,
                        },
                        search: se.unwrap(),
                        options: op.unwrap(),
                    },
                )
            } else {
                None
            }
        },
        _ => None,
    }
}

/// What a document denotes as an IPAM success reply: the reply fields,
/// with everything else preserved under `specific`.
pub open spec fn ipam_success_of_jv(j: JsonV) -> Option<IpamSuccessV> {
    match j {
        JsonV::Obj(o) => {
            let ver = match obj_get_v(o, "cniVersion"@) {
                Some(JsonV::Str(vs)) => crate::version::parse_version(vs),
                _ => None,
            };
            let ips = match obj_get_v(o, "ips"@) {
                Some(JsonV::Arr(xs)) => ips_of_jv(xs),
                Some(_) => None,
                None => Some(Seq::empty()),
            };
            let routes = match obj_get_v(o, "routes"@) {
                Some(JsonV::Arr(xs)) => routes_of_jv(xs),
                Some(_) => None,
                None => Some(Seq::empty()),
            };
            let dns = match obj_get_v(o, "dns"@) {
                Some(d) => dns_of_jv(d),
                None => Some(
                    DnsV {
                        nameservers: Seq::empty(),
                        domain: None,
                        search: Seq::empty(),
                        options: Seq::empty(),
                    },
                ),
            };
            if ver is Some && ips is Some && routes is Some && dns is Some {
                Some(
                    IpamSuccessV {
                        cni_version: ver.unwrap(),
                        ips: ips.unwrap(),
                        routes: routes.unwrap(),
                        dns: dns.unwrap(),
                        specific: strip_keys(
                            o,
                            seq!["cniVersion"@, "ips"@, "routes"@, "dns"@],
                        ),
                    },
                )
            } else {
                None
            }
        },
        _ => None,
    }
}

/// What a document denotes as a success reply.
pub open spec fn success_of_jv(j: JsonV) -> Option<SuccessV> {
    match j {
        JsonV::Obj(o) => {
            let ver = match obj_get_v(o, "cniVersion"@) {
                Some(JsonV::Str(vs)) => crate::version::parse_version(vs),
                _ => None,
            };
            let ifs = match obj_get_v(o, "interfaces"@) {
                Some(JsonV::Arr(xs)) => interfaces_of_jv(xs),
                Some(_) => None,
                None => Some(Seq::empty()),
            };
            let ips = match obj_get_v(o, "ips"@) {
                Some(JsonV::Arr(xs)) => ips_of_jv(xs),
                Some(_) => None,
                None => Some(Seq::empty()),
            };
            let routes = match obj_get_v(o, "routes"@) {
                Some(JsonV::Arr(xs)) => routes_of_jv(xs),
                Some(_) => None,
                None => Some(Seq::empty()),
            };
            let dns = match obj_get_v(o, "dns"@) {
                Some(d) => dns_of_jv(d),
                None => Some(
                    DnsV {
                        nameservers: Seq::empty(),
                        domain: None,
                        search: Seq::empty(),
                        options: Seq::empty(),
                    },
                ),
            };
            if ver is Some && ifs is Some && ips is Some && routes is Some && dns is Some {
                Some(
                    SuccessV {
                        cni_version: ver.unwrap(),
                        interfaces: ifs.unwrap(),
                        ips: ips.unwrap(),
                        routes: routes.unwrap(),
                        dns: dns.unwrap(),
                        specific: strip_keys(
                            o,
                            seq!["cniVersion"@, "interfaces"@, "ips"@, "routes"@, "dns"@],
                        ),
                    },
                )
            } else {
                None
            }
        },
        _ => None,
    }
}

/// A failed member fails its whole list.
proof fn lemma_ips_of_bad(s: Seq<JsonV>, k: int)
    requires
        0 <= k < s.len(),
        ip_of_jv(s[k]) is None,
    ensures
        ips_of_jv(s) is None,
    decreases s.len(),
{
    if k == s.len() - 1 {
    } else {
        assert(s.drop_last()[k] == s[k]);
        lemma_ips_of_bad(s.drop_last(), k);
    }
}

/// A failed member fails its whole list.
proof fn lemma_routes_of_bad(s: Seq<JsonV>, k: int)
    requires
        0 <= k < s.len(),
        route_of_jv(s[k]) is None,
    ensures
        routes_of_jv(s) is None,
    decreases s.len(),
{
    if k == s.len() - 1 {
    } else {
        assert(s.drop_last()[k] == s[k]);
        lemma_routes_of_bad(s.drop_last(), k);
    }
}

/// A failed member fails its whole list.
proof fn lemma_interfaces_of_bad(s: Seq<JsonV>, k: int)
    requires
        0 <= k < s.len(),
        interface_of_jv(s[k]) is None,
    ensures
        interfaces_of_jv(s) is None,
    decreases s.len(),
{
    if k == s.len() - 1 {
    } else {
        assert(s.drop_last()[k] == s[k]);
        lemma_interfaces_of_bad(s.drop_last(), k);
    }
}

/// A failed member fails its whole list.
proof fn lemma_addrs_of_bad(s: Seq<JsonV>, k: int)
    requires
        0 <= k < s.len(),
        match s[k] {
            JsonV::Str(t) => crate::ip::ip_of(t) is None,
            _ => true,
        },
    ensures
        addrs_of_jv(s) is None,
    decreases s.len(),
{
    if k == s.len() - 1 {
    } else {
        assert(s.drop_last()[k] == s[k]);
        lemma_addrs_of_bad(s.drop_last(), k);
    }
}

/// A failed member fails its whole list.
proof fn lemma_strs_of_bad(s: Seq<JsonV>, k: int)
    requires
        0 <= k < s.len(),
        !(s[k] is Str),
    ensures
        strs_of_jv(s) is None,
    decreases s.len(),
{
    if k == s.len() - 1 {
    } else {
        assert(s.drop_last()[k] == s[k]);
        lemma_strs_of_bad(s.drop_last(), k);
    }
}

/// Reads a list of IP entries.
fn ips_from_json(items: &Vec<JsonValue>) -> (r: Option<Vec<Ip>>)
    ensures
        match r {
            Some(v) => ips_of_jv(deep_arr(items@)) == Some(v.deep_view()) && forall|k: int|
                0 <= k < v@.len() ==> (#[trigger] v@[k]).wf(),
            None => ips_of_jv(deep_arr(items@)) is None,
        },
{
    proof {
        lemma_deep_arr(items@);
    }
    let mut out: Vec<Ip> = Vec::new();
    let mut i: usize = 0;
    #[verifier::loop_isolation(false)]
    while i < items.len()
        invariant
            i <= items@.len(),
            ips_of_jv(deep_arr(items@).take(i as int)) == Some(out.deep_view()),
            forall|k: int| 0 <= k < out@.len() ==> (#[trigger] out@[k]).wf(),
        decreases items@.len() - i,
    {
        match Ip::from_json(&items[i]) {
            Some(v) => {
                out.push(v);
                proof {
                    assert(deep_arr(items@).take(i + 1).drop_last() =~= deep_arr(items@).take(
                        i as int,
                    ));
                    assert(deep_arr(items@).take(i + 1).last() == deep_arr(items@)[i as int]);
                    assert(out.deep_view() =~= out.deep_view());
                }
            },
            None => {
                proof {
                    lemma_ips_of_bad(deep_arr(items@), i as int);
                }
                return None;
            },
        }
        i = i + 1;
    }
    proof {
        assert(deep_arr(items@).take(items@.len() as int) =~= deep_arr(items@));
    }
    Some(out)
}

/// Reads a list of route entries.
fn routes_from_json(items: &Vec<JsonValue>) -> (r: Option<Vec<Route>>)
    ensures
        match r {
            Some(v) => routes_of_jv(deep_arr(items@)) == Some(v.deep_view()),
            None => routes_of_jv(deep_arr(items@)) is None,
        },
{
    proof {
        lemma_deep_arr(items@);
    }
    let mut out: Vec<Route> = Vec::new();
    let mut i: usize = 0;
    #[verifier::loop_isolation(false)]
    while i < items.len()
        invariant
            i <= items@.len(),
            routes_of_jv(deep_arr(items@).take(i as int)) == Some(out.deep_view()),
        decreases items@.len() - i,
    {
        match Route::from_json(&items[i]) {
            Some(v) => {
                out.push(v);
                proof {
                    assert(deep_arr(items@).take(i + 1).drop_last() =~= deep_arr(items@).take(
                        i as int,
                    ));
                    assert(deep_arr(items@).take(i + 1).last() == deep_arr(items@)[i as int]);
                }
            },
            None => {
                proof {
                    lemma_routes_of_bad(deep_arr(items@), i as int);
                }
                return None;
            },
        }
        i = i + 1;
    }
    proof {
        assert(deep_arr(items@).take(items@.len() as int) =~= deep_arr(items@));
    }
    Some(out)
}

/// Reads a list of interface entries.
fn interfaces_from_json(items: &Vec<JsonValue>) -> (r: Option<Vec<Interface>>)
    ensures
        match r {
            Some(v) => interfaces_of_jv(deep_arr(items@)) == Some(v.deep_view()),
            None => interfaces_of_jv(deep_arr(items@)) is None,
        },
{
    proof {
        lemma_deep_arr(items@);
    }
    let mut out: Vec<Interface> = Vec::new();
    let mut i: usize = 0;
    #[verifier::loop_isolation(false)]
    while i < items.len()
        invariant
            i <= items@.len(),
            interfaces_of_jv(deep_arr(items@).take(i as int)) == Some(out.deep_view()),
        decreases items@.len() - i,
    {
        match Interface::from_json(&items[i]) {
            Some(v) => {
                out.push(v);
                proof {
                    assert(deep_arr(items@).take(i + 1).drop_last() =~= deep_arr(items@).take(
                        i as int,
                    ));
                    assert(deep_arr(items@).take(i + 1).last() == deep_arr(items@)[i as int]);
                }
            },
            None => {
                proof {
                    lemma_interfaces_of_bad(deep_arr(items@), i as int);
                }
                return None;
            },
        }
        i = i + 1;
    }
    proof {
        assert(deep_arr(items@).take(items@.len() as int) =~= deep_arr(items@));
    }
    Some(out)
}

impl Dns {
    /// Reads DNS settings out of a document. Unknown members are ignored.
    pub fn from_json(j: &JsonValue) -> (r: Option<Dns>)
        ensures
            match r {
                Some(v) => dns_of_jv(j.deep_view()) == Some(v.deep_view()),
                None => dns_of_jv(j.deep_view()) is None,
            },
    {
        let o = match crate::json::json_as_obj(j) {
            Some(o) => o,
            None => {
                return None;
            },
        };
        let nameservers: Vec<Address> = match crate::json::obj_get(o, "nameservers") {
            Some(v) => {
                let xs = match crate::json::json_as_arr(v) {
                    Some(xs) => xs,
                    None => {
                        return None;
                    },
                };
                proof {
                    lemma_deep_arr(xs@);
                }
                let mut out: Vec<Address> = Vec::new();
                let mut i: usize = 0;
                #[verifier::loop_isolation(false)]
                loop
                    invariant
                        i <= xs@.len(),
                        addrs_of_jv(deep_arr(xs@).take(i as int)) == Some(out.deep_view()),
                    decreases xs@.len() - i,
                {
                    if i >= xs.len() {
                        break ;
                    }
                    let t = match crate::json::json_as_str(&xs[i]) {
                        Some(t) => t,
                        None => {
                            proof {
                                lemma_addrs_of_bad(deep_arr(xs@), i as int);
                            }
                            return None;
                        },
                    };
                    match Address::parse(t.as_str()) {
                        Some(a) => {
                            out.push(a);
                            proof {
                                assert(deep_arr(xs@).take(i + 1).drop_last() =~= deep_arr(
                                    xs@,
                                ).take(i as int));
                                assert(deep_arr(xs@).take(i + 1).last() == deep_arr(
                                    xs@,
                                )[i as int]);
                            }
                        },
                        None => {
                            proof {
                                lemma_addrs_of_bad(deep_arr(xs@), i as int);
                            }
                            return None;
                        },
                    }
                    i = i + 1;
                }
                proof {
                    assert(deep_arr(xs@).take(xs@.len() as int) =~= deep_arr(xs@));
                }
                out
            },
            None => empty_vec(),
        };
        let domain = match crate::json::obj_get(o, "domain") {
            Some(v) => match crate::json::json_as_str(v) {
                Some(t) => Some(t.clone()),
                None => {
                    return None;
                },
            },
            None => None,
        };
        let search = match crate::json::obj_get(o, "search") {
            Some(v) => match crate::json::json_as_arr(v) {
                Some(xs) => match strings_from_json(xs) {
                    Some(ss) => ss,
                    None => {
                        return None;
                    },
                },
                None => {
                    return None;
                },
            },
            None => empty_vec(),
        };
        let options = match crate::json::obj_get(o, "options") {
            Some(v) => match crate::json::json_as_arr(v) {
                Some(xs) => match strings_from_json(xs) {
                    Some(ss) => ss,
                    None => {
                        return None;
                    },
                },
                None => {
                    return None;
                },
            },
            None => empty_vec(),
        };
        let d = Dns { nameservers, domain, search, options };
        Some(d)
    }
}

/// Reads a list of strings.
fn strings_from_json(items: &Vec<JsonValue>) -> (r: Option<Vec<String>>)
    ensures
        match r {
            Some(v) => strs_of_jv(deep_arr(items@)) == Some(v.deep_view()),
            None => strs_of_jv(deep_arr(items@)) is None,
        },
{
    proof {
        lemma_deep_arr(items@);
    }
    let mut out: Vec<String> = Vec::new();
    let mut i: usize = 0;
    #[verifier::loop_isolation(false)]
    while i < items.len()
        invariant
            i <= items@.len(),
            strs_of_jv(deep_arr(items@).take(i as int)) == Some(out.deep_view()),
        decreases items@.len() - i,
    {
        match crate::json::json_as_str(&items[i]) {
            Some(t) => {
                out.push(t.clone());
                proof {
                    assert(deep_arr(items@).take(i + 1).drop_last() =~= deep_arr(items@).take(
                        i as int,
                    ));
                    assert(deep_arr(items@).take(i + 1).last() == deep_arr(items@)[i as int]);
                }
            },
            None => {
                proof {
                    lemma_strs_of_bad(deep_arr(items@), i as int);
                }
                return None;
            },
        }
        i = i + 1;
    }
    proof {
        assert(deep_arr(items@).take(items@.len() as int) =~= deep_arr(items@));
    }
    Some(out)
}

/// Keeps the members whose keys are none of the four given.
#[verifier::loop_isolation(false)]
pub fn strip_members(o: &Vec<(String, JsonValue)>, keys: &Vec<String>) -> (r: Vec<
    (String, JsonValue),
>)
    ensures
        deep_obj(r@) == strip_keys(deep_obj(o@), keys.deep_view()),
{
    proof {
        lemma_deep_obj(o@);
        assert(deep_obj(o@).skip(0) =~= deep_obj(o@));
    }
    let mut out: Vec<(String, JsonValue)> = Vec::new();
    let mut i: usize = 0;
    while i < o.len()
        invariant
            i <= o@.len(),
            strip_keys(deep_obj(o@), keys.deep_view()) == deep_obj(out@) + strip_keys(
                deep_obj(o@).skip(i as int),
                keys.deep_view(),
            ),
        decreases o@.len() - i,
    {
        let ghost dv = deep_obj(o@);
        let ghost tail = dv.skip(i as int);
        proof {
            assert(tail.len() > 0);
            assert(tail[0] == dv[i as int]);
            assert(tail.drop_first() =~= dv.skip(i + 1));
        }
        let mut matched = false;
        let mut k: usize = 0;
        while k < keys.len()
            invariant
                k <= keys@.len(),
                matched == exists|x: int| 0 <= x < k && keys.deep_view()[x] == o@[i as int].0@,
            decreases keys@.len() - k,
        {
            proof {
                assert(keys.deep_view()[k as int] == keys@[k as int]@);
            }
            if crate::json::str_eq(keys[k].as_str(), o[i].0.as_str()) {
                matched = true;
            }
            k = k + 1;
        }
        proof {
            assert(matched == keys.deep_view().contains(dv[i as int].0));
        }
        if !matched {
            let ghost prev = out@;
            let key = o[i].0.clone();
            let val = crate::json::json_copy(&o[i].1);
            out.push((key, val));
            proof {
                assert(out@.drop_last() =~= prev);
                assert(deep_obj(out@) == deep_obj(prev).push(
                    (out@.last().0@, out@.last().1.deep_view()),
                ));
                assert(deep_obj(prev).push((dv[i as int].0, dv[i as int].1)) =~= deep_obj(prev)
                    + seq![dv[i as int]]);
                assert(strip_keys(tail, keys.deep_view()) == seq![dv[i as int]] + strip_keys(
                    tail.drop_first(),
                    keys.deep_view(),
                ));
                assert(deep_obj(prev) + (seq![dv[i as int]] + strip_keys(
                    dv.skip(i + 1),
                    keys.deep_view(),
                )) =~= deep_obj(out@) + strip_keys(dv.skip(i + 1), keys.deep_view()));
            }
        } else {
            proof {
                assert(strip_keys(tail, keys.deep_view()) == strip_keys(
                    dv.skip(i + 1),
                    keys.deep_view(),
                ));
            }
        }
        i = i + 1;
    }
    proof {
        assert(deep_obj(o@).skip(o@.len() as int) =~= Seq::<(Seq<char>, JsonV)>::empty());
        assert(deep_obj(out@) + Seq::<(Seq<char>, JsonV)>::empty() =~= deep_obj(out@));
    }
    out
}

impl IpamSuccessReply {
    /// Reads an IPAM success reply out of a document; everything but the
    /// reply fields is preserved under `specific`.
    #[verifier::rlimit(100)]
    pub fn from_json(j: &JsonValue) -> (r: Option<IpamSuccessReply>)
        ensures
            match r {
                Some(v) => ipam_success_of_jv(j.deep_view()) == Some(v.deep_view()),
                None => ipam_success_of_jv(j.deep_view()) is None,
            },
    {
        let o = match crate::json::json_as_obj(j) {
            Some(o) => o,
            None => {
                return None;
            },
        };
        let cni_version = match crate::json::obj_get(o, "cniVersion") {
            Some(v) => match crate::json::json_as_str(v) {
                Some(t) => match Version::parse(t.as_str()) {
                    Some(ver) => ver,
                    None => {
                        return None;
                    },
                },
                None => {
                    return None;
                },
            },
            None => {
                return None;
            },
        };
        let ips = match crate::json::obj_get(o, "ips") {
            Some(v) => match crate::json::json_as_arr(v) {
                Some(xs) => match ips_from_json(xs) {
                    Some(v2) => v2,
                    None => {
                        return None;
                    },
                },
                None => {
                    return None;
                },
            },
            None => empty_vec(),
        };
        let routes = match crate::json::obj_get(o, "routes") {
            Some(v) => match crate::json::json_as_arr(v) {
                Some(xs) => match routes_from_json(xs) {
                    Some(v2) => v2,
                    None => {
                        return None;
                    },
                },
                None => {
                    return None;
                },
            },
            None => empty_vec(),
        };
        let dns = match crate::json::obj_get(o, "dns") {
            Some(v) => match Dns::from_json(v) {
                Some(d) => d,
                None => {
                    return None;
                },
            },
            None => Dns::empty(),
        };
        let mut keys: Vec<String> = Vec::new();
        keys.push("cniVersion".to_owned());
        keys.push("ips".to_owned());
        keys.push("routes".to_owned());
        keys.push("dns".to_owned());
        proof {
            assert(keys.deep_view() =~= seq!["cniVersion"@, "ips"@, "routes"@, "dns"@]);
        }
        let specific = strip_members(o, &keys);
        let r = IpamSuccessReply { cni_version, ips, routes, dns, specific };
        Some(r)
    }
}

impl SuccessReply {
    /// Reads a success reply out of a document; everything but the reply
    /// fields is preserved under `specific`.
    #[verifier::rlimit(100)]
    pub fn from_json(j: &JsonValue) -> (r: Option<SuccessReply>)
        ensures
            match r {
                Some(v) => success_of_jv(j.deep_view()) == Some(v.deep_view()),
                None => success_of_jv(j.deep_view()) is None,
            },
    {
        let o = match crate::json::json_as_obj(j) {
            Some(o) => o,
            None => {
                return None;
            },
        };
        let cni_version = match crate::json::obj_get(o, "cniVersion") {
            Some(v) => match crate::json::json_as_str(v) {
                Some(t) => match Version::parse(t.as_str()) {
                    Some(ver) => ver,
                    None => {
                        return None;
                    },
                },
                None => {
                    return None;
                },
            },
            None => {
                return None;
            },
        };
        let interfaces = match crate::json::obj_get(o, "interfaces") {
            Some(v) => match crate::json::json_as_arr(v) {
                Some(xs) => match interfaces_from_json(xs) {
                    Some(v2) => v2,
                    None => {
                        return None;
                    },
                },
                None => {
                    return None;
                },
            },
            None => empty_vec(),
        };
        let ips = match crate::json::obj_get(o, "ips") {
            Some(v) => match crate::json::json_as_arr(v) {
                Some(xs) => match ips_from_json(xs) {
                    Some(v2) => v2,
                    None => {
                        return None;
                    },
                },
                None => {
                    return None;
                },
            },
            None => empty_vec(),
        };
        let routes = match crate::json::obj_get(o, "routes") {
            Some(v) => match crate::json::json_as_arr(v) {
                Some(xs) => match routes_from_json(xs) {
                    Some(v2) => v2,
                    None => {
                        return None;
                    },
                },
                None => {
                    return None;
                },
            },
            None => empty_vec(),
        };
        let dns = match crate::json::obj_get(o, "dns") {
            Some(v) => match Dns::from_json(v) {
                Some(d) => d,
                None => {
                    return None;
                },
            },
            None => Dns::empty(),
        };
        let mut keys: Vec<String> = Vec::new();
        keys.push("cniVersion".to_owned());
        keys.push("interfaces".to_owned());
        keys.push("ips".to_owned());
        keys.push("routes".to_owned());
        keys.push("dns".to_owned());
        proof {
            assert(keys.deep_view() =~= seq![
                "cniVersion"@,
                "interfaces"@,
                "ips"@,
                "routes"@,
                "dns"@,
            ]);
        }
        let specific = strip_members(o, &keys);
        let r = SuccessReply { cni_version, interfaces, ips, routes, dns, specific };
        Some(r)
    }
}

impl ReplyPayload for SuccessReply {
    open spec fn spec_code(&self) -> int {
        0
    }

    fn code(&self) -> (r: i32) {
        0
    }
}

impl ReplyPayload for IpamSuccessReply {
    open spec fn spec_code(&self) -> int {
        0
    }

    fn code(&self) -> (r: i32) {
        0
    }
}

// ------------------------------------------------------------------
// Error replies
// ------------------------------------------------------------------

/// The reply structure used when returning an error.
pub struct ErrorReply {
    /// The CNI version of the plugin input config.
    pub cni_version: Version,
    /// The error code; doubles as the exit status.
    pub code: i32,
    /// A short static message characterising the error.
    pub msg: String,
    /// A longer description of the error.
    pub details: String,
}

/// The parts of an error reply, in specification land.
pub ghost struct ErrorReplyV {
    pub cni_version: VersionV,
    pub code: int,
    pub msg: Seq<char>,
    pub details: Seq<char>,
}

impl vstd::prelude::DeepView for ErrorReply {
    type V = ErrorReplyV;

    open spec fn deep_view(&self) -> ErrorReplyV {
        ErrorReplyV {
            cni_version: self.cni_version.deep_view(),
            code: self.code as int,
            msg: self.msg@,
            details: self.details@,
        }
    }
}

/// The document of an error reply.
pub open spec fn error_reply_jv(v: ErrorReplyV) -> JsonV {
    JsonV::Obj(
        seq![
            ("cniVersion"@, JsonV::Str(version_chars(v.cni_version))),
            ("code"@, JsonV::Num(dec_chars(v.code as nat))),
            ("msg"@, JsonV::Str(v.msg)),
            ("details"@, JsonV::Str(v.details)),
        ],
    )
}

impl ErrorReply {
    /// The document of this reply.
    pub fn to_json(&self) -> (r: JsonValue)
        requires
            self.code >= 0,
        ensures
            r.deep_view() == error_reply_jv(self.deep_view()),
    {
        let mut members: Vec<(String, JsonValue)> = Vec::new();
        members.push(("cniVersion".to_owned(), JsonValue::Str(self.cni_version.format())));
        let mut cs: Vec<char> = Vec::new();
        crate::text::push_u64_digits(self.code as u64, &mut cs);
        members.push(("code".to_owned(), JsonValue::Num(chars_to_string(&cs))));
        members.push(("msg".to_owned(), JsonValue::Str(self.msg.clone())));
        members.push(("details".to_owned(), JsonValue::Str(self.details.clone())));
        let r = JsonValue::Obj(members);
        proof {
            lemma_deep_obj_members(r);
            lemma_deep_obj(members@);
            assert(r.deep_view() matches JsonV::Obj(o) && o =~= (
            match error_reply_jv(self.deep_view()) {
                JsonV::Obj(o2) => o2,
                _ => Seq::empty(),
            }));
        }
        r
    }
}

impl ReplyPayload for ErrorReply {
    open spec fn spec_code(&self) -> int {
        self.code as int
    }

    fn code(&self) -> (r: i32) {
        self.code
    }
}

// ------------------------------------------------------------------
// Version replies
// ------------------------------------------------------------------

/// The reply structure used when returning for a `VERSION` command.
pub struct VersionReply {
    /// The CNI version of the plugin input config.
    pub cni_version: Version,
    /// The versions this plugin supports.
    pub supported_versions: Vec<Version>,
}

/// The documents of a list of versions, as strings.
pub open spec fn versions_jv(s: Seq<VersionV>) -> Seq<JsonV>
    decreases s.len(),
{
    if s.len() == 0 {
        Seq::empty()
    } else {
        versions_jv(s.drop_last()).push(JsonV::Str(version_chars(s.last())))
    }
}

/// The document of a version reply.
pub open spec fn version_reply_jv(cni_version: VersionV, supported: Seq<VersionV>) -> JsonV {
    JsonV::Obj(
        seq![
            ("cniVersion"@, JsonV::Str(version_chars(cni_version))),
            ("supportedVersions"@, JsonV::Arr(versions_jv(supported))),
        ],
    )
}

/// The spec version 0.4.0.
pub open spec fn v040() -> VersionV {
    VersionV { major: 0, minor: 4, patch: 0, pre: Seq::empty(), build: Seq::empty() }
}

/// The spec version 1.0.0.
pub open spec fn v100() -> VersionV {
    VersionV { major: 1, minor: 0, patch: 0, pre: Seq::empty(), build: Seq::empty() }
}

impl VersionReply {
    /// The reply for a `VERSION` command: the statically supported
    /// versions, with the runtime's own version added when this plugin
    /// understands it.
    ///
    /// The reply always offers 0.4.0 and 1.0.0; it offers the input
    /// version exactly when that version is compatible.
    pub fn build(input: &Version) -> (r: VersionReply)
        ensures
            r.cni_version.deep_view() == input.deep_view(),
            r.supported_versions.deep_view().contains(v040()),
            r.supported_versions.deep_view().contains(v100()),
            compatible(input.deep_view()) ==> r.supported_versions.deep_view().contains(
                input.deep_view(),
            ),
            forall|v: VersionV| r.supported_versions.deep_view().contains(v) ==> v == v040() || v
                == v100() || (v == input.deep_view() && compatible(input.deep_view())),
            forall|i: int, k: int|
                0 <= i < k < r.supported_versions.deep_view().len()
                    ==> #[trigger] r.supported_versions.deep_view()[i]
                    != #[trigger] r.supported_versions.deep_view()[k],
    {
        let a = Version::numeric(0, 4, 0);
        let b = Version::numeric(1, 0, 0);
        let mut supported: Vec<Version> = Vec::new();
        let add_input = input.is_compatible() && !input.same(&a) && !input.same(&b);
        supported.push(a);
        supported.push(b);
        if add_input {
            supported.push(input.copied());
        }
        let r = VersionReply { cni_version: input.copied(), supported_versions: supported };
        proof {
            let dv = r.supported_versions.deep_view();
            assert(dv[0] == v040());
            assert(dv[1] == v100());
            if add_input {
                assert(dv[2] == input.deep_view());
            }
            assert forall|v: VersionV| dv.contains(v) implies v == v040() || v == v100() || (v
                == input.deep_view() && compatible(input.deep_view())) by {
                let i = choose|i: int| 0 <= i < dv.len() && dv[i] == v;
                assert(i == 0 || i == 1 || i == 2);
            }
        }
        r
    }

    /// The document of this reply.
    pub fn to_json(&self) -> (r: JsonValue)
        ensures
            r.deep_view() == version_reply_jv(
                self.cni_version.deep_view(),
                self.supported_versions.deep_view(),
            ),
    {
        let mut members: Vec<(String, JsonValue)> = Vec::new();
        members.push(("cniVersion".to_owned(), JsonValue::Str(self.cni_version.format())));
        let mut items: Vec<JsonValue> = Vec::new();
        let mut i: usize = 0;
        #[verifier::loop_isolation(false)]
        while i < self.supported_versions.len()
            invariant
                i <= self.supported_versions@.len(),
                deep_arr(items@) == versions_jv(self.supported_versions.deep_view().take(i as int)),
            decreases self.supported_versions@.len() - i,
        {
            let ghost prev = items@;
            items.push(JsonValue::Str(self.supported_versions[i].format()));
            proof {
                let dv = self.supported_versions.deep_view();
                assert(items@.drop_last() =~= prev);
                assert(deep_arr(items@) == deep_arr(prev).push(items@.last().deep_view()));
                assert(dv.take(i + 1).drop_last() =~= dv.take(i as int));
                assert(dv.take(i + 1).last() == dv[i as int]);
                assert(dv[i as int] == self.supported_versions@[i as int].deep_view());
            }
            i = i + 1;
        }
        proof {
            assert(self.supported_versions.deep_view().take(
                self.supported_versions@.len() as int,
            ) =~= self.supported_versions.deep_view());
        }
        members.push(("supportedVersions".to_owned(), JsonValue::Arr(items)));
        let r = JsonValue::Obj(members);
        proof {
            lemma_deep_obj_members(r);
            lemma_deep_obj(members@);
            assert(r.deep_view() matches JsonV::Obj(o) && o =~= (match version_reply_jv(
                self.cni_version.deep_view(),
                self.supported_versions.deep_view(),
            ) {
                JsonV::Obj(o2) => o2,
                _ => Seq::empty(),
            }));
        }
        r
    }
}

impl ReplyPayload for VersionReply {
    open spec fn spec_code(&self) -> int {
        0
    }

    fn code(&self) -> (r: i32) {
        0
    }
}


/// Stripping distributes over concatenation.
pub proof fn lemma_strip_concat(a: Seq<(Seq<char>, JsonV)>, b: Seq<(Seq<char>, JsonV)>, keys: Seq<Seq<char>>)
    ensures
        strip_keys(a + b, keys) == strip_keys(a, keys) + strip_keys(b, keys),
    decreases a.len(),
{
    if a.len() == 0 {
        assert(a + b =~= b);
        assert(strip_keys(a, keys) + strip_keys(b, keys) =~= strip_keys(b, keys));
    } else {
        assert((a + b)[0] == a[0]);
        assert((a + b).drop_first() =~= a.drop_first() + b);
        lemma_strip_concat(a.drop_first(), b, keys);
        if keys.contains(a[0].0) {
        } else {
            assert(seq![a[0]] + (strip_keys(a.drop_first(), keys) + strip_keys(b, keys)) =~= (
            seq![a[0]] + strip_keys(a.drop_first(), keys)) + strip_keys(b, keys));
        }
    }
}

/// What stripping leaves: no member with a stripped key.
pub proof fn lemma_strip_no_keys(o: Seq<(Seq<char>, JsonV)>, keys: Seq<Seq<char>>)
    ensures
        forall|i: int| 0 <= i < strip_keys(o, keys).len() ==> !keys.contains(
            (#[trigger] strip_keys(o, keys)[i]).0,
        ),
    decreases o.len(),
{
    if o.len() > 0 {
        lemma_strip_no_keys(o.drop_first(), keys);
        let rest = strip_keys(o.drop_first(), keys);
        if !keys.contains(o[0].0) {
            assert forall|i: int| 0 <= i < strip_keys(o, keys).len() implies !keys.contains(
                (#[trigger] strip_keys(o, keys)[i]).0,
            ) by {
                if i > 0 {
                    assert(strip_keys(o, keys)[i] == rest[i - 1]);
                }
            }
        }
    }
}

/// Members that hold none of the keys are left as they stand.
pub proof fn lemma_strip_id(o: Seq<(Seq<char>, JsonV)>, keys: Seq<Seq<char>>)
    requires
        forall|i: int| 0 <= i < o.len() ==> !keys.contains((#[trigger] o[i]).0),
    ensures
        strip_keys(o, keys) == o,
    decreases o.len(),
{
    if o.len() > 0 {
        assert(!keys.contains(o[0].0));
        assert forall|i: int| 0 <= i < o.drop_first().len() implies !keys.contains(
            (#[trigger] o.drop_first()[i]).0,
        ) by {
            assert(o.drop_first()[i] == o[i + 1]);
        }
        lemma_strip_id(o.drop_first(), keys);
        assert(seq![o[0]] + o.drop_first() =~= o);
    }
}

/// A stripped list has no binding for a stripped key.
pub proof fn lemma_strip_get_none(o: Seq<(Seq<char>, JsonV)>, keys: Seq<Seq<char>>, k: Seq<char>)
    requires
        keys.contains(k),
    ensures
        !crate::json::has_key(strip_keys(o, keys), k),
{
    lemma_strip_no_keys(o, keys);
    if crate::json::has_key(strip_keys(o, keys), k) {
        let i = choose|i: int| 0 <= i < strip_keys(o, keys).len() && strip_keys(o, keys)[i].0
            == k;
    }
}

/// Reading an address list back from its printed strings yields the
/// addresses, when each one's text denotes its value.
pub proof fn lemma_addrs_round_trip(ns: Seq<AddressV>)
    requires
        forall|k: int| 0 <= k < ns.len() ==> crate::ip::ip_of((#[trigger] ns[k]).text) == Some(
            ns[k].value,
        ),
    ensures
        addrs_of_jv(addr_strs_jv(ns)) == Some(ns),
    decreases ns.len(),
{
    if ns.len() > 0 {
        assert forall|k: int| 0 <= k < ns.drop_last().len() implies crate::ip::ip_of(
            (#[trigger] ns.drop_last()[k]).text,
        ) == Some(ns.drop_last()[k].value) by {
            assert(ns.drop_last()[k] == ns[k]);
        }
        lemma_addrs_round_trip(ns.drop_last());
        let s = addr_strs_jv(ns);
        assert(s.drop_last() =~= addr_strs_jv(ns.drop_last()));
        assert(s.last() == JsonV::Str(ns.last().text));
        assert(crate::ip::ip_of(ns.last().text) == Some(ns.last().value));
        assert(ns.drop_last().push(AddressV { text: ns.last().text, value: ns.last().value })
            =~= ns);
    }
}

/// Reading a string list back from its printed strings yields the
/// strings.
pub proof fn lemma_strs_round_trip(ss: Seq<Seq<char>>)
    ensures
        strs_of_jv(strs_jv(ss)) == Some(ss),
    decreases ss.len(),
{
    if ss.len() > 0 {
        lemma_strs_round_trip(ss.drop_last());
        let s = strs_jv(ss);
        assert(s.drop_last() =~= strs_jv(ss.drop_last()));
        assert(s.last() == JsonV::Str(ss.last()));
        assert(ss.drop_last().push(ss.last()) =~= ss);
    }
}

/// Whether every address of DNS settings parses back from its text.
pub open spec fn dns_v_wf(d: DnsV) -> bool {
    forall|k: int| 0 <= k < d.nameservers.len() ==> crate::ip::ip_of(
        (#[trigger] d.nameservers[k]).text,
    ) == Some(d.nameservers[k].value)
}

/// DNS settings parsed out of any document have that property.
pub proof fn lemma_dns_of_wf(j: JsonV)
    requires
        dns_of_jv(j) is Some,
    ensures
        dns_v_wf(dns_of_jv(j).unwrap()),
{
    match j {
        JsonV::Obj(o) => {
            match obj_get_v(o, "nameservers"@) {
                Some(JsonV::Arr(xs)) => {
                    lemma_addrs_of_wf(xs);
                },
                _ => {},
            }
        },
        _ => {},
    }
}

/// Addresses read from documents parse back from their text.
pub proof fn lemma_addrs_of_wf(xs: Seq<JsonV>)
    requires
        addrs_of_jv(xs) is Some,
    ensures
        forall|k: int| 0 <= k < addrs_of_jv(xs).unwrap().len() ==> crate::ip::ip_of(
            (#[trigger] addrs_of_jv(xs).unwrap()[k]).text,
        ) == Some(addrs_of_jv(xs).unwrap()[k].value),
    decreases xs.len(),
{
    if xs.len() > 0 {
        lemma_addrs_of_wf(xs.drop_last());
        let ns = addrs_of_jv(xs).unwrap();
        let rest = addrs_of_jv(xs.drop_last()).unwrap();
        assert forall|k: int| 0 <= k < ns.len() implies crate::ip::ip_of(
            (#[trigger] ns[k]).text,
        ) == Some(ns[k].value) by {
            if k < ns.len() - 1 {
                assert(ns[k] == rest[k]);
            }
        }
    }
}

/// Reading DNS settings back from their printed document yields the
/// settings, when every address's text denotes its value.
#[verifier::rlimit(100)]
pub proof fn lemma_dns_round_trip(d: DnsV)
    requires
        dns_v_wf(d),
    ensures
        dns_of_jv(dns_jv(d)) == Some(d),
{
    reveal_strlit("nameservers");
    reveal_strlit("domain");
    reveal_strlit("search");
    reveal_strlit("options");
    assert("nameservers"@.len() == 11 && "domain"@.len() == 6 && "search"@.len() == 6
        && "options"@.len() == 7);
    assert("search"@[0] == 's' && "domain"@[0] == 'd');
    assert("nameservers"@ != "domain"@ && "nameservers"@ != "search"@ && "nameservers"@
        != "options"@ && "domain"@ != "search"@ && "domain"@ != "options"@ && "search"@
        != "options"@);
    let ns_m = if d.nameservers.len() > 0 {
        seq![("nameservers"@, JsonV::Arr(addr_strs_jv(d.nameservers)))]
    } else {
        Seq::<(Seq<char>, JsonV)>::empty()
    };
    let dom_m = match d.domain {
        Some(t) => seq![("domain"@, JsonV::Str(t))],
        None => Seq::<(Seq<char>, JsonV)>::empty(),
    };
    let se_m = if d.search.len() > 0 {
        seq![("search"@, JsonV::Arr(strs_jv(d.search)))]
    } else {
        Seq::<(Seq<char>, JsonV)>::empty()
    };
    let op_m = if d.options.len() > 0 {
        seq![("options"@, JsonV::Arr(strs_jv(d.options)))]
    } else {
        Seq::<(Seq<char>, JsonV)>::empty()
    };
    let o = ns_m + dom_m + se_m + op_m;
    assert(dns_jv(d) == JsonV::Obj(o));
    lemma_addrs_round_trip(d.nameservers);
    lemma_strs_round_trip(d.search);
    lemma_strs_round_trip(d.options);
    dns_key_lookup(d, ns_m, dom_m, se_m, op_m, o, "nameservers"@);
    dns_key_lookup(d, ns_m, dom_m, se_m, op_m, o, "domain"@);
    dns_key_lookup(d, ns_m, dom_m, se_m, op_m, o, "search"@);
    dns_key_lookup(d, ns_m, dom_m, se_m, op_m, o, "options"@);
    assert(obj_get_v(o, "nameservers"@) == (if d.nameservers.len() > 0 {
        Some(JsonV::Arr(addr_strs_jv(d.nameservers)))
    } else {
        None
    }));
    assert(obj_get_v(o, "domain"@) == (match d.domain {
        Some(t) => Some(JsonV::Str(t)),
        None => None,
    }));
    assert(obj_get_v(o, "search"@) == (if d.search.len() > 0 {
        Some(JsonV::Arr(strs_jv(d.search)))
    } else {
        None
    }));
    assert(obj_get_v(o, "options"@) == (if d.options.len() > 0 {
        Some(JsonV::Arr(strs_jv(d.options)))
    } else {
        None
    }));
    assert(dns_of_jv(dns_jv(d)) == Some(d)) by {
        if d.nameservers.len() == 0 {
            assert(d.nameservers =~= Seq::<AddressV>::empty());
        }
        if d.search.len() == 0 {
            assert(d.search =~= Seq::<Seq<char>>::empty());
        }
        if d.options.len() == 0 {
            assert(d.options =~= Seq::<Seq<char>>::empty());
        }
    }
}

/// A singleton member list binds exactly its own key.
pub proof fn lemma_has_key_single(m: (Seq<char>, JsonV), k: Seq<char>)
    ensures
        crate::json::has_key(seq![m], k) == (m.0 == k),
        m.0 == k ==> obj_get_v(seq![m], k) == Some(m.1),
        m.0 != k ==> obj_get_v(seq![m], k) is None,
{
    if m.0 == k {
        assert(seq![m][0].0 == k);
    }
    if crate::json::has_key(seq![m], k) {
        let i = choose|i: int| 0 <= i < seq![m].len() && seq![m][i].0 == k;
        assert(seq![m][0].0 == k);
    }
    if m.0 != k {
        assert(seq![m].drop_first() =~= Seq::<(Seq<char>, JsonV)>::empty());
        assert(obj_get_v(Seq::<(Seq<char>, JsonV)>::empty(), k) is None);
    }
}

/// Resolves one key lookup through the four DNS segments.
proof fn dns_key_lookup(
    d: DnsV,
    ns_m: Seq<(Seq<char>, JsonV)>,
    dom_m: Seq<(Seq<char>, JsonV)>,
    se_m: Seq<(Seq<char>, JsonV)>,
    op_m: Seq<(Seq<char>, JsonV)>,
    o: Seq<(Seq<char>, JsonV)>,
    k: Seq<char>,
)
    requires
        ns_m == (if d.nameservers.len() > 0 {
            seq![("nameservers"@, JsonV::Arr(addr_strs_jv(d.nameservers)))]
        } else {
            Seq::<(Seq<char>, JsonV)>::empty()
        }),
        dom_m == (match d.domain {
            Some(t) => seq![("domain"@, JsonV::Str(t))],
            None => Seq::<(Seq<char>, JsonV)>::empty(),
        }),
        se_m == (if d.search.len() > 0 {
            seq![("search"@, JsonV::Arr(strs_jv(d.search)))]
        } else {
            Seq::<(Seq<char>, JsonV)>::empty()
        }),
        op_m == (if d.options.len() > 0 {
            seq![("options"@, JsonV::Arr(strs_jv(d.options)))]
        } else {
            Seq::<(Seq<char>, JsonV)>::empty()
        }),
        o == ns_m + dom_m + se_m + op_m,
    ensures
        obj_get_v(o, k) == (if d.nameservers.len() > 0 && "nameservers"@ == k {
            Some(JsonV::Arr(addr_strs_jv(d.nameservers)))
        } else if d.domain is Some && "domain"@ == k {
            Some(JsonV::Str(d.domain.unwrap()))
        } else if d.search.len() > 0 && "search"@ == k {
            Some(JsonV::Arr(strs_jv(d.search)))
        } else if d.options.len() > 0 && "options"@ == k {
            Some(JsonV::Arr(strs_jv(d.options)))
        } else {
            None
        }),
{
    crate::json::lemma_obj_get_concat(ns_m + dom_m + se_m, op_m, k);
    crate::json::lemma_obj_get_concat(ns_m + dom_m, se_m, k);
    crate::json::lemma_obj_get_concat(ns_m, dom_m, k);
    lemma_has_key_concat(ns_m + dom_m, se_m, k);
    lemma_has_key_concat(ns_m, dom_m, k);
    if d.nameservers.len() > 0 {
        lemma_has_key_single(("nameservers"@, JsonV::Arr(addr_strs_jv(d.nameservers))), k);
    }
    match d.domain {
        Some(t) => {
            lemma_has_key_single(("domain"@, JsonV::Str(t)), k);
        },
        None => {},
    }
    if d.search.len() > 0 {
        lemma_has_key_single(("search"@, JsonV::Arr(strs_jv(d.search))), k);
    }
    if d.options.len() > 0 {
        lemma_has_key_single(("options"@, JsonV::Arr(strs_jv(d.options))), k);
    }
    assert(obj_get_v(Seq::<(Seq<char>, JsonV)>::empty(), k) is None);
    assert(!crate::json::has_key(Seq::<(Seq<char>, JsonV)>::empty(), k));
}

/// A binding in concatenated members is a binding in one part.
pub proof fn lemma_has_key_concat(a: Seq<(Seq<char>, JsonV)>, b: Seq<(Seq<char>, JsonV)>, k: Seq<char>)
    ensures
        crate::json::has_key(a + b, k) == (crate::json::has_key(a, k) || crate::json::has_key(
            b,
            k,
        )),
{
    if crate::json::has_key(a + b, k) {
        let i = choose|i: int| 0 <= i < (a + b).len() && (a + b)[i].0 == k;
        if i < a.len() {
            assert(a[i].0 == k);
        } else {
            assert(b[i - a.len()].0 == k);
        }
    }
    if crate::json::has_key(a, k) {
        let i = choose|i: int| 0 <= i < a.len() && a[i].0 == k;
        assert((a + b)[i].0 == k);
    }
    if crate::json::has_key(b, k) {
        let i = choose|i: int| 0 <= i < b.len() && b[i].0 == k;
        assert((a + b)[a.len() + i].0 == k);
    }
}


impl CniError {
    /// The error reply for this error: the code doubles as the exit
    /// status, the message is fixed per variant, the details describe
    /// the particular failure.
    pub fn into_reply(self, cni_version: Version) -> (r: ErrorReply)
        ensures
            r.code as int == cni_error_code(self),
            r.msg@ == cni_error_msg(self),
            r.details@ == crate::error::cni_error_details(self),
            r.cni_version.deep_view() == cni_version.deep_view(),
        decreases self,
    {
        let code: i32 = match &self {
            CniError::Io(_) => 5,
            CniError::Json(_) => 6,
            CniError::Incompatible(_) => 1,
            CniError::MissingInput => 7,
            CniError::MissingOutput => 7,
            CniError::MissingEnv { .. } => 4,
            CniError::InvalidEnv { .. } => 4,
            CniError::NoCwd => 5,
            CniError::MissingPlugin { .. } => 5,
            CniError::Delegated { .. } => 5,
            CniError::Generic(_) => 100,
            CniError::Debug(_) => 101,
            CniError::MissingField(_) => 104,
            CniError::InvalidField { .. } => 107,
        };
        let msg: String = match &self {
            CniError::Io(_) => "I/O error".to_owned(),
            CniError::Json(_) => "Cannot decode JSON payload".to_owned(),
            CniError::Incompatible(_) => "Incompatible CNI version".to_owned(),
            CniError::MissingInput => "Missing payload".to_owned(),
            CniError::MissingOutput => "Missing output".to_owned(),
            CniError::MissingEnv { .. } => "Missing environment variable".to_owned(),
            CniError::InvalidEnv { .. } => "Invalid environment variable".to_owned(),
            CniError::NoCwd => "Bad workdir".to_owned(),
            CniError::MissingPlugin { .. } => "Missing plugin".to_owned(),
            CniError::Delegated { .. } => "Delegated".to_owned(),
            CniError::Generic(_) => "ERROR".to_owned(),
            CniError::Debug(_) => "DEBUG".to_owned(),
            CniError::MissingField(_) => "Missing field".to_owned(),
            CniError::InvalidField { .. } => "Invalid field".to_owned(),
        };
        let details: String = match self {
            CniError::Io(d) => d,
            CniError::Json(d) => d,
            CniError::Incompatible(v) => {
                let mut t: String = "plugin does not understand CNI version: ".to_owned();
                t.append(v.format().as_str());
                t
            },
            CniError::MissingInput => "missing input network config".to_owned(),
            CniError::MissingOutput => "missing plugin output".to_owned(),
            CniError::MissingEnv { var } => {
                let mut t: String = "missing environment variable: ".to_owned();
                t.append(var.as_str());
                t
            },
            CniError::InvalidEnv { var, detail } => {
                let mut t: String = "environment variable has invalid format: ".to_owned();
                t.append(var.as_str());
                t.append(": ");
                t.append(detail.as_str());
                t
            },
            CniError::NoCwd => "cannot obtain current working directory".to_owned(),
            CniError::MissingPlugin { name, detail } => {
                let mut t: String = "missing (or not on CNI_PATH) plugin ".to_owned();
                t.append(name.as_str());
                t.append(": ");
                t.append(detail.as_str());
                t
            },
            CniError::Delegated { plugin, err } => {
                let mut t: String = "with plugin ".to_owned();
                t.append(plugin.as_str());
                t.append(": ");
                let inner = err.into_reply(Version::numeric(0, 0, 0));
                t.append(inner.details.as_str());
                t
            },
            CniError::Generic(d) => d,
            CniError::Debug(d) => d,
            CniError::MissingField(f) => {
                let mut t: String = "can't proceed without ".to_owned();
                t.append(f.as_str());
                t.append(" field");
                t
            },
            CniError::InvalidField { field, expected, value } => {
                let mut t: String = field;
                t.append(": expected ");
                t.append(expected.as_str());
                t.append(", got: ");
                t.append(crate::json::json_to_string(&value).as_str());
                t
            },
        };
        ErrorReply { cni_version, code, msg, details }
    }
}

impl AppError {
    /// The error reply for this allocator error.
    pub fn into_reply(self, cni_version: Version) -> (r: ErrorReply)
        ensures
            r.code as int == app_error_code(self),
            r.msg@ == app_error_msg(self),
            r.details@ == crate::error::app_error_details(self),
            r.cni_version.deep_view() == cni_version.deep_view(),
    {
        match self {
            AppError::Cni(inner) => inner.into_reply(cni_version),
            AppError::Url(d) => ErrorReply {
                cni_version,
                code: 120,
                msg: "Error constructing URL".to_owned(),
                details: d,
            },
            AppError::Http(d) => ErrorReply {
                cni_version,
                code: 111,
                msg: "HTTP".to_owned(),
                details: d,
            },
            AppError::MissingResource { remote, resource, path } => {
                let mut t: String = remote;
                t.append("::");
                t.append(resource.as_str());
                t.append(" at ");
                t.append(path.as_str());
                ErrorReply {
                    cni_version,
                    code: 114,
                    msg: "Missing resource".to_owned(),
                    details: t,
                }
            },
            AppError::InvalidResource { remote, resource, path, detail } => {
                let mut t: String = remote;
                t.append("::");
                t.append(resource.as_str());
                t.append(" at ");
                t.append(path.as_str());
                t.append(": ");
                t.append(detail.as_str());
                ErrorReply {
                    cni_version,
                    code: 117,
                    msg: "Invalid resource".to_owned(),
                    details: t,
                }
            },
            AppError::PoolFull(pool) => {
                let mut t: String = pool;
                t.append(" does not have any free IP space");
                ErrorReply {
                    cni_version,
                    code: 122,
                    msg: "Pool is full".to_owned(),
                    details: t,
                }
            },
            AppError::NotInPool { pool, ip } => {
                let mut t: String = pool;
                t.append(" cannot contain ");
                t.append(ip.as_str());
                ErrorReply {
                    cni_version,
                    code: 124,
                    msg: "IP not in pool".to_owned(),
                    details: t,
                }
            },
            AppError::ConsulWriteFailed => ErrorReply {
                cni_version,
                code: 125,
                msg: "KV PUT".to_owned(),
                details: "consul write failed".to_owned(),
            },
        }
    }
}


/// Stripping keeps well-formedness: every kept member stood in the
/// original list.
pub proof fn lemma_strip_wf(o: Seq<(Seq<char>, JsonV)>, keys: Seq<Seq<char>>)
    requires
        forall|i: int| 0 <= i < o.len() ==> crate::json::json_wf((#[trigger] o[i]).1),
    ensures
        forall|i: int| 0 <= i < strip_keys(o, keys).len() ==> crate::json::json_wf(
            (#[trigger] strip_keys(o, keys)[i]).1,
        ),
    decreases o.len(),
{
    if o.len() > 0 {
        assert forall|i: int| 0 <= i < o.drop_first().len() implies crate::json::json_wf(
            (#[trigger] o.drop_first()[i]).1,
        ) by {
            assert(o.drop_first()[i] == o[i + 1]);
        }
        lemma_strip_wf(o.drop_first(), keys);
        let rest = strip_keys(o.drop_first(), keys);
        if !keys.contains(o[0].0) {
            assert forall|i: int| 0 <= i < strip_keys(o, keys).len() implies crate::json::json_wf(
                (#[trigger] strip_keys(o, keys)[i]).1,
            ) by {
                if i > 0 {
                    assert(strip_keys(o, keys)[i] == rest[i - 1]);
                }
            }
        }
    }
}

} // verus!
