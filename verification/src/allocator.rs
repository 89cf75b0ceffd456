//! The IPAM allocator: which address an ADD hands out, and which keys a
//! DEL releases.
//!
//! The allocator reads the pool definition and the current allocations
//! out of KV envelopes, picks an address, and plans the conditional
//! writes; the store calls themselves stand outside. Every decision here
//! is exact: which address is picked, which keys are deleted, and when
//! each error is returned.

use vstd::prelude::*;

use crate::consul::{CasDelete, ConsulPair, ConsulValue};
use crate::error::AppError;
use crate::ip::{Address, Cidr, IpAddress};
use crate::iprange::{cidr_contains, cidr_contains_exec, taken_has, IpRange};
use crate::json::{
    deep_arr, json_as_arr, json_as_obj, json_as_str, lemma_deep_arr, obj_get, obj_get_v, JsonV,
    JsonValue,
};
use crate::reply::{Dns, Ip, IpamSuccessReply, Route};
use crate::version::Version;

verus! {

/// A pool selection, as carried through the chain in
/// `prevResult.pools[0]`.
pub struct Pool {
    /// The logical pool name.
    pub name: String,
    /// The address the workload asks for, if any.
    pub requested_ip: Option<Address>,
}

/// What a document denotes as a pool selection.
pub open spec fn pool_of_jv(j: JsonV) -> Option<(Seq<char>, Option<(Seq<char>, IpAddress)>)> {
    match j {
        JsonV::Obj(o) => {
            let name = obj_get_v(o, "name"@);
            if !(name matches Some(JsonV::Str(_))) {
                None
            } else {
                match obj_get_v(o, "requestedIp"@) {
                    None => Some((name->Some_0->Str_0, None)),
                    Some(JsonV::Str(t)) => match crate::ip::ip_of(t) {
                        Some(v) => Some((name->Some_0->Str_0, Some((t, v)))),
                        None => None,
                    },
                    Some(_) => None,
                }
            }
        },
        _ => None,
    }
}

impl Pool {
    /// Reads a pool selection out of a document.
    pub fn from_json(j: &JsonValue) -> (r: Option<Pool>)
        ensures
            match r {
                Some(p) => pool_of_jv(j.deep_view()) == Some(
                    (
                        p.name@,
                        match p.requested_ip {
                            Some(a) => Some((a.text@, a.value)),
                            None => None::<(Seq<char>, IpAddress)>,
                        },
                    ),
                ) && (p.requested_ip matches Some(a) ==> a.wf()),
                None => pool_of_jv(j.deep_view()) is None,
            },
    {
        let o = match json_as_obj(j) {
            Some(o) => o,
            None => {
                return None;
            },
        };
        let name = match obj_get(o, "name") {
            Some(v) => match json_as_str(v) {
                Some(t) => t.clone(),
                None => {
                    return None;
                },
            },
            None => {
                return None;
            },
        };
        let requested_ip = match obj_get(o, "requestedIp") {
            Some(v) => match json_as_str(v) {
                Some(t) => match Address::parse(t.as_str()) {
                    Some(a) => Some(a),
                    None => {
                        return None;
                    },
                },
                None => {
                    return None;
                },
            },
            None => None,
        };
        Some(Pool { name, requested_ip })
    }
}

/// What a document denotes as an IP range: a subnet, and optional
/// bounds and gateway of the subnet's own family.
pub open spec fn range_of_jv(j: JsonV) -> Option<(Seq<char>, Option<Seq<char>>, Option<Seq<char>>, Option<Seq<char>>)> {
    match j {
        JsonV::Obj(o) => {
            let subnet = match obj_get_v(o, "subnet"@) {
                Some(JsonV::Str(t)) => if crate::ip::cidr_of(t) is Some {
                    Some(t)
                } else {
                    None
                },
                _ => None,
            };
            if subnet is None {
                None
            } else {
                let fam = crate::ip::cidr_of(subnet.unwrap()).unwrap().0;
                let start = range_member(o, "rangeStart"@, fam);
                let end = range_member(o, "rangeEnd"@, fam);
                let gw = range_member(o, "gateway"@, fam);
                if start is Some && end is Some && gw is Some {
                    Some((subnet.unwrap(), start.unwrap(), end.unwrap(), gw.unwrap()))
                } else {
                    None
                }
            }
        },
        _ => None,
    }
}

/// An optional address member of a range document: absent, or a piece
/// of text denoting an address of the subnet's family.
pub open spec fn range_member(
    o: Seq<(Seq<char>, JsonV)>,
    key: Seq<char>,
    fam: IpAddress,
) -> Option<Option<Seq<char>>> {
    match obj_get_v(o, key) {
        None => Some(None),
        Some(JsonV::Str(t)) => match crate::ip::ip_of(t) {
            Some(v) => if v.same_family(fam) {
                Some(Some(t))
            } else {
                None
            },
            None => None,
        },
        Some(_) => None,
    }
}

impl IpRange {
    /// Reads an IP range out of a document.
    pub fn from_json(j: &JsonValue) -> (r: Option<IpRange>)
        ensures
            match r {
                Some(v) => range_of_jv(j.deep_view()) == Some(
                    (
                        v.subnet.text@,
                        match v.range_start {
                            Some(a) => Some(a.text@),
                            None => None::<Seq<char>>,
                        },
                        match v.range_end {
                            Some(a) => Some(a.text@),
                            None => None::<Seq<char>>,
                        },
                        match v.gateway {
                            Some(a) => Some(a.text@),
                            None => None::<Seq<char>>,
                        },
                    ),
                ) && v.subnet.wf() && (v.range_start matches Some(a) ==> a.wf()) && (
                v.range_end matches Some(a) ==> a.wf()) && (v.gateway matches Some(a) ==> a.wf()),
                None => range_of_jv(j.deep_view()) is None,
            },
    {
        let o = match json_as_obj(j) {
            Some(o) => o,
            None => {
                return None;
            },
        };
        let subnet = match obj_get(o, "subnet") {
            Some(v) => match json_as_str(v) {
                Some(t) => match Cidr::parse(t.as_str()) {
                    Some(c) => c,
                    None => {
                        return None;
                    },
                },
                None => {
                    return None;
                },
            },
            None => {
                return None;
            },
        };
        let range_start = match obj_get(o, "rangeStart") {
            Some(v) => match json_as_str(v) {
                Some(t) => match Address::parse(t.as_str()) {
                    Some(a) => {
                        if !same_family_exec(&a.value, &subnet.ip) {
                            return None;
                        }
                        Some(a)
                    },
                    None => {
                        return None;
                    },
                },
                None => {
                    return None;
                },
            },
            None => None,
        };
        let range_end = match obj_get(o, "rangeEnd") {
            Some(v) => match json_as_str(v) {
                Some(t) => match Address::parse(t.as_str()) {
                    Some(a) => {
                        if !same_family_exec(&a.value, &subnet.ip) {
                            return None;
                        }
                        Some(a)
                    },
                    None => {
                        return None;
                    },
                },
                None => {
                    return None;
                },
            },
            None => None,
        };
        let gateway = match obj_get(o, "gateway") {
            Some(v) => match json_as_str(v) {
                Some(t) => match Address::parse(t.as_str()) {
                    Some(a) => {
                        if !same_family_exec(&a.value, &subnet.ip) {
                            return None;
                        }
                        Some(a)
                    },
                    None => {
                        return None;
                    },
                },
                None => {
                    return None;
                },
            },
            None => None,
        };
        Some(IpRange { subnet, range_start, range_end, gateway })
    }
}

/// Reads a pool definition — a list of IP ranges — out of a document.
pub fn ranges_from_json(j: &JsonValue) -> (r: Option<Vec<IpRange>>)
    ensures
        match r {
            Some(v) => j.deep_view() matches JsonV::Arr(xs) && v@.len() == xs.len() && forall|
                k: int,
            |
                0 <= k < v@.len() ==> (#[trigger] v@[k]).wf() && range_of_jv(xs[k]) is Some,
            None => !(j.deep_view() matches JsonV::Arr(xs) && (forall|k: int| 0 <= k < xs.len()
                ==> range_of_jv(#[trigger] xs[k]) is Some)),
        },
{
    let xs = match json_as_arr(j) {
        Some(xs) => xs,
        None => {
            return None;
        },
    };
    proof {
        lemma_deep_arr(xs@);
    }
    let mut out: Vec<IpRange> = Vec::new();
    let mut i: usize = 0;
    #[verifier::loop_isolation(false)]
    while i < xs.len()
        invariant
            i <= xs@.len(),
            out@.len() == i,
            forall|k: int| 0 <= k < i ==> (#[trigger] out@[k]).wf() && range_of_jv(
                deep_arr(xs@)[k],
            ) is Some,
        decreases xs@.len() - i,
    {
        match IpRange::from_json(&xs[i]) {
            Some(v) => {
                let ghost vv = v;
                out.push(v);
                proof {
                    assert(deep_arr(xs@)[i as int] == xs@[i as int].deep_view());
                    assert(out@[i as int] == vv);
                    assert(vv.wf());
                }
            },
            None => {
                proof {
                    assert(deep_arr(xs@)[i as int] == xs@[i as int].deep_view());
                    assert(range_of_jv(deep_arr(xs@)[i as int]) is None);
                }
                return None;
            },
        }
        i = i + 1;
    }
    Some(out)
}

/// Whether two addresses belong to the same family.
pub fn same_family_exec(a: &IpAddress, b: &IpAddress) -> (r: bool)
    ensures
        r == a.same_family(*b),
{
    match (a, b) {
        (IpAddress::V4(_), IpAddress::V4(_)) => true,
        (IpAddress::V6(_), IpAddress::V6(_)) => true,
        _ => false,
    }
}

/// The document a pool-definition envelope carries: nothing for a
/// tombstone, the decoded document otherwise.
pub open spec fn pool_doc(p: ConsulPair) -> Option<JsonV> {
    match p.value {
        ConsulValue::Null => None,
        ConsulValue::Parsed(v) => Some(v.deep_view()),
        ConsulValue::String(raw) => crate::consul::decoded_value(raw@),
    }
}

/// Reads a pool definition out of the envelopes served for
/// `ipam/<name>`: the first envelope's document must be a list of IP
/// ranges. No envelope at all is a missing resource; an envelope that
/// does not decode to such a list cannot be understood.
pub fn pool_def(pairs: &Vec<ConsulPair>, pool_name: &str) -> (r: Result<Vec<IpRange>, AppError>)
    ensures
        match r {
            Ok(v) => pairs@.len() > 0 && (pool_doc(pairs@[0]) matches Some(doc) && (
            doc matches JsonV::Arr(xs) && v@.len() == xs.len() && forall|k: int|
                0 <= k < v@.len() ==> (#[trigger] v@[k]).wf() && range_of_jv(xs[k]) is Some)),
            Err(e) => pairs@.len() == 0 && e is MissingResource || pairs@.len() > 0 && e
                is InvalidResource && !(pool_doc(pairs@[0]) matches Some(doc) && (
            doc matches JsonV::Arr(xs) && forall|k: int| 0 <= k < xs.len() ==> range_of_jv(
                #[trigger] xs[k],
            ) is Some)),
        },
{
    if pairs.len() == 0 {
        return Err(
            AppError::MissingResource {
                remote: "consul".to_owned(),
                resource: "pool".to_owned(),
                path: pool_name.to_owned(),
            },
        );
    }
    let first = &pairs[0];
    let doc = match crate::consul::decode_doc(first) {
        Ok(Some(d)) => d,
        Ok(None) => {
            return Err(
                AppError::InvalidResource {
                    remote: "consul".to_owned(),
                    resource: "pool".to_owned(),
                    path: pool_name.to_owned(),
                    detail: "expected a range list, got null".to_owned(),
                },
            );
        },
        Err(detail) => {
            return Err(
                AppError::InvalidResource {
                    remote: "consul".to_owned(),
                    resource: "pool".to_owned(),
                    path: pool_name.to_owned(),
                    detail,
                },
            );
        },
    };
    match ranges_from_json(&doc) {
        Some(v) => Ok(v),
        None => Err(
            AppError::InvalidResource {
                remote: "consul".to_owned(),
                resource: "pool".to_owned(),
                path: pool_name.to_owned(),
                detail: "expected a range list".to_owned(),
            },
        ),
    }
}

/// One reserved address of a pool, as read back from the store.
pub struct KnownPoolEntry {
    /// The reserved address, from the entry's key.
    pub ip: Address,
    /// The container the address is reserved for.
    pub target: String,
    /// The index the entry was read at: the token a release is
    /// conditioned on.
    pub index: u64,
}

/// The start of a key's last `/`-separated segment, scanning back from
/// `i`.
pub open spec fn tail_start(k: Seq<char>, i: int) -> int
    decreases i when 0 <= i <= k.len()
{
    if i <= 0 {
        0
    } else if k[i - 1] == '/' {
        i
    } else {
        tail_start(k, i - 1)
    }
}

/// A key's last `/`-separated segment.
pub open spec fn key_tail(k: Seq<char>) -> Seq<char> {
    k.subrange(tail_start(k, k.len() as int), k.len() as int)
}

pub proof fn lemma_tail_start(k: Seq<char>, i: int)
    requires
        0 <= i <= k.len(),
    ensures
        0 <= tail_start(k, i) <= i,
    decreases i,
{
    if i > 0 && k[i - 1] != '/' {
        lemma_tail_start(k, i - 1);
    }
}

/// What one envelope contributes to the reserved-address list.
pub ghost enum KnownOutcome {
    /// A tombstone: dropped.
    Skip,
    /// A reserved address.
    Entry { ip_text: Seq<char>, ip: IpAddress, target: Seq<char>, index: u64 },
    /// An envelope that cannot be understood.
    Bad,
}

/// What a decoded reservation document and its key yield.
pub open spec fn entry_from_doc(p: ConsulPair, doc: JsonV) -> KnownOutcome {
    match crate::json::jv_get(doc, "target"@) {
        Some(JsonV::Str(t)) => match crate::ip::ip_of(key_tail(p.key@)) {
            Some(v) => KnownOutcome::Entry {
                ip_text: key_tail(p.key@),
                ip: v,
                target: t,
                index: p.modify_index,
            },
            None => KnownOutcome::Bad,
        },
        _ => KnownOutcome::Bad,
    }
}

/// What one envelope yields: tombstones are skipped; anything else must
/// decode to a document with a `target` string, under a key whose last
/// segment is an address.
pub open spec fn known_outcome(p: ConsulPair) -> KnownOutcome {
    match p.value {
        ConsulValue::Null => KnownOutcome::Skip,
        ConsulValue::Parsed(doc) => entry_from_doc(p, doc.deep_view()),
        ConsulValue::String(raw) => match crate::consul::decoded_value(raw@) {
            None => KnownOutcome::Bad,
            Some(doc) => entry_from_doc(p, doc),
        },
    }
}

/// The reserved addresses a list of envelopes denotes, in order; `None`
/// where some envelope cannot be understood.
pub open spec fn known_of(pairs: Seq<ConsulPair>) -> Option<Seq<(Seq<char>, IpAddress, Seq<char>, u64)>>
    decreases pairs.len(),
{
    if pairs.len() == 0 {
        Some(Seq::empty())
    } else {
        match known_outcome(pairs[0]) {
            KnownOutcome::Bad => None,
            KnownOutcome::Skip => known_of(pairs.drop_first()),
            KnownOutcome::Entry { ip_text, ip, target, index } => match known_of(
                pairs.drop_first(),
            ) {
                None => None,
                Some(rest) => Some(seq![(ip_text, ip, target, index)] + rest),
            },
        }
    }
}

/// The view of read-back entries that [`known_of`] speaks in.
pub open spec fn entries_view(v: Seq<KnownPoolEntry>) -> Seq<(Seq<char>, IpAddress, Seq<char>, u64)>
    decreases v.len(),
{
    if v.len() == 0 {
        Seq::empty()
    } else {
        entries_view(v.drop_last()).push(
            (v.last().ip.text@, v.last().ip.value, v.last().target@, v.last().index),
        )
    }
}

/// Reads the reserved addresses of a pool out of KV envelopes:
/// tombstones are dropped; every other envelope must decode to a
/// document with a `target` string, and its key's last `/`-separated
/// segment must be an address. The entries keep the envelopes' order,
/// each holding that address, the document's target, and the envelope's
/// ModifyIndex; the first envelope that cannot be understood is the
/// error.
#[verifier::loop_isolation(false)]
#[verifier::rlimit(100)]
pub fn pool_known(pairs: &Vec<ConsulPair>) -> (r: Result<Vec<KnownPoolEntry>, AppError>)
    ensures
        match r {
            Ok(v) => known_of(pairs@) == Some(entries_view(v@)) && forall|k: int|
                0 <= k < v@.len() ==> (#[trigger] v@[k]).ip.wf(),
            Err(e) => e is InvalidResource && known_of(pairs@) is None,
        },
{
    let mut out: Vec<KnownPoolEntry> = Vec::new();
    let mut i: usize = 0;
    proof {
        assert(pairs@.skip(0) =~= pairs@);
        assert(entries_view(out@) =~= Seq::<(Seq<char>, IpAddress, Seq<char>, u64)>::empty());
    }
    while i < pairs.len()
        invariant
            i <= pairs@.len(),
            forall|k: int| 0 <= k < out@.len() ==> (#[trigger] out@[k]).ip.wf(),
            match known_of(pairs@.skip(i as int)) {
                Some(rest) => known_of(pairs@) == Some(entries_view(out@) + rest),
                None => known_of(pairs@) is None,
            },
        decreases pairs@.len() - i,
    {
        let ghost tail = pairs@.skip(i as int);
        proof {
            assert(tail[0] == pairs@[i as int]);
            assert(tail.drop_first() =~= pairs@.skip(i + 1));
        }
        let pair = &pairs[i];
        if pair.value.is_null() {
            proof {
                assert(known_outcome(pairs@[i as int]) is Skip);
            }
            i = i + 1;
            continue ;
        }
        let key = pair.key.clone();
        let index = pair.modify_index;
        let parsed = match crate::consul::decode_doc(pair) {
            Ok(p) => p,
            Err(detail) => {
                proof {
                    assert(known_outcome(pairs@[i as int]) is Bad);
                }
                return Err(
                    AppError::InvalidResource {
                        remote: "consul".to_owned(),
                        resource: "ip-pool".to_owned(),
                        path: key,
                        detail,
                    },
                );
            },
        };
        let doc = match parsed {
            Some(d) => d,
            None => {
                // unreachable: a non-null envelope always decodes to a
                // document or an error
                proof {
                    assert(false);
                }
                i = i + 1;
                continue ;
            },
        };
        let ghost docv = doc.deep_view();
        let target = match crate::json::json_get(&doc, "target") {
            Some(v) => match json_as_str(v) {
                Some(t) => t.clone(),
                None => {
                    proof {
                        assert(known_outcome(pairs@[i as int]) is Bad);
                    }
                    return Err(
                        AppError::InvalidResource {
                            remote: "consul".to_owned(),
                            resource: "ip-pool".to_owned(),
                            path: key,
                            detail: "expected target to be a string".to_owned(),
                        },
                    );
                },
            },
            None => {
                proof {
                    assert(known_outcome(pairs@[i as int]) is Bad);
                }
                return Err(
                    AppError::InvalidResource {
                        remote: "consul".to_owned(),
                        resource: "ip-pool".to_owned(),
                        path: key,
                        detail: "expected a target field".to_owned(),
                    },
                );
            },
        };
        // the key's last segment is the address
        let cs = crate::text::str_to_chars(key.as_str());
        let mut seg_start: usize = 0;
        let mut x: usize = 0;
        while x < cs.len()
            invariant
                seg_start <= x <= cs@.len(),
                seg_start as int == tail_start(cs@, x as int),
            decreases cs@.len() - x,
        {
            if cs[x] == '/' {
                seg_start = x + 1;
            }
            x = x + 1;
        }
        let tail_cs = crate::json::sub_chars(&cs, seg_start, cs.len());
        let tail_str = crate::text::chars_to_string(&tail_cs);
        proof {
            assert(tail_str@ == key_tail(pairs@[i as int].key@));
        }
        let ip = match Address::parse(tail_str.as_str()) {
            Some(a) => a,
            None => {
                proof {
                    assert(known_outcome(pairs@[i as int]) is Bad);
                }
                return Err(
                    AppError::InvalidResource {
                        remote: "consul".to_owned(),
                        resource: "ip-pool".to_owned(),
                        path: key,
                        detail: "expected key to end in an IP address".to_owned(),
                    },
                );
            },
        };
        let ghost prev = out@;
        out.push(KnownPoolEntry { ip, target, index });
        proof {
            assert(out@.drop_last() =~= prev);
            assert(known_outcome(pairs@[i as int]) == KnownOutcome::Entry {
                ip_text: key_tail(pairs@[i as int].key@),
                ip: ip.value,
                target: target@,
                index,
            });
            assert(entries_view(out@) == entries_view(prev).push(
                (ip.text@, ip.value, target@, index),
            ));
            match known_of(pairs@.skip(i + 1)) {
                Some(rest) => {
                    assert(known_of(tail) == Some(
                        seq![(ip.text@, ip.value, target@, index)] + rest,
                    ));
                    assert(entries_view(prev) + (seq![(ip.text@, ip.value, target@, index)]
                        + rest) =~= entries_view(out@) + rest);
                },
                None => {},
            }
        }
        i = i + 1;
    }
    proof {
        assert(pairs@.skip(pairs@.len() as int) =~= Seq::<ConsulPair>::empty());
        assert(entries_view(out@) + Seq::<(Seq<char>, IpAddress, Seq<char>, u64)>::empty()
            =~= entries_view(out@));
    }
    Ok(out)
}

/// The addresses a list of entries reserves.
pub fn known_ips(known: &Vec<KnownPoolEntry>) -> (r: Vec<IpAddress>)
    ensures
        r@.len() == known@.len(),
        forall|k: int| 0 <= k < known@.len() ==> r@[k] == (#[trigger] known@[k]).ip.value,
{
    let mut out: Vec<IpAddress> = Vec::new();
    let mut i: usize = 0;
    #[verifier::loop_isolation(false)]
    while i < known.len()
        invariant
            i <= known@.len(),
            out@.len() == i,
            forall|k: int| 0 <= k < i ==> out@[k] == (#[trigger] known@[k]).ip.value,
        decreases known@.len() - i,
    {
        out.push(known[i].ip.value);
        i = i + 1;
    }
    out
}

/// What an ADD decides: the address it reserves, the gateway it
/// advertises, and whether the write must be conditional on absence.
pub struct Allocation {
    /// The chosen address, spelled with the subnet's prefix length.
    pub address: Cidr,
    /// The gateway of the range the address came from.
    pub gateway: Option<Address>,
    /// Whether the reservation must use create-if-absent.
    pub cas0: bool,
}

/// Picks the address an ADD reserves.
///
/// With a requested address, the last range whose subnet covers it
/// decides the prefix and gateway; an address no range covers is
/// refused, and nothing is written for it. Without one, the ranges are
/// walked in order and the first free address not yet reserved wins;
/// a pool with no such address is full.
#[verifier::loop_isolation(false)]
#[verifier::rlimit(100)]
pub fn choose_ip(
    pool: &Vec<IpRange>,
    pool_name: &str,
    taken: &Vec<IpAddress>,
    requested: &Option<Address>,
) -> (r: Result<Allocation, AppError>)
    requires
        forall|k: int| 0 <= k < pool@.len() ==> (#[trigger] pool@[k]).wf(),
    ensures
        match requested {
            Some(want) => match r {
                Ok(al) => {
                    &&& al.address.ip == want.value
                    &&& !al.cas0
                    &&& exists|ri: int|
                        0 <= ri < pool@.len() && cidr_contains(
                            (#[trigger] pool@[ri]).subnet,
                            want.value,
                        ) && al.address.prefix == pool@[ri].subnet.prefix && (match (
                        al.gateway,
                        pool@[ri].gateway,
                    ) {
                        (Some(a), Some(b)) => a.text@ == b.text@ && a.value == b.value,
                        (None, None) => true,
                        _ => false,
                    }) && (forall|rj: int| ri < rj < pool@.len() ==> !cidr_contains(
                        (#[trigger] pool@[rj]).subnet,
                        want.value,
                    ))
                },
                Err(e) => e is NotInPool && forall|ri: int| 0 <= ri < pool@.len()
                    ==> !cidr_contains((#[trigger] pool@[ri]).subnet, want.value),
            },
            None => match r {
                Ok(al) => {
                    &&& al.cas0
                    &&& exists|ri: int|
                        0 <= ri < pool@.len() && #[trigger] pool@[ri].is_free(
                            al.address.ip.val() as int,
                        ) && al.address.ip.same_family(pool@[ri].subnet.ip) && !taken_has(
                            taken@,
                            al.address.ip,
                        ) && al.address.prefix == pool@[ri].subnet.prefix && (match (
                        al.gateway,
                        pool@[ri].gateway,
                    ) {
                        (Some(a), Some(b)) => a.text@ == b.text@ && a.value == b.value,
                        (None, None) => true,
                        _ => false,
                    }) && (forall|rj: int, v: int|
                        0 <= rj < ri && #[trigger] pool@[rj].is_free(v) ==> taken_has(
                            taken@,
                            crate::iprange::fam_addr(pool@[rj].subnet.ip is V4, v),
                        )) && (forall|v: int|
                        pool@[ri].is_free(v) && v < al.address.ip.val() ==> taken_has(
                            taken@,
                            crate::iprange::fam_addr(pool@[ri].subnet.ip is V4, v),
                        ))
                },
                Err(e) => e is PoolFull && forall|ri: int, v: int|
                    0 <= ri < pool@.len() && #[trigger] pool@[ri].is_free(v) ==> taken_has(
                        taken@,
                        crate::iprange::fam_addr(pool@[ri].subnet.ip is V4, v),
                    ),
            },
        },
{
    match requested {
        Some(want) => {
            let mut found: Option<(u8, usize)> = None;
            let mut i: usize = 0;
            while i < pool.len()
                invariant
                    i <= pool@.len(),
                    match found {
                        Some((pfx, ri)) => 0 <= ri < i && cidr_contains(
                            pool@[ri as int].subnet,
                            want.value,
                        ) && pfx == pool@[ri as int].subnet.prefix && (forall|rj: int|
                            ri < rj < i ==> !cidr_contains(
                                (#[trigger] pool@[rj]).subnet,
                                want.value,
                            )),
                        None => forall|ri: int| 0 <= ri < i ==> !cidr_contains(
                            (#[trigger] pool@[ri]).subnet,
                            want.value,
                        ),
                    },
                decreases pool@.len() - i,
            {
                if cidr_contains_exec(&pool[i].subnet, &want.value) {
                    found = Some((pool[i].subnet.prefix, i));
                }
                i = i + 1;
            }
            match found {
                Some((pfx, ri)) => {
                    proof {
                        crate::iprange::lemma_val_bound(want.value);
                        if want.value is V4 {
                        }
                    }
                    let gateway = match &pool[ri].gateway {
                        Some(g) => Some(g.copied()),
                        None => None,
                    };
                    Ok(
                        Allocation {
                            address: Cidr::from_parts(want.value, pfx),
                            gateway,
                            cas0: false,
                        },
                    )
                },
                None => Err(
                    AppError::NotInPool {
                        pool: pool_name.to_owned(),
                        ip: want.text.clone(),
                    },
                ),
            }
        },
        None => {
            let mut i: usize = 0;
            while i < pool.len()
                invariant
                    i <= pool@.len(),
                    forall|rj: int, v: int| 0 <= rj < i && #[trigger] pool@[rj].is_free(v)
                        ==> taken_has(
                        taken@,
                        crate::iprange::fam_addr(pool@[rj].subnet.ip is V4, v),
                    ),
                decreases pool@.len() - i,
            {
                match pool[i].first_free(taken) {
                    Some(a) => {
                        let gateway = match &pool[i].gateway {
                            Some(g) => Some(g.copied()),
                            None => None,
                        };
                        proof {
                            crate::iprange::lemma_val_bound(a);
                        }
                        return Ok(
                            Allocation {
                                address: Cidr::from_parts(a, pool[i].subnet.prefix),
                                gateway,
                                cas0: true,
                            },
                        );
                    },
                    None => {},
                }
                i = i + 1;
            }
            Err(AppError::PoolFull(pool_name.to_owned()))
        },
    }
}

/// The store key of one reserved address: `ipam/<pool>/<address>`.
pub fn kv_key(pool_name: &str, ip_text: &str) -> (r: String)
    ensures
        r@ == "ipam/"@ + pool_name@ + "/"@ + ip_text@,
{
    let mut s: String = "ipam/".to_owned();
    s.append(pool_name);
    s.append("/");
    s.append(ip_text);
    s
}

/// The body written for a reservation: `{"target": <container id>}`.
pub fn reservation_body(container_id: &str) -> (r: JsonValue)
    ensures
        r.deep_view() == JsonV::Obj(seq![("target"@, JsonV::Str(container_id@))]),
{
    let mut members: Vec<(String, JsonValue)> = Vec::new();
    members.push(("target".to_owned(), JsonValue::Str(container_id.to_owned())));
    let r = JsonValue::Obj(members);
    proof {
        crate::reply::lemma_deep_obj_members(r);
        crate::json::lemma_deep_obj(members@);
        assert(crate::json::deep_obj(members@) =~= seq![("target"@, JsonV::Str(container_id@))]);
    }
    r
}

/// The deletes a DEL issues: one conditional delete per entry reserved
/// for the leaving container, at the index it was read at.
pub open spec fn del_plan(
    known: Seq<KnownPoolEntry>,
    cid: Seq<char>,
    pool_name: Seq<char>,
) -> Seq<(Seq<char>, u64)>
    decreases known.len(),
{
    if known.len() == 0 {
        Seq::empty()
    } else {
        let rest = del_plan(known.drop_first(), cid, pool_name);
        if known[0].target@ == cid {
            seq![
                ("ipam/"@ + pool_name + "/"@ + known[0].ip.text@, known[0].index),
            ] + rest
        } else {
            rest
        }
    }
}

/// Plans the deletes of a DEL: exactly the entries whose target is the
/// leaving container, keyed and conditioned as the plan says.
#[verifier::loop_isolation(false)]
pub fn plan_del(known: &Vec<KnownPoolEntry>, container_id: &str, pool_name: &str) -> (r: Vec<
    CasDelete,
>)
    ensures
        crate::consul::deep_deletes(r@) == del_plan(known@, container_id@, pool_name@),
{
    let mut out: Vec<CasDelete> = Vec::new();
    let mut i: usize = 0;
    proof {
        assert(known@.skip(0) =~= known@);
    }
    while i < known.len()
        invariant
            i <= known@.len(),
            del_plan(known@, container_id@, pool_name@) == crate::consul::deep_deletes(out@)
                + del_plan(known@.skip(i as int), container_id@, pool_name@),
        decreases known@.len() - i,
    {
        let ghost tail = known@.skip(i as int);
        proof {
            assert(tail[0] == known@[i as int]);
            assert(tail.drop_first() =~= known@.skip(i + 1));
        }
        if crate::json::str_eq(known[i].target.as_str(), container_id) {
            let key = kv_key(pool_name, known[i].ip.text.as_str());
            let ghost prev = out@;
            out.push(CasDelete { key, index: known[i].index });
            proof {
                assert(out@.drop_last() =~= prev);
                assert(crate::consul::deep_deletes(out@) == crate::consul::deep_deletes(
                    prev,
                ).push((out@.last().key@, out@.last().index)));
                assert(del_plan(tail, container_id@, pool_name@) == seq![
                    ("ipam/"@ + pool_name@ + "/"@ + known@[i as int].ip.text@, known@[
                        i as int].index),
                ] + del_plan(known@.skip(i + 1), container_id@, pool_name@));
                assert(crate::consul::deep_deletes(prev) + (seq![
                    ("ipam/"@ + pool_name@ + "/"@ + known@[i as int].ip.text@, known@[
                        i as int].index),
                ] + del_plan(known@.skip(i + 1), container_id@, pool_name@))
                    =~= crate::consul::deep_deletes(out@) + del_plan(
                    known@.skip(i + 1),
                    container_id@,
                    pool_name@,
                ));
            }
        } else {
            proof {
                assert(del_plan(tail, container_id@, pool_name@) == del_plan(
                    known@.skip(i + 1),
                    container_id@,
                    pool_name@,
                ));
            }
        }
        i = i + 1;
    }
    proof {
        assert(known@.skip(known@.len() as int) =~= Seq::<KnownPoolEntry>::empty());
        assert(crate::consul::deep_deletes(out@) + Seq::<(Seq<char>, u64)>::empty()
            =~= crate::consul::deep_deletes(out@));
    }
    out
}

/// Every entry reserved for the container is covered by the plan, with
/// the index it was read at: the release misses nothing.
pub proof fn lemma_del_plan_covers(
    known: Seq<KnownPoolEntry>,
    cid: Seq<char>,
    pool_name: Seq<char>,
    k: int,
)
    requires
        0 <= k < known.len(),
        known[k].target@ == cid,
    ensures
        del_plan(known, cid, pool_name).contains(
            ("ipam/"@ + pool_name + "/"@ + known[k].ip.text@, known[k].index),
        ),
    decreases known.len(),
{
    if k == 0 {
        assert(del_plan(known, cid, pool_name)[0] == (
            "ipam/"@ + pool_name + "/"@ + known[0].ip.text@,
            known[0].index,
        ));
    } else {
        assert(known.drop_first()[k - 1] == known[k]);
        lemma_del_plan_covers(known.drop_first(), cid, pool_name, k - 1);
        let rest = del_plan(known.drop_first(), cid, pool_name);
        let x = ("ipam/"@ + pool_name + "/"@ + known[k].ip.text@, known[k].index);
        let i = choose|i: int| 0 <= i < rest.len() && rest[i] == x;
        if known[0].target@ == cid {
            assert(del_plan(known, cid, pool_name)[i + 1] == x);
        }
    }
}

/// The reply of a successful ADD: one IP entry carrying the chosen
/// address and its gateway, and, when asked for, a default route through
/// that gateway.
pub fn add_reply(
    cni_version: &Version,
    al: &Allocation,
    with_default_route: bool,
) -> (r: IpamSuccessReply)
    requires
        al.address.prefix <= al.address.ip.bits(),
    ensures
        r.cni_version.deep_view() == cni_version.deep_view(),
        r.ips@.len() == 1,
        r.ips@[0].address == al.address,
        r.ips@[0].interface is None,
        match (r.ips@[0].gateway, al.gateway) {
            (Some(a), Some(b)) => a == b,
            (None, None) => true,
            _ => false,
        },
        !with_default_route ==> r.routes@.len() == 0,
        with_default_route ==> r.routes@.len() == 1 && r.routes@[0].dst.prefix == 0
            && r.routes@[0].dst.ip.val() == 0 && r.routes@[0].dst.ip.same_family(al.address.ip)
            && (match (r.routes@[0].gw, al.gateway) {
            (Some(a), Some(b)) => a == b,
            (None, None) => true,
            _ => false,
        }),
        r.specific@.len() == 0,
    {
    let mut ips: Vec<Ip> = Vec::new();
    ips.push(
        Ip {
            address: al.address.copied(),
            gateway: match &al.gateway {
                Some(g) => Some(g.copied()),
                None => None,
            },
            interface: None,
        },
    );
    let mut routes: Vec<Route> = Vec::new();
    if with_default_route {
        let zero = match al.address.ip {
            IpAddress::V4(_) => IpAddress::V4(0),
            IpAddress::V6(_) => IpAddress::V6(0),
        };
        routes.push(
            Route {
                dst: Cidr::from_parts(zero, 0),
                gw: match &al.gateway {
                    Some(g) => Some(g.copied()),
                    None => None,
                },
            },
        );
    }
    IpamSuccessReply {
        cni_version: cni_version.copied(),
        ips,
        routes,
        dns: Dns::empty(),
        specific: Vec::new(),
    }
}

/// The reply of a successful DEL: empty lists, nothing else.
pub fn del_reply(cni_version: &Version) -> (r: IpamSuccessReply)
    ensures
        r.cni_version.deep_view() == cni_version.deep_view(),
        r.ips@.len() == 0,
        r.routes@.len() == 0,
        r.specific@.len() == 0,
{
    IpamSuccessReply {
        cni_version: cni_version.copied(),
        ips: Vec::new(),
        routes: Vec::new(),
        dns: Dns::empty(),
        specific: Vec::new(),
    }
}


/// A delete plan, with its indexes as store tokens.
pub open spec fn nat_plan(p: Seq<(Seq<char>, u64)>) -> Seq<(Seq<char>, nat)>
    decreases p.len(),
{
    if p.len() == 0 {
        Seq::empty()
    } else {
        nat_plan(p.drop_last()).push((p.last().0, p.last().1 as nat))
    }
}

/// Membership carries over into the token view of a plan.
proof fn lemma_nat_plan_contains(p: Seq<(Seq<char>, u64)>, k: Seq<char>, ix: u64)
    requires
        p.contains((k, ix)),
    ensures
        nat_plan(p).contains((k, ix as nat)),
    decreases p.len(),
{
    let i = choose|i: int| 0 <= i < p.len() && p[i] == (k, ix);
    if i == p.len() - 1 {
        assert(nat_plan(p).last() == (k, ix as nat));
        assert(nat_plan(p)[nat_plan(p).len() - 1] == (k, ix as nat));
    } else {
        assert(p.drop_last()[i] == p[i]);
        lemma_nat_plan_contains(p.drop_last(), k, ix);
        let j = choose|j: int| 0 <= j < nat_plan(p.drop_last()).len() && nat_plan(
            p.drop_last(),
        )[j] == (k, ix as nat);
        assert(nat_plan(p)[j] == (k, ix as nat));
    }
}

/// An ADD followed by a DEL with the same container id releases
/// everything: every store key reserved for that container — any key the
/// DEL read back as one of its own entries, at the index it is stored at
/// — is gone once the planned deletes are applied. Entries of other
/// containers, and entries re-reserved at a newer index, are left alone
/// by the plan's conditional indexes.
pub proof fn lemma_del_releases(
    s: crate::kv::KvState,
    known: Seq<KnownPoolEntry>,
    cid: Seq<char>,
    pool_name: Seq<char>,
    sel: Set<Seq<char>>,
)
    requires
        forall|k: Seq<char>| sel.contains(k) && #[trigger] s.entries.contains_key(k)
            ==> exists|j: int|
            0 <= j < known.len() && (#[trigger] known[j]).target@ == cid && "ipam/"@ + pool_name
                + "/"@ + known[j].ip.text@ == k && known[j].index as nat
                == s.entries[k].modify_index,
    ensures
        forall|k: Seq<char>| sel.contains(k) ==> !(#[trigger] crate::kv::apply_deletes(
            s,
            nat_plan(del_plan(known, cid, pool_name)),
        ).entries.contains_key(k)),
{
    let plan = nat_plan(del_plan(known, cid, pool_name));
    assert forall|k: Seq<char>| sel.contains(k) && #[trigger] s.entries.contains_key(k)
        implies plan.contains((k, s.entries[k].modify_index)) by {
        let j = choose|j: int|
            0 <= j < known.len() && (#[trigger] known[j]).target@ == cid && "ipam/"@ + pool_name
                + "/"@ + known[j].ip.text@ == k && known[j].index as nat
                == s.entries[k].modify_index;
        lemma_del_plan_covers(known, cid, pool_name, j);
        lemma_nat_plan_contains(
            del_plan(known, cid, pool_name),
            "ipam/"@ + pool_name + "/"@ + known[j].ip.text@,
            known[j].index,
        );
    }
    crate::kv::lemma_deletes_release(s, plan, sel);
}

} // verus!
