//! The IPAM selector: which pool a workload draws from.
//!
//! The selector reads the orchestrator's allocation record and emits a
//! reply whose `pools` member names the pool, and the requested address
//! when the workload pins one. It allocates nothing itself.

use vstd::prelude::*;

use crate::ip::Address;
use crate::json::{json_as_arr, json_as_obj, json_as_str, obj_get, obj_get_v, JsonV, JsonValue};
use crate::reply::{Dns, Ip, IpamSuccessReply};
use crate::version::Version;

verus! {

/// One network of a task group.
pub struct Network {
    /// The networking mode, as the orchestrator reports it.
    pub mode: String,
}

/// The metadata of a task group that the selector reads.
pub struct Meta {
    /// The pool the group draws from, if set.
    pub network_pool: Option<String>,
    /// The address the group pins, if set.
    pub network_ip: Option<Address>,
}

/// One task group of a job.
pub struct Group {
    /// The group's name.
    pub name: String,
    /// The group's metadata; empty when the record has none.
    pub meta: Meta,
    /// The group's networks; empty when the record has none.
    pub networks: Vec<Network>,
}

/// The job of an allocation.
pub struct Job {
    /// The job's task groups.
    pub task_groups: Vec<Group>,
}

/// An allocation record, as the orchestrator serves it.
pub struct Alloc {
    /// The name of the task group this allocation is for.
    pub task_group: String,
    /// The job the allocation belongs to.
    pub job: Job,
}

/// The parts of the selector's records, in specification land.
pub ghost struct NetworkV {
    pub mode: Seq<char>,
}

pub ghost struct MetaV {
    pub network_pool: Option<Seq<char>>,
    pub network_ip: Option<crate::ip::AddressV>,
}

pub ghost struct GroupV {
    pub name: Seq<char>,
    pub meta: MetaV,
    pub networks: Seq<NetworkV>,
}

pub ghost struct JobV {
    pub task_groups: Seq<GroupV>,
}

pub ghost struct AllocV {
    pub task_group: Seq<char>,
    pub job: JobV,
}

impl vstd::prelude::DeepView for Network {
    type V = NetworkV;

    open spec fn deep_view(&self) -> NetworkV {
        NetworkV { mode: self.mode@ }
    }
}

impl vstd::prelude::DeepView for Meta {
    type V = MetaV;

    open spec fn deep_view(&self) -> MetaV {
        MetaV {
            network_pool: match self.network_pool {
                Some(p) => Some(p@),
                None => None,
            },
            network_ip: match self.network_ip {
                Some(a) => Some(a.deep_view()),
                None => None,
            },
        }
    }
}

impl vstd::prelude::DeepView for Group {
    type V = GroupV;

    open spec fn deep_view(&self) -> GroupV {
        GroupV {
            name: self.name@,
            meta: self.meta.deep_view(),
            networks: self.networks.deep_view(),
        }
    }
}

impl vstd::prelude::DeepView for Job {
    type V = JobV;

    open spec fn deep_view(&self) -> JobV {
        JobV { task_groups: self.task_groups.deep_view() }
    }
}

impl vstd::prelude::DeepView for Alloc {
    type V = AllocV;

    open spec fn deep_view(&self) -> AllocV {
        AllocV { task_group: self.task_group@, job: self.job.deep_view() }
    }
}

/// What a document denotes as a group's metadata: members the selector
/// does not read are ignored, and anything but an object counts as
/// absent (the orchestrator serves null for an empty one).
pub open spec fn meta_of_jv(j: Option<JsonV>) -> Option<MetaV> {
    match j {
        Some(JsonV::Obj(mo)) => {
            let pool = match obj_get_v(mo, "network-pool"@) {
                None => Some(None),
                Some(JsonV::Str(p)) => Some(Some(p)),
                Some(_) => None,
            };
            let ip = match obj_get_v(mo, "network-ip"@) {
                None => Some(None),
                Some(JsonV::Str(t)) => match crate::ip::ip_of(t) {
                    Some(v) => Some(
                        Some(crate::ip::AddressV { text: t, value: v }),
                    ),
                    None => None,
                },
                Some(_) => None,
            };
            if pool is Some && ip is Some {
                Some(MetaV { network_pool: pool.unwrap(), network_ip: ip.unwrap() })
            } else {
                None
            }
        },
        _ => Some(MetaV { network_pool: None, network_ip: None }),
    }
}

/// What a list of documents denotes as networks: each must carry a
/// `Mode` string.
pub open spec fn networks_of_jv(s: Seq<JsonV>) -> Option<Seq<NetworkV>>
    decreases s.len(),
{
    if s.len() == 0 {
        Some(Seq::empty())
    } else {
        let head = match s[0] {
            JsonV::Obj(no) => match obj_get_v(no, "Mode"@) {
                Some(JsonV::Str(m)) => Some(NetworkV { mode: m }),
                _ => None,
            },
            _ => None,
        };
        match (head, networks_of_jv(s.drop_first())) {
            (Some(n), Some(rest)) => Some(seq![n] + rest),
            _ => None,
        }
    }
}

/// What a document denotes as a task group: the name is required; the
/// metadata and networks fall back to empty, anything else unreadable
/// fails.
pub open spec fn group_of_jv(j: JsonV) -> Option<GroupV> {
    match j {
        JsonV::Obj(o) => {
            let name = obj_get_v(o, "Name"@);
            if !(name matches Some(JsonV::Str(_))) {
                None
            } else {
                let meta = meta_of_jv(obj_get_v(o, "Meta"@));
                let networks = match obj_get_v(o, "Networks"@) {
                    Some(JsonV::Arr(xs)) => networks_of_jv(xs),
                    _ => Some(Seq::empty()),
                };
                match (meta, networks) {
                    (Some(m), Some(ns)) => Some(
                        GroupV { name: name->Some_0->Str_0, meta: m, networks: ns },
                    ),
                    _ => None,
                }
            }
        },
        _ => None,
    }
}

/// What a list of documents denotes as task groups.
pub open spec fn groups_of_jv(s: Seq<JsonV>) -> Option<Seq<GroupV>>
    decreases s.len(),
{
    if s.len() == 0 {
        Some(Seq::empty())
    } else {
        match (group_of_jv(s[0]), groups_of_jv(s.drop_first())) {
            (Some(g), Some(rest)) => Some(seq![g] + rest),
            _ => None,
        }
    }
}

/// What a document denotes as an allocation record: the task-group name
/// and the job's group list are required.
pub open spec fn alloc_of_jv(j: JsonV) -> Option<AllocV> {
    match j {
        JsonV::Obj(o) => {
            let tg = obj_get_v(o, "TaskGroup"@);
            if !(tg matches Some(JsonV::Str(_))) {
                None
            } else {
                match obj_get_v(o, "Job"@) {
                    Some(JsonV::Obj(jo)) => match obj_get_v(jo, "TaskGroups"@) {
                        Some(JsonV::Arr(xs)) => match groups_of_jv(xs) {
                            Some(gs) => Some(
                                AllocV {
                                    task_group: tg->Some_0->Str_0,
                                    job: JobV { task_groups: gs },
                                },
                            ),
                            None => None,
                        },
                        _ => None,
                    },
                    _ => None,
                }
            }
        },
        _ => None,
    }
}

/// A failed member fails its whole list.
proof fn lemma_networks_of_bad(s: Seq<JsonV>, k: int)
    requires
        0 <= k < s.len(),
        match s[k] {
            JsonV::Obj(no) => !(obj_get_v(no, "Mode"@) matches Some(JsonV::Str(_))),
            _ => true,
        },
    ensures
        networks_of_jv(s) is None,
    decreases s.len(),
{
    if k > 0 {
        assert(s.drop_first()[k - 1] == s[k]);
        lemma_networks_of_bad(s.drop_first(), k - 1);
    }
}

/// A failed member fails its whole list.
proof fn lemma_groups_of_bad(s: Seq<JsonV>, k: int)
    requires
        0 <= k < s.len(),
        group_of_jv(s[k]) is None,
    ensures
        groups_of_jv(s) is None,
    decreases s.len(),
{
    if k > 0 {
        assert(s.drop_first()[k - 1] == s[k]);
        lemma_groups_of_bad(s.drop_first(), k - 1);
    }
}

impl Group {
    /// Reads a task group out of a document: the name is required; the
    /// metadata and networks fall back to empty.
    #[verifier::loop_isolation(false)]
    #[verifier::rlimit(100)]
    pub fn from_json(j: &JsonValue) -> (r: Option<Group>)
        ensures
            match r {
                Some(g) => group_of_jv(j.deep_view()) == Some(g.deep_view()) && (
                match g.meta.network_ip {
                    Some(a) => a.wf(),
                    None => true,
                }),
                None => group_of_jv(j.deep_view()) is None,
            },
    {
        let o = match json_as_obj(j) {
            Some(o) => o,
            None => {
                return None;
            },
        };
        let name = match obj_get(o, "Name") {
            Some(v) => match json_as_str(v) {
                Some(t) => t.clone(),
                None => {
                    return None;
                },
            },
            None => {
                return None;
            },
        };
        let meta = match obj_get(o, "Meta") {
            Some(mv) => match json_as_obj(mv) {
                Some(mo) => {
                    let network_pool = match obj_get(mo, "network-pool") {
                        Some(v) => match json_as_str(v) {
                            Some(t) => Some(t.clone()),
                            None => {
                                return None;
                            },
                        },
                        None => None,
                    };
                    let network_ip = match obj_get(mo, "network-ip") {
                        Some(v) => match json_as_str(v) {
                            Some(t) => match Address::parse(t.as_str()) {
                                Some(a) => Some(a),
                                None => {
                                    return None;
                                },
                            },
                            None => {
                                return None;
                            },
                        },
                        None => None,
                    };
                    Meta { network_pool, network_ip }
                },
                None => Meta { network_pool: None, network_ip: None },
            },
            None => Meta { network_pool: None, network_ip: None },
        };
        let networks = match obj_get(o, "Networks") {
            Some(nv) => match json_as_arr(nv) {
                Some(xs) => {
                    proof {
                        crate::json::lemma_deep_arr(xs@);
                        assert(crate::json::deep_arr(xs@).skip(0) =~= crate::json::deep_arr(
                            xs@,
                        ));
                    }
                    let ghost da = crate::json::deep_arr(xs@);
                    let mut out: Vec<Network> = Vec::new();
                    let mut i: usize = 0;
                    proof {
                        assert(out.deep_view() =~= Seq::<NetworkV>::empty());
                    }
                    while i < xs.len()
                        invariant
                            i <= xs@.len(),
                            match networks_of_jv(da.skip(i as int)) {
                                Some(rest) => networks_of_jv(da) == Some(
                                    out.deep_view() + rest,
                                ),
                                None => networks_of_jv(da) is None,
                            },
                        decreases xs@.len() - i,
                    {
                        let ghost tail = da.skip(i as int);
                        proof {
                            assert(tail[0] == da[i as int]);
                            assert(tail.drop_first() =~= da.skip(i + 1));
                            assert(da[i as int] == xs@[i as int].deep_view());
                        }
                        match json_as_obj(&xs[i]) {
                            Some(no) => match obj_get(no, "Mode") {
                                Some(v) => match json_as_str(v) {
                                    Some(t) => {
                                        let ghost prev = out.deep_view();
                                        out.push(Network { mode: t.clone() });
                                        proof {
                                            assert(out.deep_view() =~= prev.push(
                                                NetworkV { mode: t@ },
                                            ));
                                            match networks_of_jv(da.skip(i + 1)) {
                                                Some(rest) => {
                                                    assert(prev + (seq![NetworkV { mode: t@ }]
                                                        + rest) =~= out.deep_view() + rest);
                                                },
                                                None => {},
                                            }
                                        }
                                    },
                                    None => {
                                        proof {
                                            lemma_networks_of_bad(da, i as int);
                                        }
                                        return None;
                                    },
                                },
                                None => {
                                    proof {
                                        lemma_networks_of_bad(da, i as int);
                                    }
                                    return None;
                                },
                            },
                            None => {
                                proof {
                                    lemma_networks_of_bad(da, i as int);
                                }
                                return None;
                            },
                        }
                        i = i + 1;
                    }
                    proof {
                        assert(da.skip(da.len() as int) =~= Seq::<JsonV>::empty());
                        assert(out.deep_view() + Seq::<NetworkV>::empty() =~= out.deep_view());
                    }
                    out
                },
                None => {
                    let e: Vec<Network> = Vec::new();
                    proof {
                        assert(e.deep_view() =~= Seq::<NetworkV>::empty());
                    }
                    e
                },
            },
            None => {
                let e: Vec<Network> = Vec::new();
                proof {
                    assert(e.deep_view() =~= Seq::<NetworkV>::empty());
                }
                e
            },
        };
        Some(Group { name, meta, networks })
    }
}

impl Alloc {
    /// Reads an allocation record out of a document: `TaskGroup` and
    /// `Job.TaskGroups` are required.
    #[verifier::loop_isolation(false)]
    #[verifier::rlimit(100)]
    pub fn from_json(j: &JsonValue) -> (r: Option<Alloc>)
        ensures
            match r {
                Some(al) => alloc_of_jv(j.deep_view()) == Some(al.deep_view()) && (forall|k: int|
                    0 <= k < al.job.task_groups@.len() ==> (match (
                    #[trigger] al.job.task_groups@[k]).meta.network_ip {
                        Some(a) => a.wf(),
                        None => true,
                    })),
                None => alloc_of_jv(j.deep_view()) is None,
            },
    {
        let o = match json_as_obj(j) {
            Some(o) => o,
            None => {
                return None;
            },
        };
        let task_group = match obj_get(o, "TaskGroup") {
            Some(v) => match json_as_str(v) {
                Some(t) => t.clone(),
                None => {
                    return None;
                },
            },
            None => {
                return None;
            },
        };
        let job_o = match obj_get(o, "Job") {
            Some(v) => match json_as_obj(v) {
                Some(jo) => jo,
                None => {
                    return None;
                },
            },
            None => {
                return None;
            },
        };
        let groups_v = match obj_get(job_o, "TaskGroups") {
            Some(v) => match json_as_arr(v) {
                Some(xs) => xs,
                None => {
                    return None;
                },
            },
            None => {
                return None;
            },
        };
        proof {
            crate::json::lemma_deep_arr(groups_v@);
            assert(crate::json::deep_arr(groups_v@).skip(0) =~= crate::json::deep_arr(
                groups_v@,
            ));
        }
        let ghost da = crate::json::deep_arr(groups_v@);
        let mut task_groups: Vec<Group> = Vec::new();
        let mut i: usize = 0;
        proof {
            assert(task_groups.deep_view() =~= Seq::<GroupV>::empty());
        }
        while i < groups_v.len()
            invariant
                i <= groups_v@.len(),
                forall|k: int| 0 <= k < task_groups@.len() ==> (match (
                #[trigger] task_groups@[k]).meta.network_ip {
                    Some(a) => a.wf(),
                    None => true,
                }),
                match groups_of_jv(da.skip(i as int)) {
                    Some(rest) => groups_of_jv(da) == Some(task_groups.deep_view() + rest),
                    None => groups_of_jv(da) is None,
                },
            decreases groups_v@.len() - i,
        {
            let ghost tail = da.skip(i as int);
            proof {
                assert(tail[0] == da[i as int]);
                assert(tail.drop_first() =~= da.skip(i + 1));
                assert(da[i as int] == groups_v@[i as int].deep_view());
            }
            match Group::from_json(&groups_v[i]) {
                Some(g) => {
                    let ghost prev = task_groups.deep_view();
                    let ghost gv = g.deep_view();
                    task_groups.push(g);
                    proof {
                        assert(task_groups.deep_view() =~= prev.push(gv));
                        match groups_of_jv(da.skip(i + 1)) {
                            Some(rest) => {
                                assert(prev + (seq![gv] + rest) =~= task_groups.deep_view()
                                    + rest);
                            },
                            None => {},
                        }
                    }
                },
                None => {
                    proof {
                        lemma_groups_of_bad(da, i as int);
                    }
                    return None;
                },
            }
            i = i + 1;
        }
        proof {
            assert(da.skip(da.len() as int) =~= Seq::<JsonV>::empty());
            assert(task_groups.deep_view() + Seq::<GroupV>::empty()
                =~= task_groups.deep_view());
        }
        Some(Alloc { task_group, job: Job { task_groups } })
    }

    /// The task group this allocation is for, by name.
    pub fn own_group(&self) -> (r: Option<&Group>)
        ensures
            match r {
                Some(g) => exists|k: int|
                    0 <= k < self.job.task_groups@.len() && (#[trigger] self.job.task_groups@[
                        k]).name@ == self.task_group@ && self.job.task_groups@[k] == *g,
                None => forall|k: int| 0 <= k < self.job.task_groups@.len()
                    ==> (#[trigger] self.job.task_groups@[k]).name@ != self.task_group@,
            },
    {
        let mut i: usize = 0;
        #[verifier::loop_isolation(false)]
        while i < self.job.task_groups.len()
            invariant
                i <= self.job.task_groups@.len(),
                forall|k: int| 0 <= k < i ==> (#[trigger] self.job.task_groups@[k]).name@
                    != self.task_group@,
            decreases self.job.task_groups@.len() - i,
        {
            if crate::json::str_eq(
                self.job.task_groups[i].name.as_str(),
                self.task_group.as_str(),
            ) {
                return Some(&self.job.task_groups[i]);
            }
            i = i + 1;
        }
        None
    }
}

/// The document of one pool selection: the name, and the requested
/// address when one is pinned.
pub open spec fn pool_selection_jv(name: Seq<char>, requested: Option<Seq<char>>) -> JsonV {
    JsonV::Obj(
        seq![("name"@, JsonV::Str(name))] + (match requested {
            Some(t) => seq![("requestedIp"@, JsonV::Str(t))],
            None => Seq::empty(),
        }),
    )
}

/// The selector's reply: no addresses of its own (the previous reply's
/// addresses carried over where given), and a `pools` member naming the
/// selected pool.
pub fn selector_reply(
    cni_version: &Version,
    pool_name: &str,
    requested: &Option<Address>,
    carried_ips: Vec<Ip>,
) -> (r: IpamSuccessReply)
    ensures
        r.cni_version.deep_view() == cni_version.deep_view(),
        r.ips == carried_ips,
        r.routes@.len() == 0,
        r.specific@.len() == 1,
        r.specific@[0].0@ == "pools"@,
        r.specific@[0].1.deep_view() == JsonV::Arr(
            seq![
                pool_selection_jv(
                    pool_name@,
                    match requested {
                        Some(a) => Some(a.text@),
                        None => None,
                    },
                ),
            ],
        ),
{
    let mut members: Vec<(String, JsonValue)> = Vec::new();
    members.push(("name".to_owned(), JsonValue::Str(pool_name.to_owned())));
    match requested {
        Some(a) => {
            members.push(("requestedIp".to_owned(), JsonValue::Str(a.text.clone())));
        },
        None => {},
    }
    let pool = JsonValue::Obj(members);
    proof {
        crate::reply::lemma_deep_obj_members(pool);
        crate::json::lemma_deep_obj(pool->Obj_0@);
        assert(pool.deep_view() matches JsonV::Obj(o) && o =~= (match pool_selection_jv(
            pool_name@,
            match requested {
                Some(a) => Some(a.text@),
                None => None,
            },
        ) {
            JsonV::Obj(o2) => o2,
            _ => Seq::empty(),
        }));
    }
    let mut pools: Vec<JsonValue> = Vec::new();
    pools.push(pool);
    let pools_doc = JsonValue::Arr(pools);
    proof {
        assert(pools_doc.deep_view() matches JsonV::Arr(xs) && xs =~= seq![
            pool_selection_jv(
                pool_name@,
                match requested {
                    Some(a) => Some(a.text@),
                    None => None,
                },
            ),
        ]) by {
            crate::json::lemma_deep_arr(pools_doc->Arr_0@);
        }
    }
    let mut specific: Vec<(String, JsonValue)> = Vec::new();
    specific.push(("pools".to_owned(), pools_doc));
    IpamSuccessReply {
        cni_version: cni_version.copied(),
        ips: carried_ips,
        routes: Vec::new(),
        dns: Dns::empty(),
        specific,
    }
}

} // verus!
