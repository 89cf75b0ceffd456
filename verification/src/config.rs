//! The network configuration a plugin is given on standard input.
//!
//! Parsing and printing are exact inverses: a configuration read out of a
//! document prints back to a document that reads as the same
//! configuration (see [`lemma_config_round_trip`]), and custom keys
//! survive the trip verbatim.

use vstd::prelude::*;

use crate::json::{has_key, lemma_obj_get_concat, obj_get_v, JsonV, JsonValue};
use crate::reply::{
    copy_members, lemma_has_key_single, lemma_strip_concat, lemma_strip_id,
    lemma_strip_no_keys, strip_keys, strip_members,
};
use crate::version::{parse_version, version_chars, Version, VersionV};

verus! {

/// IP address management configuration, nested inside a network
/// configuration.
pub struct IpamConfig {
    /// The name of the IPAM plugin binary on disk (`type` in the JSON).
    pub plugin: String,
    /// All other IPAM members, preserved verbatim.
    pub specific: Vec<(String, JsonValue)>,
}

/// The parts of IPAM configuration, in specification land.
pub ghost struct IpamV {
    pub plugin: Seq<char>,
    pub specific: Seq<(Seq<char>, JsonV)>,
}

impl vstd::prelude::DeepView for IpamConfig {
    type V = IpamV;

    open spec fn deep_view(&self) -> IpamV {
        IpamV { plugin: self.plugin@, specific: crate::json::deep_obj(self.specific@) }
    }
}

/// The document of IPAM configuration.
pub open spec fn ipam_jv(v: IpamV) -> JsonV {
    JsonV::Obj(seq![("type"@, JsonV::Str(v.plugin))] + v.specific)
}

/// What a document denotes as IPAM configuration.
pub open spec fn ipam_of_jv(j: JsonV) -> Option<IpamV> {
    match j {
        JsonV::Obj(o) => {
            match obj_get_v(o, "type"@) {
                Some(JsonV::Str(p)) => Some(
                    IpamV { plugin: p, specific: strip_keys(o, seq!["type"@]) },
                ),
                _ => None,
            }
        },
        _ => None,
    }
}

/// Reading IPAM configuration back from its printed document yields the
/// configuration, when its custom members shadow no known key.
pub proof fn lemma_ipam_round_trip(v: IpamV)
    requires
        forall|i: int| 0 <= i < v.specific.len() ==> (#[trigger] v.specific[i]).0 != "type"@,
    ensures
        ipam_of_jv(ipam_jv(v)) == Some(v),
{
    let m = ("type"@, JsonV::Str(v.plugin));
    let o = seq![m] + v.specific;
    lemma_obj_get_concat(seq![m], v.specific, "type"@);
    lemma_has_key_single(m, "type"@);
    lemma_strip_concat(seq![m], v.specific, seq!["type"@]);
    assert(seq!["type"@][0] == "type"@);
    assert(seq!["type"@].contains(m.0));
    assert(seq![m].drop_first() =~= Seq::<(Seq<char>, JsonV)>::empty());
    assert(strip_keys(Seq::<(Seq<char>, JsonV)>::empty(), seq!["type"@])
        =~= Seq::<(Seq<char>, JsonV)>::empty());
    assert(strip_keys(seq![m], seq!["type"@]) =~= Seq::<(Seq<char>, JsonV)>::empty());
    assert forall|i: int| 0 <= i < v.specific.len() implies !seq!["type"@].contains(
        (#[trigger] v.specific[i]).0,
    ) by {
        if seq!["type"@].contains(v.specific[i].0) {
            let k = choose|k: int| 0 <= k < 1 && seq!["type"@][k] == v.specific[i].0;
        }
    }
    lemma_strip_id(v.specific, seq!["type"@]);
    assert(Seq::<(Seq<char>, JsonV)>::empty() + v.specific =~= v.specific);
}

impl IpamConfig {
    /// The document of this configuration.
    pub fn to_json(&self) -> (r: JsonValue)
        ensures
            r.deep_view() == ipam_jv(self.deep_view()),
    {
        let mut members: Vec<(String, JsonValue)> = Vec::new();
        members.push(("type".to_owned(), JsonValue::Str(self.plugin.clone())));
        let mut rest = copy_members(&self.specific);
        proof {
            crate::json::lemma_deep_obj(members@);
            crate::json::lemma_deep_obj(rest@);
        }
        let ghost head = members@;
        let ghost rest0 = rest@;
        members.append(&mut rest);
        let r = JsonValue::Obj(members);
        proof {
            crate::reply::lemma_deep_obj_members(r);
            assert(members@ == head + rest0);
            crate::reply::lemma_deep_obj_append(head, rest0);
            assert(r.deep_view() matches JsonV::Obj(o) && o =~= (match ipam_jv(self.deep_view()) {
                JsonV::Obj(o2) => o2,
                _ => Seq::empty(),
            }));
        }
        r
    }

    /// Reads IPAM configuration out of a document.
    pub fn from_json(j: &JsonValue) -> (r: Option<IpamConfig>)
        ensures
            match r {
                Some(v) => ipam_of_jv(j.deep_view()) == Some(v.deep_view()),
                None => ipam_of_jv(j.deep_view()) is None,
            },
    {
        let o = match crate::json::json_as_obj(j) {
            Some(o) => o,
            None => {
                return None;
            },
        };
        let plugin = match crate::json::obj_get(o, "type") {
            Some(v) => match crate::json::json_as_str(v) {
                Some(t) => t.clone(),
                None => {
                    return None;
                },
            },
            None => {
                return None;
            },
        };
        let mut keys: Vec<String> = Vec::new();
        keys.push("type".to_owned());
        proof {
            assert(keys.deep_view() =~= seq!["type"@]);
        }
        let specific = strip_members(o, &keys);
        Some(IpamConfig { plugin, specific })
    }

    /// A fresh copy of this configuration.
    pub fn copied(&self) -> (r: IpamConfig)
        ensures
            r.deep_view() == self.deep_view(),
    {
        IpamConfig { plugin: self.plugin.clone(), specific: copy_members(&self.specific) }
    }
}

/// Top-level network configuration, as provided to plugins by the
/// runtime.
pub struct NetworkConfig {
    /// The CNI spec version of this configuration.
    pub cni_version: Version,
    /// The name of the network configuration.
    pub name: String,
    /// The name of the top-level plugin binary (`type` in the JSON).
    pub plugin: String,
    /// Arbitrary arguments passed by the runtime; empty when absent.
    pub args: Vec<(String, JsonValue)>,
    /// Whether an IP masquerade must be set up on the host.
    pub ip_masq: bool,
    /// IP address management sub-configuration.
    pub ipam: Option<IpamConfig>,
    /// DNS sub-configuration, preserved verbatim.
    pub dns: Option<JsonValue>,
    /// Dynamic information provided by the runtime (`runtimeConfig`),
    /// preserved verbatim.
    pub runtime: Option<JsonValue>,
    /// The result of the previous plugin in a chain (`prevResult`),
    /// preserved verbatim.
    pub prev_result: Option<JsonValue>,
    /// Custom top-level members, preserved verbatim.
    pub specific: Vec<(String, JsonValue)>,
}

/// The parts of a network configuration, in specification land.
pub ghost struct ConfigV {
    pub cni_version: VersionV,
    pub name: Seq<char>,
    pub plugin: Seq<char>,
    pub args: Seq<(Seq<char>, JsonV)>,
    pub ip_masq: bool,
    pub ipam: Option<IpamV>,
    pub dns: Option<JsonV>,
    pub runtime: Option<JsonV>,
    pub prev_result: Option<JsonV>,
    pub specific: Seq<(Seq<char>, JsonV)>,
}

impl vstd::prelude::DeepView for NetworkConfig {
    type V = ConfigV;

    open spec fn deep_view(&self) -> ConfigV {
        ConfigV {
            cni_version: self.cni_version.deep_view(),
            name: self.name@,
            plugin: self.plugin@,
            args: crate::json::deep_obj(self.args@),
            ip_masq: self.ip_masq,
            ipam: match self.ipam {
                Some(v) => Some(v.deep_view()),
                None => None,
            },
            dns: match self.dns {
                Some(v) => Some(v.deep_view()),
                None => None,
            },
            runtime: match self.runtime {
                Some(v) => Some(v.deep_view()),
                None => None,
            },
            prev_result: match self.prev_result {
                Some(v) => Some(v.deep_view()),
                None => None,
            },
            specific: crate::json::deep_obj(self.specific@),
        }
    }
}

/// The top-level keys the configuration itself understands.
pub open spec fn config_keys() -> Seq<Seq<char>> {
    seq![
        "cniVersion"@,
        "name"@,
        "type"@,
        "args"@,
        "ipMasq"@,
        "ipam"@,
        "dns"@,
        "runtimeConfig"@,
        "prevResult"@,
    ]
}

/// The document of a network configuration: the known members first, in
/// a fixed order, then the custom members verbatim.
pub open spec fn config_jv(c: ConfigV) -> JsonV {
    JsonV::Obj(
        seq![
            ("cniVersion"@, JsonV::Str(version_chars(c.cni_version))),
            ("name"@, JsonV::Str(c.name)),
            ("type"@, JsonV::Str(c.plugin)),
        ] + (if c.args.len() > 0 {
            seq![("args"@, JsonV::Obj(c.args))]
        } else {
            Seq::<(Seq<char>, JsonV)>::empty()
        }) + seq![("ipMasq"@, JsonV::Bool(c.ip_masq))] + (match c.ipam {
            Some(v) => seq![("ipam"@, ipam_jv(v))],
            None => Seq::<(Seq<char>, JsonV)>::empty(),
        }) + (match c.dns {
            Some(v) => seq![("dns"@, v)],
            None => Seq::<(Seq<char>, JsonV)>::empty(),
        }) + (match c.runtime {
            Some(v) => seq![("runtimeConfig"@, v)],
            None => Seq::<(Seq<char>, JsonV)>::empty(),
        }) + (match c.prev_result {
            Some(v) => seq![("prevResult"@, v)],
            None => Seq::<(Seq<char>, JsonV)>::empty(),
        }) + c.specific,
    )
}

/// What a document denotes as a network configuration.
pub open spec fn config_of_jv(j: JsonV) -> Option<ConfigV> {
    match j {
        JsonV::Obj(o) => {
            let ver = match obj_get_v(o, "cniVersion"@) {
                Some(JsonV::Str(vs)) => parse_version(vs),
                _ => None,
            };
            let name_ok = obj_get_v(o, "name"@) matches Some(JsonV::Str(_));
            let type_ok = obj_get_v(o, "type"@) matches Some(JsonV::Str(_));
            let args = match obj_get_v(o, "args"@) {
                Some(JsonV::Obj(m)) => Some(m),
                Some(_) => None,
                None => Some(Seq::<(Seq<char>, JsonV)>::empty()),
            };
            let masq = match obj_get_v(o, "ipMasq"@) {
                Some(JsonV::Bool(b)) => Some(b),
                Some(_) => None,
                None => Some(false),
            };
            let ipam = match obj_get_v(o, "ipam"@) {
                Some(x) => match ipam_of_jv(x) {
                    Some(v) => Some(Some(v)),
                    None => None,
                },
                None => Some(None),
            };
            if ver is Some && name_ok && type_ok && args is Some && masq is Some && ipam
                is Some {
                Some(
                    ConfigV {
                        cni_version: ver.unwrap(),
                        name: obj_get_v(o, "name"@)->Some_0->Str_0,
                        plugin: obj_get_v(o, "type"@)->Some_0->Str_0,
                        args: args.unwrap(),
                        ip_masq: masq.unwrap(),
                        ipam: ipam.unwrap(),
                        dns: obj_get_v(o, "dns"@),
                        runtime: obj_get_v(o, "runtimeConfig"@),
                        prev_result: obj_get_v(o, "prevResult"@),
                        specific: strip_keys(o, config_keys()),
                    },
                )
            } else {
                None
            }
        },
        _ => None,
    }
}


/// Resolves one key lookup through the printed configuration's members.
#[verifier::rlimit(100)]
proof fn config_key_lookup(c: ConfigV, k: Seq<char>)
    ensures
        obj_get_v(config_jv(c)->Obj_0, k) == (if "cniVersion"@ == k {
            Some(JsonV::Str(version_chars(c.cni_version)))
        } else if "name"@ == k {
            Some(JsonV::Str(c.name))
        } else if "type"@ == k {
            Some(JsonV::Str(c.plugin))
        } else if c.args.len() > 0 && "args"@ == k {
            Some(JsonV::Obj(c.args))
        } else if "ipMasq"@ == k {
            Some(JsonV::Bool(c.ip_masq))
        } else if c.ipam is Some && "ipam"@ == k {
            Some(ipam_jv(c.ipam.unwrap()))
        } else if c.dns is Some && "dns"@ == k {
            Some(c.dns.unwrap())
        } else if c.runtime is Some && "runtimeConfig"@ == k {
            Some(c.runtime.unwrap())
        } else if c.prev_result is Some && "prevResult"@ == k {
            Some(c.prev_result.unwrap())
        } else {
            obj_get_v(c.specific, k)
        }),
{
    let m1 = seq![("cniVersion"@, JsonV::Str(version_chars(c.cni_version)))];
    let m2 = seq![("name"@, JsonV::Str(c.name))];
    let m3 = seq![("type"@, JsonV::Str(c.plugin))];
    let m123 = seq![
        ("cniVersion"@, JsonV::Str(version_chars(c.cni_version))),
        ("name"@, JsonV::Str(c.name)),
        ("type"@, JsonV::Str(c.plugin)),
    ];
    let m4 = if c.args.len() > 0 {
        seq![("args"@, JsonV::Obj(c.args))]
    } else {
        Seq::<(Seq<char>, JsonV)>::empty()
    };
    let m5 = seq![("ipMasq"@, JsonV::Bool(c.ip_masq))];
    let m6 = match c.ipam {
        Some(v) => seq![("ipam"@, ipam_jv(v))],
        None => Seq::<(Seq<char>, JsonV)>::empty(),
    };
    let m7 = match c.dns {
        Some(v) => seq![("dns"@, v)],
        None => Seq::<(Seq<char>, JsonV)>::empty(),
    };
    let m8 = match c.runtime {
        Some(v) => seq![("runtimeConfig"@, v)],
        None => Seq::<(Seq<char>, JsonV)>::empty(),
    };
    let m9 = match c.prev_result {
        Some(v) => seq![("prevResult"@, v)],
        None => Seq::<(Seq<char>, JsonV)>::empty(),
    };
    let o = config_jv(c)->Obj_0;
    assert(m123 =~= m1 + m2 + m3);
    assert(o == m123 + m4 + m5 + m6 + m7 + m8 + m9 + c.specific);
    assert(o =~= m1 + (m2 + (m3 + (m4 + (m5 + (m6 + (m7 + (m8 + (m9 + c.specific)))))))));
    lemma_has_key_single(("cniVersion"@, JsonV::Str(version_chars(c.cni_version))), k);
    lemma_has_key_single(("name"@, JsonV::Str(c.name)), k);
    lemma_has_key_single(("type"@, JsonV::Str(c.plugin)), k);
    if c.args.len() > 0 {
        lemma_has_key_single(("args"@, JsonV::Obj(c.args)), k);
    }
    lemma_has_key_single(("ipMasq"@, JsonV::Bool(c.ip_masq)), k);
    match c.ipam {
        Some(v) => {
            lemma_has_key_single(("ipam"@, ipam_jv(v)), k);
        },
        None => {},
    }
    match c.dns {
        Some(v) => {
            lemma_has_key_single(("dns"@, v), k);
        },
        None => {},
    }
    match c.runtime {
        Some(v) => {
            lemma_has_key_single(("runtimeConfig"@, v), k);
        },
        None => {},
    }
    match c.prev_result {
        Some(v) => {
            lemma_has_key_single(("prevResult"@, v), k);
        },
        None => {},
    }
    lemma_obj_get_concat(m1, m2 + (m3 + (m4 + (m5 + (m6 + (m7 + (m8 + (m9 + c.specific))))))), k);
    lemma_obj_get_concat(m2, m3 + (m4 + (m5 + (m6 + (m7 + (m8 + (m9 + c.specific)))))), k);
    lemma_obj_get_concat(m3, m4 + (m5 + (m6 + (m7 + (m8 + (m9 + c.specific))))), k);
    lemma_obj_get_concat(m4, m5 + (m6 + (m7 + (m8 + (m9 + c.specific)))), k);
    lemma_obj_get_concat(m5, m6 + (m7 + (m8 + (m9 + c.specific))), k);
    lemma_obj_get_concat(m6, m7 + (m8 + (m9 + c.specific)), k);
    lemma_obj_get_concat(m7, m8 + (m9 + c.specific), k);
    lemma_obj_get_concat(m8, m9 + c.specific, k);
    lemma_obj_get_concat(m9, c.specific, k);
    assert(!has_key(Seq::<(Seq<char>, JsonV)>::empty(), k));
    assert(obj_get_v(Seq::<(Seq<char>, JsonV)>::empty(), k) is None);
}

/// The known keys of the printed configuration strip away entirely,
/// leaving exactly the custom members.
#[verifier::rlimit(100)]
proof fn lemma_config_strip(c: ConfigV)
    requires
        forall|i: int| 0 <= i < c.specific.len() ==> !config_keys().contains(
            (#[trigger] c.specific[i]).0,
        ),
    ensures
        strip_keys(config_jv(c)->Obj_0, config_keys()) == c.specific,
{
    let keys = config_keys();
    assert(keys[0] == "cniVersion"@ && keys[1] == "name"@ && keys[2] == "type"@ && keys[3]
        == "args"@ && keys[4] == "ipMasq"@ && keys[5] == "ipam"@ && keys[6] == "dns"@ && keys[7]
        == "runtimeConfig"@ && keys[8] == "prevResult"@);
    let m1 = seq![("cniVersion"@, JsonV::Str(version_chars(c.cni_version)))];
    let m2 = seq![("name"@, JsonV::Str(c.name))];
    let m3 = seq![("type"@, JsonV::Str(c.plugin))];
    let m123 = seq![
        ("cniVersion"@, JsonV::Str(version_chars(c.cni_version))),
        ("name"@, JsonV::Str(c.name)),
        ("type"@, JsonV::Str(c.plugin)),
    ];
    let m4 = if c.args.len() > 0 {
        seq![("args"@, JsonV::Obj(c.args))]
    } else {
        Seq::<(Seq<char>, JsonV)>::empty()
    };
    let m5 = seq![("ipMasq"@, JsonV::Bool(c.ip_masq))];
    let m6 = match c.ipam {
        Some(v) => seq![("ipam"@, ipam_jv(v))],
        None => Seq::<(Seq<char>, JsonV)>::empty(),
    };
    let m7 = match c.dns {
        Some(v) => seq![("dns"@, v)],
        None => Seq::<(Seq<char>, JsonV)>::empty(),
    };
    let m8 = match c.runtime {
        Some(v) => seq![("runtimeConfig"@, v)],
        None => Seq::<(Seq<char>, JsonV)>::empty(),
    };
    let m9 = match c.prev_result {
        Some(v) => seq![("prevResult"@, v)],
        None => Seq::<(Seq<char>, JsonV)>::empty(),
    };
    let o = config_jv(c)->Obj_0;
    assert(m123 =~= m1 + m2 + m3);
    assert(o =~= m1 + (m2 + (m3 + (m4 + (m5 + (m6 + (m7 + (m8 + (m9 + c.specific)))))))));
    lemma_strip_concat(m1, m2 + (m3 + (m4 + (m5 + (m6 + (m7 + (m8 + (m9 + c.specific))))))), keys);
    lemma_strip_concat(m2, m3 + (m4 + (m5 + (m6 + (m7 + (m8 + (m9 + c.specific)))))), keys);
    lemma_strip_concat(m3, m4 + (m5 + (m6 + (m7 + (m8 + (m9 + c.specific))))), keys);
    lemma_strip_concat(m4, m5 + (m6 + (m7 + (m8 + (m9 + c.specific)))), keys);
    lemma_strip_concat(m5, m6 + (m7 + (m8 + (m9 + c.specific))), keys);
    lemma_strip_concat(m6, m7 + (m8 + (m9 + c.specific)), keys);
    lemma_strip_concat(m7, m8 + (m9 + c.specific), keys);
    lemma_strip_concat(m8, m9 + c.specific, keys);
    lemma_strip_concat(m9, c.specific, keys);
    lemma_strip_singleton_known(("cniVersion"@, JsonV::Str(version_chars(c.cni_version))), keys, 0);
    lemma_strip_singleton_known(("name"@, JsonV::Str(c.name)), keys, 1);
    lemma_strip_singleton_known(("type"@, JsonV::Str(c.plugin)), keys, 2);
    if c.args.len() > 0 {
        lemma_strip_singleton_known(("args"@, JsonV::Obj(c.args)), keys, 3);
    }
    lemma_strip_singleton_known(("ipMasq"@, JsonV::Bool(c.ip_masq)), keys, 4);
    match c.ipam {
        Some(v) => {
            lemma_strip_singleton_known(("ipam"@, ipam_jv(v)), keys, 5);
        },
        None => {},
    }
    match c.dns {
        Some(v) => {
            lemma_strip_singleton_known(("dns"@, v), keys, 6);
        },
        None => {},
    }
    match c.runtime {
        Some(v) => {
            lemma_strip_singleton_known(("runtimeConfig"@, v), keys, 7);
        },
        None => {},
    }
    match c.prev_result {
        Some(v) => {
            lemma_strip_singleton_known(("prevResult"@, v), keys, 8);
        },
        None => {},
    }
    assert(strip_keys(Seq::<(Seq<char>, JsonV)>::empty(), keys)
        =~= Seq::<(Seq<char>, JsonV)>::empty());
    lemma_strip_id(c.specific, keys);
    assert(strip_keys(o, keys) =~= c.specific);
}

/// Stripping a known member leaves nothing.
proof fn lemma_strip_singleton_known(m: (Seq<char>, JsonV), keys: Seq<Seq<char>>, ix: int)
    requires
        0 <= ix < keys.len(),
        keys[ix] == m.0,
    ensures
        strip_keys(seq![m], keys) == Seq::<(Seq<char>, JsonV)>::empty(),
{
    assert(keys.contains(m.0));
    assert(seq![m].drop_first() =~= Seq::<(Seq<char>, JsonV)>::empty());
    assert(strip_keys(Seq::<(Seq<char>, JsonV)>::empty(), keys)
        =~= Seq::<(Seq<char>, JsonV)>::empty());
    assert(strip_keys(seq![m], keys) =~= Seq::<(Seq<char>, JsonV)>::empty());
}

/// Reading a configuration back from its printed document yields the
/// configuration: parsing and printing are exact inverses, and custom
/// keys survive the trip. This holds of every configuration a document
/// yields.
#[verifier::rlimit(100)]
pub proof fn lemma_config_round_trip(j: JsonV)
    requires
        config_of_jv(j) is Some,
    ensures
        config_of_jv(config_jv(config_of_jv(j).unwrap())) == Some(config_of_jv(j).unwrap()),
{
    reveal_strlit("cniVersion");
    reveal_strlit("name");
    reveal_strlit("type");
    reveal_strlit("args");
    reveal_strlit("ipMasq");
    reveal_strlit("ipam");
    reveal_strlit("dns");
    reveal_strlit("runtimeConfig");
    reveal_strlit("prevResult");
    assert("cniVersion"@.len() == 10 && "name"@.len() == 4 && "type"@.len() == 4 && "args"@.len()
        == 4 && "ipMasq"@.len() == 6 && "ipam"@.len() == 4 && "dns"@.len() == 3
        && "runtimeConfig"@.len() == 13 && "prevResult"@.len() == 10);
    assert("name"@[0] == 'n' && "type"@[0] == 't' && "args"@[0] == 'a' && "ipam"@[0] == 'i');
    assert("cniVersion"@[0] == 'c' && "prevResult"@[0] == 'p');
    assert("name"@ != "type"@ && "name"@ != "args"@ && "name"@ != "ipam"@ && "type"@ != "args"@
        && "type"@ != "ipam"@ && "args"@ != "ipam"@ && "cniVersion"@ != "prevResult"@);
    let c = config_of_jv(j).unwrap();
    let orig = j->Obj_0;
    let o2 = config_jv(c)->Obj_0;
    // the original version text prints back unchanged
    let vs0 = obj_get_v(orig, "cniVersion"@)->Some_0->Str_0;
    crate::version::lemma_version_text_round_trip(vs0);
    assert(version_chars(c.cni_version) == vs0);
    config_key_lookup(c, "cniVersion"@);
    config_key_lookup(c, "name"@);
    config_key_lookup(c, "type"@);
    config_key_lookup(c, "args"@);
    config_key_lookup(c, "ipMasq"@);
    config_key_lookup(c, "ipam"@);
    config_key_lookup(c, "dns"@);
    config_key_lookup(c, "runtimeConfig"@);
    config_key_lookup(c, "prevResult"@);
    // the nested IPAM document reads back as itself
    match c.ipam {
        Some(v) => {
            let x = obj_get_v(orig, "ipam"@).unwrap();
            assert(ipam_of_jv(x) == Some(v));
            lemma_strip_no_keys(x->Obj_0, seq!["type"@]);
            assert forall|i: int| 0 <= i < v.specific.len() implies (#[trigger] v.specific[i]).0
                != "type"@ by {
                assert(seq!["type"@][0] == "type"@);
                if v.specific[i].0 == "type"@ {
                    assert(seq!["type"@].contains(v.specific[i].0));
                }
            }
            lemma_ipam_round_trip(v);
        },
        None => {},
    }
    // the custom members survive
    lemma_strip_no_keys(orig, config_keys());
    assert forall|i: int| 0 <= i < c.specific.len() implies !config_keys().contains(
        (#[trigger] c.specific[i]).0,
    ) by {
        assert(c.specific[i] == strip_keys(orig, config_keys())[i]);
    }
    lemma_config_strip(c);
    if c.args.len() == 0 {
        assert(c.args =~= Seq::<(Seq<char>, JsonV)>::empty());
    }
    // the custom members bind none of the known keys
    let keys = config_keys();
    assert(keys[0] == "cniVersion"@ && keys[1] == "name"@ && keys[2] == "type"@ && keys[3]
        == "args"@ && keys[4] == "ipMasq"@ && keys[5] == "ipam"@ && keys[6] == "dns"@ && keys[7]
        == "runtimeConfig"@ && keys[8] == "prevResult"@);
    assert forall|i: int, x: int| 0 <= i < c.specific.len() && 0 <= x < 9 implies (
    #[trigger] c.specific[i]).0 != #[trigger] keys[x] by {
        if c.specific[i].0 == keys[x] {
            assert(keys.contains(c.specific[i].0));
        }
    }
    assert forall|i: int| 0 <= i < c.specific.len() implies (#[trigger] c.specific[i]).0
        != "args"@ && c.specific[i].0 != "ipam"@ && c.specific[i].0 != "dns"@ && c.specific[i].0
        != "runtimeConfig"@ && c.specific[i].0 != "prevResult"@ by {
        assert(c.specific[i].0 != keys[3]);
        assert(c.specific[i].0 != keys[5]);
        assert(c.specific[i].0 != keys[6]);
        assert(c.specific[i].0 != keys[7]);
        assert(c.specific[i].0 != keys[8]);
    }
    crate::json::lemma_obj_get_no_key(c.specific, "args"@);
    crate::json::lemma_obj_get_no_key(c.specific, "ipam"@);
    crate::json::lemma_obj_get_no_key(c.specific, "dns"@);
    crate::json::lemma_obj_get_no_key(c.specific, "runtimeConfig"@);
    crate::json::lemma_obj_get_no_key(c.specific, "prevResult"@);
    assert(config_of_jv(config_jv(c)) == Some(c));
}


impl NetworkConfig {
    /// The document of this configuration.
    #[verifier::rlimit(100)]
    pub fn to_json(&self) -> (r: JsonValue)
        ensures
            r.deep_view() == config_jv(self.deep_view()),
    {
        let ghost c = self.deep_view();
        let ghost f3: Seq<(Seq<char>, JsonV)> = seq![
            ("cniVersion"@, JsonV::Str(version_chars(c.cni_version))),
            ("name"@, JsonV::Str(c.name)),
            ("type"@, JsonV::Str(c.plugin)),
        ];
        let ghost a4: Seq<(Seq<char>, JsonV)> = if c.args.len() > 0 {
            seq![("args"@, JsonV::Obj(c.args))]
        } else {
            Seq::<(Seq<char>, JsonV)>::empty()
        };
        let ghost m5: Seq<(Seq<char>, JsonV)> = seq![("ipMasq"@, JsonV::Bool(c.ip_masq))];
        let ghost i6: Seq<(Seq<char>, JsonV)> = match c.ipam {
            Some(v) => seq![("ipam"@, ipam_jv(v))],
            None => Seq::<(Seq<char>, JsonV)>::empty(),
        };
        let ghost d7: Seq<(Seq<char>, JsonV)> = match c.dns {
            Some(v) => seq![("dns"@, v)],
            None => Seq::<(Seq<char>, JsonV)>::empty(),
        };
        let ghost r8: Seq<(Seq<char>, JsonV)> = match c.runtime {
            Some(v) => seq![("runtimeConfig"@, v)],
            None => Seq::<(Seq<char>, JsonV)>::empty(),
        };
        let ghost p9: Seq<(Seq<char>, JsonV)> = match c.prev_result {
            Some(v) => seq![("prevResult"@, v)],
            None => Seq::<(Seq<char>, JsonV)>::empty(),
        };
        let mut members: Vec<(String, JsonValue)> = Vec::new();
        members.push(("cniVersion".to_owned(), JsonValue::Str(self.cni_version.format())));
        members.push(("name".to_owned(), JsonValue::Str(self.name.clone())));
        members.push(("type".to_owned(), JsonValue::Str(self.plugin.clone())));
        proof {
            crate::json::lemma_deep_obj(members@);
            assert(crate::json::deep_obj(members@) =~= f3);
        }
        let ghost s3 = members@;
        if self.args.len() > 0 {
            let args_copy = copy_members(&self.args);
            proof {
                crate::json::lemma_deep_obj(self.args@);
                assert(crate::json::deep_obj(args_copy@) == c.args);
            }
            members.push(("args".to_owned(), JsonValue::Obj(args_copy)));
        }
        proof {
            crate::json::lemma_deep_obj(members@);
            crate::json::lemma_deep_obj(s3);
            crate::json::lemma_deep_obj(self.args@);
            assert(crate::json::deep_obj(members@) =~= f3 + a4) by {
                if self.args@.len() > 0 {
                    assert(members@.drop_last() =~= s3);
                    assert(members@.last().0@ == "args"@);
                    assert(members@.last().1.deep_view() == JsonV::Obj(c.args));
                    assert(crate::json::deep_obj(members@) == crate::json::deep_obj(
                        members@.drop_last(),
                    ).push((members@.last().0@, members@.last().1.deep_view())));
                } else {
                    assert(f3 + a4 =~= f3);
                }
            }
        }
        let ghost s4 = members@;
        members.push(("ipMasq".to_owned(), JsonValue::Bool(self.ip_masq)));
        proof {
            crate::json::lemma_deep_obj(members@);
            crate::json::lemma_deep_obj(s4);
            assert(members@.drop_last() =~= s4);
            assert(crate::json::deep_obj(members@) =~= (f3 + a4) + m5);
        }
        let ghost s5 = members@;
        match &self.ipam {
            Some(v) => {
                members.push(("ipam".to_owned(), v.to_json()));
            },
            None => {},
        }
        proof {
            crate::json::lemma_deep_obj(members@);
            crate::json::lemma_deep_obj(s5);
            assert(crate::json::deep_obj(members@) =~= ((f3 + a4) + m5) + i6) by {
                if self.ipam is Some {
                    assert(members@.drop_last() =~= s5);
                } else {
                    assert(((f3 + a4) + m5) + i6 =~= (f3 + a4) + m5);
                }
            }
        }
        let ghost s6 = members@;
        match &self.dns {
            Some(v) => {
                members.push(("dns".to_owned(), crate::json::json_copy(v)));
            },
            None => {},
        }
        proof {
            crate::json::lemma_deep_obj(members@);
            crate::json::lemma_deep_obj(s6);
            assert(crate::json::deep_obj(members@) =~= (((f3 + a4) + m5) + i6) + d7) by {
                if self.dns is Some {
                    assert(members@.drop_last() =~= s6);
                } else {
                    assert((((f3 + a4) + m5) + i6) + d7 =~= ((f3 + a4) + m5) + i6);
                }
            }
        }
        let ghost s7 = members@;
        match &self.runtime {
            Some(v) => {
                members.push(("runtimeConfig".to_owned(), crate::json::json_copy(v)));
            },
            None => {},
        }
        proof {
            crate::json::lemma_deep_obj(members@);
            crate::json::lemma_deep_obj(s7);
            assert(crate::json::deep_obj(members@) =~= ((((f3 + a4) + m5) + i6) + d7) + r8) by {
                if self.runtime is Some {
                    assert(members@.drop_last() =~= s7);
                } else {
                    assert(((((f3 + a4) + m5) + i6) + d7) + r8 =~= (((f3 + a4) + m5) + i6) + d7);
                }
            }
        }
        let ghost s8 = members@;
        match &self.prev_result {
            Some(v) => {
                members.push(("prevResult".to_owned(), crate::json::json_copy(v)));
            },
            None => {},
        }
        proof {
            crate::json::lemma_deep_obj(members@);
            crate::json::lemma_deep_obj(s8);
            assert(crate::json::deep_obj(members@) =~= (((((f3 + a4) + m5) + i6) + d7) + r8)
                + p9) by {
                if self.prev_result is Some {
                    assert(members@.drop_last() =~= s8);
                } else {
                    assert((((((f3 + a4) + m5) + i6) + d7) + r8) + p9 =~= ((((f3 + a4) + m5) + i6)
                        + d7) + r8);
                }
            }
        }
        let mut rest = copy_members(&self.specific);
        proof {
            crate::json::lemma_deep_obj(rest@);
        }
        let ghost head = members@;
        let ghost rest0 = rest@;
        members.append(&mut rest);
        let r = JsonValue::Obj(members);
        proof {
            crate::reply::lemma_deep_obj_members(r);
            assert(members@ == head + rest0);
            crate::reply::lemma_deep_obj_append(head, rest0);
            assert(crate::json::deep_obj(members@) =~= ((((((f3 + a4) + m5) + i6) + d7) + r8) + p9)
                + c.specific);
            assert(r.deep_view() matches JsonV::Obj(o) && o =~= (match config_jv(c) {
                JsonV::Obj(o2) => o2,
                _ => Seq::empty(),
            }));
        }
        r
    }

    /// Reads a configuration out of a document.
    #[verifier::rlimit(100)]
    pub fn from_json(j: &JsonValue) -> (r: Option<NetworkConfig>)
        ensures
            match r {
                Some(c) => config_of_jv(j.deep_view()) == Some(c.deep_view()) && c.cni_version.wf(),
                None => config_of_jv(j.deep_view()) is None,
            },
    {
        let o = match crate::json::json_as_obj(j) {
            Some(o) => o,
            None => {
                return None;
            },
        };
        let cni_version = match crate::json::obj_get(o, "cniVersion") {
            Some(v) => match crate::json::json_as_str(v) {
                Some(t) => match Version::parse(t.as_str()) {
                    Some(ver) => ver,
                    None => {
                        return None;
                    },
                },
                None => {
                    return None;
                },
            },
            None => {
                return None;
            },
        };
        let name = match crate::json::obj_get(o, "name") {
            Some(v) => match crate::json::json_as_str(v) {
                Some(t) => t.clone(),
                None => {
                    return None;
                },
            },
            None => {
                return None;
            },
        };
        let plugin = match crate::json::obj_get(o, "type") {
            Some(v) => match crate::json::json_as_str(v) {
                Some(t) => t.clone(),
                None => {
                    return None;
                },
            },
            None => {
                return None;
            },
        };
        let args = match crate::json::obj_get(o, "args") {
            Some(v) => match crate::json::json_as_obj(v) {
                Some(m) => copy_members(m),
                None => {
                    return None;
                },
            },
            None => {
                let e: Vec<(String, JsonValue)> = Vec::new();
                proof {
                    crate::json::lemma_deep_obj(e@);
                    assert(crate::json::deep_obj(e@) =~= Seq::<(Seq<char>, JsonV)>::empty());
                }
                e
            },
        };
        let ip_masq = match crate::json::obj_get(o, "ipMasq") {
            Some(v) => match crate::json::json_as_bool(v) {
                Some(b) => b,
                None => {
                    return None;
                },
            },
            None => false,
        };
        let ipam = match crate::json::obj_get(o, "ipam") {
            Some(v) => match IpamConfig::from_json(v) {
                Some(x) => Some(x),
                None => {
                    return None;
                },
            },
            None => None,
        };
        let dns = match crate::json::obj_get(o, "dns") {
            Some(v) => Some(crate::json::json_copy(v)),
            None => None,
        };
        let runtime = match crate::json::obj_get(o, "runtimeConfig") {
            Some(v) => Some(crate::json::json_copy(v)),
            None => None,
        };
        let prev_result = match crate::json::obj_get(o, "prevResult") {
            Some(v) => Some(crate::json::json_copy(v)),
            None => None,
        };
        let mut keys: Vec<String> = Vec::new();
        keys.push("cniVersion".to_owned());
        keys.push("name".to_owned());
        keys.push("type".to_owned());
        keys.push("args".to_owned());
        keys.push("ipMasq".to_owned());
        keys.push("ipam".to_owned());
        keys.push("dns".to_owned());
        keys.push("runtimeConfig".to_owned());
        keys.push("prevResult".to_owned());
        proof {
            assert(keys.deep_view() =~= config_keys());
        }
        let specific = strip_members(o, &keys);
        let c = NetworkConfig {
            cni_version,
            name,
            plugin,
            args,
            ip_masq,
            ipam,
            dns,
            runtime,
            prev_result,
            specific,
        };
        Some(c)
    }

    /// A fresh copy of this configuration.
    pub fn copied(&self) -> (r: NetworkConfig)
        ensures
            r.deep_view() == self.deep_view(),
    {
        NetworkConfig {
            cni_version: self.cni_version.copied(),
            name: self.name.clone(),
            plugin: self.plugin.clone(),
            args: copy_members(&self.args),
            ip_masq: self.ip_masq,
            ipam: match &self.ipam {
                Some(v) => Some(v.copied()),
                None => None,
            },
            dns: match &self.dns {
                Some(v) => Some(crate::json::json_copy(v)),
                None => None,
            },
            runtime: match &self.runtime {
                Some(v) => Some(crate::json::json_copy(v)),
                None => None,
            },
            prev_result: match &self.prev_result {
                Some(v) => Some(crate::json::json_copy(v)),
                None => None,
            },
            specific: copy_members(&self.specific),
        }
    }
}


/// A configuration read out of a well-formed document prints to a
/// well-formed document.
#[verifier::rlimit(100)]
pub proof fn lemma_config_jv_wf(j: JsonV)
    requires
        crate::json::json_wf(j),
        config_of_jv(j) is Some,
    ensures
        crate::json::json_wf(config_jv(config_of_jv(j).unwrap())),
{
    let c = config_of_jv(j).unwrap();
    let orig = j->Obj_0;
    let o2 = config_jv(c)->Obj_0;
    assert(forall|i: int| 0 <= i < orig.len() ==> crate::json::json_wf((#[trigger] orig[i]).1));
    // the pieces carried over from the original document are well formed
    crate::json::lemma_obj_get_wf(orig, "args"@);
    crate::json::lemma_obj_get_wf(orig, "ipam"@);
    crate::json::lemma_obj_get_wf(orig, "dns"@);
    crate::json::lemma_obj_get_wf(orig, "runtimeConfig"@);
    crate::json::lemma_obj_get_wf(orig, "prevResult"@);
    lemma_strip_no_keys(orig, config_keys());
    crate::reply::lemma_strip_wf(orig, config_keys());
    assert(c.specific == strip_keys(orig, config_keys()));
    // the version text is a string member; the booleans and strings of
    // the fixed members are well formed by shape
    assert forall|i: int| 0 <= i < c.args.len() implies crate::json::json_wf(
        (#[trigger] c.args[i]).1,
    ) by {
        match obj_get_v(orig, "args"@) {
            Some(JsonV::Obj(m)) => {
                assert(crate::json::json_wf(JsonV::Obj(m)));
                assert(c.args == m);
            },
            _ => {},
        }
    }
    match c.ipam {
        Some(v) => {
            let x = obj_get_v(orig, "ipam"@).unwrap();
            assert(crate::json::json_wf(x));
            let xm = x->Obj_0;
            crate::reply::lemma_strip_wf(xm, seq!["type"@]);
            assert(v.specific == strip_keys(xm, seq!["type"@]));
            assert(crate::json::json_wf(ipam_jv(v))) by {
                let members = ipam_jv(v)->Obj_0;
                assert forall|i: int| 0 <= i < members.len() implies crate::json::json_wf(
                    (#[trigger] members[i]).1,
                ) by {
                    if i == 0 {
                        assert(members[0] == ("type"@, JsonV::Str(v.plugin)));
                    } else {
                        assert(members[i] == v.specific[i - 1]);
                    }
                }
            }
        },
        None => {},
    }
    assert forall|i: int| 0 <= i < o2.len() implies crate::json::json_wf(
        (#[trigger] o2[i]).1,
    ) by {
        let f3 = seq![
            ("cniVersion"@, JsonV::Str(version_chars(c.cni_version))),
            ("name"@, JsonV::Str(c.name)),
            ("type"@, JsonV::Str(c.plugin)),
        ];
        let a4 = if c.args.len() > 0 {
            seq![("args"@, JsonV::Obj(c.args))]
        } else {
            Seq::<(Seq<char>, JsonV)>::empty()
        };
        let m5 = seq![("ipMasq"@, JsonV::Bool(c.ip_masq))];
        let i6 = match c.ipam {
            Some(v) => seq![("ipam"@, ipam_jv(v))],
            None => Seq::<(Seq<char>, JsonV)>::empty(),
        };
        let d7 = match c.dns {
            Some(v) => seq![("dns"@, v)],
            None => Seq::<(Seq<char>, JsonV)>::empty(),
        };
        let r8 = match c.runtime {
            Some(v) => seq![("runtimeConfig"@, v)],
            None => Seq::<(Seq<char>, JsonV)>::empty(),
        };
        let p9 = match c.prev_result {
            Some(v) => seq![("prevResult"@, v)],
            None => Seq::<(Seq<char>, JsonV)>::empty(),
        };
        assert(o2 == f3 + a4 + m5 + i6 + d7 + r8 + p9 + c.specific);
        let l3 = 3int;
        let la = l3 + a4.len();
        let lm = la + 1;
        let li = lm + i6.len();
        let ld = li + d7.len();
        let lr = ld + r8.len();
        let lp = lr + p9.len();
        if i < l3 {
            assert(o2[i] == f3[i]);
        } else if i < la {
            assert(o2[i] == a4[i - l3]);
        } else if i < lm {
            assert(o2[i] == m5[i - la]);
        } else if i < li {
            assert(o2[i] == i6[i - lm]);
        } else if i < ld {
            assert(o2[i] == d7[i - li]);
        } else if i < lr {
            assert(o2[i] == r8[i - ld]);
        } else if i < lp {
            assert(o2[i] == p9[i - lr]);
        } else {
            assert(o2[i] == c.specific[i - lp]);
        }
    }
}

/// The whole trip, at the text level: a configuration read out of input
/// text prints to text that parses and reads back as the same
/// configuration — nothing is lost between the wire and the value.
pub proof fn lemma_config_text_round_trip(text: Seq<char>)
    requires
        crate::json::parse_document(text) matches Some(j) && config_of_jv(j) is Some,
    ensures
        ({
            let c = config_of_jv(crate::json::parse_document(text).unwrap()).unwrap();
            let out = crate::json::print_json(config_jv(c));
            &&& crate::json::parse_document(out) == Some(config_jv(c))
            &&& config_of_jv(config_jv(c)) == Some(c)
        }),
{
    let j = crate::json::parse_document(text).unwrap();
    let c = config_of_jv(j).unwrap();
    crate::json::lemma_parse_document_wf(text);
    lemma_config_jv_wf(j);
    crate::json::lemma_document_round_trip(config_jv(c));
    lemma_config_round_trip(j);
}

} // verus!
