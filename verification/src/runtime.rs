//! The plugin protocol runtime: what the environment and standard input
//! yield, before any plugin-specific work.
//!
//! The runtime validates the `CNI_*` variables, reads the payload,
//! checks the spec version, and hands the plugin a [`Cni`] value; every
//! rejection is pinned to the input that causes it.

use vstd::prelude::*;

use crate::config::{config_of_jv, NetworkConfig};
use crate::error::{CniError, EmptyValueError, InvalidCommandError};
use crate::json::{obj_get_v, parse_document, JsonV};
use crate::text::{chars_to_string, is_digit, str_to_chars};
use crate::version::{compatible, parse_version, Version, VersionV};
use crate::Command;

verus! {

/// The parsed plugin inputs, command by command.
pub enum Cni {
    /// The ADD command: add a namespace to a network, or apply
    /// modifications.
    Add { container_id: String, ifname: String, netns: String, path: Vec<String>, config: NetworkConfig },
    /// The DEL command: remove a namespace from a network, or un-apply
    /// modifications. The namespace may be gone already.
    Del { container_id: String, ifname: String, netns: Option<String>, path: Vec<String>, config: NetworkConfig },
    /// The CHECK command: check that a namespace's networking is as
    /// expected.
    Check { container_id: String, ifname: String, netns: String, path: Vec<String>, config: NetworkConfig },
    /// The VERSION command: probe the plugin's supported spec versions.
    Version(Version),
}

/// An alternate representation of the plugin inputs, with the command
/// held apart.
pub struct Inputs {
    /// The command given to the plugin.
    pub command: Command,
    /// The container ID, as provided by the runtime.
    pub container_id: String,
    /// The name of the interface inside the container.
    pub ifname: String,
    /// The container's isolation domain; optional for DEL.
    pub netns: Option<String>,
    /// The directories to search for plugin executables.
    pub path: Vec<String>,
    /// The input network configuration.
    pub config: NetworkConfig,
}

/// Whether a character may start a container ID: a lowercase letter or a
/// digit.
pub open spec fn id_head_char(c: char) -> bool {
    is_digit(c) || (97 <= (c as u32) && (c as u32) <= 122)
}

/// Whether a character may continue a container ID.
pub open spec fn id_tail_char(c: char) -> bool {
    id_head_char(c) || c == '_' || c == '.' || c == '-'
}

/// Whether a container ID is valid: non-empty, led by a lowercase letter
/// or digit, continued by those, underscores, dots and hyphens.
pub open spec fn valid_container_id(s: Seq<char>) -> bool {
    &&& s.len() > 0
    &&& id_head_char(s[0])
    &&& forall|i: int| 1 <= i < s.len() ==> id_tail_char(#[trigger] s[i])
}

/// Decides [`valid_container_id`].
#[verifier::loop_isolation(false)]
pub fn check_container_id(s: &str) -> (r: bool)
    ensures
        r == valid_container_id(s@),
{
    let cs = str_to_chars(s);
    if cs.len() == 0 {
        return false;
    }
    let c0 = cs[0];
    let u0 = c0 as u32;
    if !((48 <= u0 && u0 <= 57) || (97 <= u0 && u0 <= 122)) {
        return false;
    }
    let mut i: usize = 1;
    while i < cs.len()
        invariant
            1 <= i <= cs@.len(),
            forall|k: int| 1 <= k < i ==> id_tail_char(#[trigger] cs@[k]),
        decreases cs@.len() - i,
    {
        let c = cs[i];
        let u = c as u32;
        if !((48 <= u && u <= 57) || (97 <= u && u <= 122) || c == '_' || c == '.' || c == '-') {
            return false;
        }
        i = i + 1;
    }
    true
}

/// How many consecutive non-colon characters stand at `i`.
pub open spec fn colon_run(s: Seq<char>, i: int) -> nat
    decreases s.len() - i when i <= s.len()
{
    if i < s.len() && s[i] != ':' {
        (1 + colon_run(s, i + 1)) as nat
    } else {
        0
    }
}

/// The first index at or after `i` that holds a colon, or the length.
pub open spec fn colon_end(s: Seq<char>, i: int) -> int {
    if i + colon_run(s, i) <= s.len() {
        i + colon_run(s, i)
    } else {
        s.len() as int
    }
}

pub proof fn lemma_colon_end(s: Seq<char>, i: int)
    requires
        0 <= i <= s.len(),
    ensures
        i <= colon_end(s, i) <= s.len(),
        forall|x: int| i <= x < colon_end(s, i) ==> #[trigger] s[x] != ':',
        colon_end(s, i) < s.len() ==> s[colon_end(s, i)] == ':',
    decreases s.len() - i,
{
    if i < s.len() && s[i] != ':' {
        lemma_colon_end(s, i + 1);
    }
}

/// A colon-free run is pinned down by its ends.
proof fn lemma_colon_end_exact(s: Seq<char>, i: int, e: int)
    requires
        0 <= i <= e <= s.len(),
        forall|x: int| i <= x < e ==> #[trigger] s[x] != ':',
        e == s.len() || s[e] == ':',
    ensures
        colon_end(s, i) == e,
    decreases e - i,
{
    if i < e {
        lemma_colon_end_exact(s, i + 1, e);
    }
}

/// What splitting on colons yields: the non-empty segments, in order.
pub open spec fn split_colon(s: Seq<char>) -> Seq<Seq<char>>
    decreases s.len(),
{
    if s.len() == 0 {
        Seq::empty()
    } else {
        let e = colon_end(s, 0);
        if e == s.len() {
            seq![s]
        } else {
            let head = s.subrange(0, e);
            let rest = split_colon(s.subrange(e + 1, s.len() as int));
            if head.len() == 0 {
                rest
            } else {
                seq![head] + rest
            }
        }
    }
}

/// Splits a `PATH`-style list on colons; empty segments are dropped.
#[verifier::loop_isolation(false)]
#[verifier::rlimit(100)]
pub fn split_path(s: &str) -> (r: Vec<String>)
    ensures
        r.deep_view() == split_colon(s@),
{
    let cs = str_to_chars(s);
    let mut out: Vec<String> = Vec::new();
    let mut start: usize = 0;
    let mut i: usize = 0;
    proof {
        assert(cs@.skip(0) =~= cs@);
        assert(out.deep_view() =~= Seq::<Seq<char>>::empty());
    }
    while i < cs.len()
        invariant
            start <= i <= cs@.len(),
            forall|x: int| start <= x < i ==> #[trigger] cs@[x] != ':',
            split_colon(cs@) == out.deep_view() + split_colon(cs@.skip(start as int)),
        decreases cs@.len() - i,
    {
        if cs[i] == ':' {
            let ghost tail = cs@.skip(start as int);
            proof {
                assert forall|x: int| 0 <= x < i - start implies #[trigger] tail[x] != ':' by {
                    assert(tail[x] == cs@[start + x]);
                }
                assert(tail[i - start] == cs@[i as int]);
                lemma_colon_end_exact(tail, 0, i - start);
                assert(tail.subrange(0, i - start) =~= cs@.subrange(start as int, i as int));
                assert(tail.subrange(i - start + 1, tail.len() as int) =~= cs@.skip(i + 1));
            }
            if start < i {
                let part = crate::json::sub_chars(&cs, start, i);
                let ghost prev = out.deep_view();
                out.push(chars_to_string(&part));
                proof {
                    assert(out.deep_view() =~= prev.push(part@));
                    assert(prev + (seq![part@] + split_colon(cs@.skip(i + 1)))
                        =~= out.deep_view() + split_colon(cs@.skip(i + 1)));
                }
            } else {
                proof {
                    assert(tail.subrange(0, 0).len() == 0);
                }
            }
            start = i + 1;
        }
        i = i + 1;
    }
    let ghost tail = cs@.skip(start as int);
    proof {
        assert forall|x: int| 0 <= x < tail.len() implies #[trigger] tail[x] != ':' by {
            assert(tail[x] == cs@[start + x]);
        }
        lemma_colon_end_exact(tail, 0, tail.len() as int);
    }
    if start < cs.len() {
        let part = crate::json::sub_chars(&cs, start, cs.len());
        let ghost prev = out.deep_view();
        out.push(chars_to_string(&part));
        proof {
            assert(tail =~= cs@.subrange(start as int, cs@.len() as int));
            assert(split_colon(tail) == seq![tail]);
            assert(out.deep_view() =~= prev.push(part@));
            assert(out.deep_view() =~= prev + seq![tail]);
        }
    } else {
        proof {
            assert(tail.len() == 0);
            assert(out.deep_view() + split_colon(tail) =~= out.deep_view());
        }
    }
    out
}

/// The raw environment a plugin is launched with: each variable's value,
/// or nothing where the variable is unset.
pub struct EnvInputs {
    pub command: Option<String>,
    pub container_id: Option<String>,
    pub ifname: Option<String>,
    pub netns: Option<String>,
    pub path: Option<String>,
}

impl Command {
    /// Parses the command from exactly ADD, DEL, CHECK, or VERSION.
    pub fn from_str(s: &str) -> (r: Result<Command, InvalidCommandError>)
        ensures
            s@ == "ADD"@ ==> r == Ok::<Command, InvalidCommandError>(Command::Add),
            s@ == "DEL"@ ==> r == Ok::<Command, InvalidCommandError>(Command::Del),
            s@ == "CHECK"@ ==> r == Ok::<Command, InvalidCommandError>(Command::Check),
            s@ == "VERSION"@ ==> r == Ok::<Command, InvalidCommandError>(Command::Version),
            s@ != "ADD"@ && s@ != "DEL"@ && s@ != "CHECK"@ && s@ != "VERSION"@ ==> r is Err,
    {
        proof {
            reveal_strlit("ADD");
            reveal_strlit("DEL");
            reveal_strlit("CHECK");
            reveal_strlit("VERSION");
            assert("ADD"@.len() == 3 && "DEL"@.len() == 3 && "CHECK"@.len() == 5
                && "VERSION"@.len() == 7);
            assert("ADD"@[0] == 'A' && "DEL"@[0] == 'D');
        }
        if crate::json::str_eq(s, "ADD") {
            Ok(Command::Add)
        } else if crate::json::str_eq(s, "DEL") {
            Ok(Command::Del)
        } else if crate::json::str_eq(s, "CHECK") {
            Ok(Command::Check)
        } else if crate::json::str_eq(s, "VERSION") {
            Ok(Command::Version)
        } else {
            Err(InvalidCommandError)
        }
    }
}

/// What the runtime decides for given environment values and payload,
/// in specification land: the one outcome the inputs force.
pub ghost enum CniOutcome {
    /// The payload is empty.
    MissingInput,
    /// A required variable is unset; holds its name.
    MissingVar(Seq<char>),
    /// A variable is set but unusable; holds its name.
    InvalidVar(Seq<char>),
    /// The payload is not what the command needs: not JSON, not a
    /// network configuration, or (for VERSION) without a version.
    BadPayload,
    /// The configuration names a spec version this plugin does not
    /// understand; holds that version.
    Incompatible(VersionV),
    /// A VERSION command with its payload's version.
    OkVersion(VersionV),
    /// An ADD, DEL or CHECK command with everything it needs.
    OkCommand {
        cmd: Command,
        container_id: Seq<char>,
        ifname: Seq<char>,
        netns: Option<Seq<char>>,
        path: Seq<Seq<char>>,
        config: crate::config::ConfigV,
    },
}

/// The outcome the inputs force, checked in the order the runtime
/// checks: payload presence, the command word, the container ID (before
/// the payload is parsed), the payload, the version, then the remaining
/// variables — netns being required only for ADD and CHECK.
pub open spec fn cni_outcome(env: EnvInputs, payload: Seq<char>) -> CniOutcome {
    if payload.len() == 0 {
        CniOutcome::MissingInput
    } else if !(env.command is Some) {
        CniOutcome::MissingVar("CNI_COMMAND"@)
    } else {
        let cw = env.command->0@;
        if cw == "ADD"@ || cw == "DEL"@ || cw == "CHECK"@ {
            let cmd = if cw == "ADD"@ {
                Command::Add
            } else if cw == "DEL"@ {
                Command::Del
            } else {
                Command::Check
            };
            if !(env.container_id is Some) {
                CniOutcome::MissingVar("CNI_CONTAINERID"@)
            } else if !valid_container_id(env.container_id->0@) {
                CniOutcome::InvalidVar("CNI_CONTAINERID"@)
            } else {
                match parse_document(payload) {
                    None => CniOutcome::BadPayload,
                    Some(doc) => match config_of_jv(doc) {
                        None => CniOutcome::BadPayload,
                        Some(c) => if !compatible(c.cni_version) {
                            CniOutcome::Incompatible(c.cni_version)
                        } else if !(env.ifname is Some) {
                            CniOutcome::MissingVar("CNI_IFNAME"@)
                        } else if (cmd is Add || cmd is Check) && !(env.netns is Some) {
                            CniOutcome::MissingVar("CNI_NETNS"@)
                        } else {
                            CniOutcome::OkCommand {
                                cmd,
                                container_id: env.container_id->0@,
                                ifname: env.ifname->0@,
                                netns: match env.netns {
                                    Some(n) => Some(n@),
                                    None => None,
                                },
                                path: split_colon(
                                    match env.path {
                                        Some(p) => p@,
                                        None => Seq::empty(),
                                    },
                                ),
                                config: c,
                            }
                        },
                    },
                }
            }
        } else if cw == "VERSION"@ {
            match parse_document(payload) {
                None => CniOutcome::BadPayload,
                Some(doc) => match jv_version(doc) {
                    None => CniOutcome::BadPayload,
                    Some(vs) => match parse_version(vs) {
                        None => CniOutcome::BadPayload,
                        Some(v) => CniOutcome::OkVersion(v),
                    },
                },
            }
        } else {
            CniOutcome::InvalidVar("CNI_COMMAND"@)
        }
    }
}

/// Reads the plugin inputs out of the environment values and the payload
/// read from standard input.
///
/// An empty payload is rejected before anything else is looked at, as
/// missing input. The command decides which variables are required; the
/// container ID must be well formed; the payload must be a JSON network
/// configuration (or, for VERSION, a document with a `cniVersion`
/// member); and the configuration's version must be one this plugin
/// understands.
#[verifier::rlimit(100)]
pub fn cni_from_inputs(env: &EnvInputs, payload: &str) -> (r: Result<Cni, CniError>)
    ensures
        match r {
            Ok(Cni::Add { container_id, ifname, netns, path, config }) => cni_outcome(
                *env,
                payload@,
            ) == (CniOutcome::OkCommand {
                cmd: Command::Add,
                container_id: container_id@,
                ifname: ifname@,
                netns: Some(netns@),
                path: path.deep_view(),
                config: config.deep_view(),
            }) && config.cni_version.wf(),
            Ok(Cni::Check { container_id, ifname, netns, path, config }) => cni_outcome(
                *env,
                payload@,
            ) == (CniOutcome::OkCommand {
                cmd: Command::Check,
                container_id: container_id@,
                ifname: ifname@,
                netns: Some(netns@),
                path: path.deep_view(),
                config: config.deep_view(),
            }) && config.cni_version.wf(),
            Ok(Cni::Del { container_id, ifname, netns, path, config }) => cni_outcome(
                *env,
                payload@,
            ) == (CniOutcome::OkCommand {
                cmd: Command::Del,
                container_id: container_id@,
                ifname: ifname@,
                netns: match netns {
                    Some(n) => Some(n@),
                    None => None,
                },
                path: path.deep_view(),
                config: config.deep_view(),
            }) && config.cni_version.wf(),
            Ok(Cni::Version(v)) => cni_outcome(*env, payload@) == CniOutcome::OkVersion(
                v.deep_view(),
            ) && v.wf(),
            Err(CniError::MissingInput) => cni_outcome(*env, payload@) is MissingInput,
            Err(CniError::MissingEnv { var }) => cni_outcome(*env, payload@)
                == CniOutcome::MissingVar(var@),
            Err(CniError::InvalidEnv { var, .. }) => cni_outcome(*env, payload@)
                == CniOutcome::InvalidVar(var@),
            Err(CniError::Json(_)) => cni_outcome(*env, payload@) is BadPayload,
            Err(CniError::Incompatible(v)) => cni_outcome(*env, payload@)
                == CniOutcome::Incompatible(v.deep_view()),
            Err(_) => false,
        },
{
    proof {
        reveal_strlit("ADD");
        reveal_strlit("DEL");
        reveal_strlit("CHECK");
        reveal_strlit("VERSION");
        assert("ADD"@.len() == 3 && "DEL"@.len() == 3 && "CHECK"@.len() == 5
            && "VERSION"@.len() == 7);
        assert("ADD"@[0] == 'A' && "DEL"@[0] == 'D');
    }
    let ghost out = cni_outcome(*env, payload@);
    let payload_empty = payload.unicode_len() == 0;
    if payload_empty {
        proof {
            assert(out is MissingInput);
        }
        return Err(CniError::MissingInput);
    }
    let command_str = match &env.command {
        Some(c) => c.clone(),
        None => {
            proof {
                assert(out == CniOutcome::MissingVar("CNI_COMMAND"@));
            }
            return Err(CniError::MissingEnv { var: "CNI_COMMAND".to_owned() });
        },
    };
    let ghost cw = command_str@;
    let command = match Command::from_str(command_str.as_str()) {
        Ok(c) => c,
        Err(e) => {
            proof {
                assert(cw != "ADD"@ && cw != "DEL"@ && cw != "CHECK"@ && cw != "VERSION"@);
                assert(out == CniOutcome::InvalidVar("CNI_COMMAND"@));
            }
            return Err(
                CniError::InvalidEnv { var: "CNI_COMMAND".to_owned(), detail: e.message() },
            );
        },
    };
    let path = match &env.path {
        Some(p) => split_path(p.as_str()),
        None => Vec::new(),
    };
    proof {
        assert(path.deep_view() =~= split_colon(
            match env.path {
                Some(p) => p@,
                None => Seq::<char>::empty(),
            },
        )) by {
            if env.path is None {
                assert(split_colon(Seq::<char>::empty()) =~= Seq::<Seq<char>>::empty());
            }
        }
    }
    match command {
        Command::Version => {
            proof {
                assert(cw == "VERSION"@);
            }
            let doc = match crate::json::parse_json_str(payload) {
                Some(d) => d,
                None => {
                    proof {
                        assert(out is BadPayload);
                    }
                    return Err(CniError::Json("cannot parse the payload".to_owned()));
                },
            };
            let vs = match crate::json::json_get(&doc, "cniVersion") {
                Some(v) => match crate::json::json_as_str(v) {
                    Some(t) => t.clone(),
                    None => {
                        proof {
                            assert(jv_version(doc.deep_view()) is None);
                            assert(out is BadPayload);
                        }
                        return Err(
                            CniError::Json("cniVersion is not a string".to_owned()),
                        );
                    },
                },
                None => {
                    proof {
                        assert(jv_version(doc.deep_view()) is None);
                        assert(out is BadPayload);
                    }
                    return Err(CniError::Json("cniVersion is missing".to_owned()));
                },
            };
            let ver = match Version::parse(vs.as_str()) {
                Some(v) => v,
                None => {
                    proof {
                        assert(out is BadPayload);
                    }
                    return Err(
                        CniError::Json("cniVersion is not a version".to_owned()),
                    );
                },
            };
            proof {
                assert(out == CniOutcome::OkVersion(ver.deep_view()));
            }
            Ok(Cni::Version(ver))
        },
        _ => {
            proof {
                assert(cw == "ADD"@ || cw == "DEL"@ || cw == "CHECK"@);
            }
            let container_id = match &env.container_id {
                Some(c) => c.clone(),
                None => {
                    proof {
                        assert(out == CniOutcome::MissingVar("CNI_CONTAINERID"@));
                    }
                    return Err(
                        CniError::MissingEnv { var: "CNI_CONTAINERID".to_owned() },
                    );
                },
            };
            if container_id.as_str().unicode_len() == 0 {
                proof {
                    assert(out == CniOutcome::InvalidVar("CNI_CONTAINERID"@));
                }
                return Err(
                    CniError::InvalidEnv {
                        var: "CNI_CONTAINERID".to_owned(),
                        detail: EmptyValueError.message(),
                    },
                );
            }
            if !check_container_id(container_id.as_str()) {
                proof {
                    assert(out == CniOutcome::InvalidVar("CNI_CONTAINERID"@));
                }
                return Err(
                    CniError::InvalidEnv {
                        var: "CNI_CONTAINERID".to_owned(),
                        detail: "must start with a lowercase letter or digit and hold only those, underscores, dots and hyphens".to_owned(),
                    },
                );
            }
            let doc = match crate::json::parse_json_str(payload) {
                Some(d) => d,
                None => {
                    proof {
                        assert(out is BadPayload);
                    }
                    return Err(CniError::Json("cannot parse the payload".to_owned()));
                },
            };
            let config = match NetworkConfig::from_json(&doc) {
                Some(c) => c,
                None => {
                    proof {
                        assert(out is BadPayload);
                    }
                    return Err(
                        CniError::Json(
                            "the payload is not a network configuration".to_owned(),
                        ),
                    );
                },
            };
            if !config.cni_version.is_compatible() {
                proof {
                    assert(out == CniOutcome::Incompatible(config.cni_version.deep_view()));
                }
                return Err(CniError::Incompatible(config.cni_version));
            }
            let ifname = match &env.ifname {
                Some(v) => v.clone(),
                None => {
                    proof {
                        assert(out == CniOutcome::MissingVar("CNI_IFNAME"@));
                    }
                    return Err(CniError::MissingEnv { var: "CNI_IFNAME".to_owned() });
                },
            };
            match command {
                Command::Add | Command::Check => {
                    let netns = match &env.netns {
                        Some(v) => v.clone(),
                        None => {
                            proof {
                                assert(out == CniOutcome::MissingVar("CNI_NETNS"@));
                            }
                            return Err(
                                CniError::MissingEnv { var: "CNI_NETNS".to_owned() },
                            );
                        },
                    };
                    match command {
                        Command::Add => {
                            proof {
                                assert(out == CniOutcome::OkCommand {
                                    cmd: Command::Add,
                                    container_id: container_id@,
                                    ifname: ifname@,
                                    netns: Some(netns@),
                                    path: path.deep_view(),
                                    config: config.deep_view(),
                                });
                            }
                            Ok(Cni::Add { container_id, ifname, netns, path, config })
                        },
                        _ => {
                            proof {
                                assert(out == CniOutcome::OkCommand {
                                    cmd: Command::Check,
                                    container_id: container_id@,
                                    ifname: ifname@,
                                    netns: Some(netns@),
                                    path: path.deep_view(),
                                    config: config.deep_view(),
                                });
                            }
                            Ok(Cni::Check { container_id, ifname, netns, path, config })
                        },
                    }
                },
                _ => {
                    let netns = match &env.netns {
                        Some(v) => Some(v.clone()),
                        None => None,
                    };
                    proof {
                        assert(out == CniOutcome::OkCommand {
                            cmd: Command::Del,
                            container_id: container_id@,
                            ifname: ifname@,
                            netns: match netns {
                                Some(n) => Some(n@),
                                None => None,
                            },
                            path: path.deep_view(),
                            config: config.deep_view(),
                        });
                    }
                    Ok(Cni::Del { container_id, ifname, netns, path, config })
                },
            }
        },
    }
}

/// The `cniVersion` member of a document, as text.
pub open spec fn jv_version(doc: JsonV) -> Option<Seq<char>> {
    match doc {
        JsonV::Obj(o) => match obj_get_v(o, "cniVersion"@) {
            Some(JsonV::Str(t)) => Some(t),
            _ => None,
        },
        _ => None,
    }
}

impl Cni {
    /// Converts into the alternate representation, with the command held
    /// apart and every field moved verbatim. A VERSION input has no such
    /// representation.
    pub fn into_inputs(self) -> (r: Option<Inputs>)
        ensures
            match self {
                Cni::Add { container_id, ifname, netns, path, config } => r matches Some(i)
                    && i.command is Add && i.container_id == container_id && i.ifname == ifname
                    && i.netns == Some(netns) && i.path == path && i.config == config,
                Cni::Check { container_id, ifname, netns, path, config } => r matches Some(i)
                    && i.command is Check && i.container_id == container_id && i.ifname == ifname
                    && i.netns == Some(netns) && i.path == path && i.config == config,
                Cni::Del { container_id, ifname, netns, path, config } => r matches Some(i)
                    && i.command is Del && i.container_id == container_id && i.ifname == ifname
                    && i.netns == netns && i.path == path && i.config == config,
                Cni::Version(_) => r is None,
            },
    {
        match self {
            Cni::Add { container_id, ifname, netns, path, config } => Some(
                Inputs {
                    command: Command::Add,
                    container_id,
                    ifname,
                    netns: Some(netns),
                    path,
                    config,
                },
            ),
            Cni::Check { container_id, ifname, netns, path, config } => Some(
                Inputs {
                    command: Command::Check,
                    container_id,
                    ifname,
                    netns: Some(netns),
                    path,
                    config,
                },
            ),
            Cni::Del { container_id, ifname, netns, path, config } => Some(
                Inputs { command: Command::Del, container_id, ifname, netns, path, config },
            ),
            Cni::Version(_) => None,
        }
    }
}

} // verus!
