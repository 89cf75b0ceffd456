//! Plugin delegation: what the driver does with a sub-plugin's outcome,
//! and how a failed chain is rolled back.
//!
//! Spawning and awaiting the sub-plugin happen outside; given what came
//! back, the decisions here say exactly whether the call counts as a
//! success, whether a cleanup DEL is owed, and which plugins a failed
//! chain must roll back.

use vstd::prelude::*;

use crate::error::CniError;
use crate::json::{parse_document, JsonValue};
use crate::Command;

verus! {

/// What running a sub-plugin yielded, as the runner reports it.
pub enum DelegateOutcome {
    /// The plugin could not be run at all; holds a description.
    Failed(String),
    /// The plugin ran to completion.
    Finished {
        /// Whether it exited successfully.
        success: bool,
        /// What it wrote on standard output.
        stdout: String,
    },
}

/// What the driver does with an outcome.
pub struct DelegateDecision {
    /// The decoded reply, where the call succeeded.
    pub reply: Result<JsonValue, CniError>,
    /// Whether a cleanup DEL of the same sub-plugin is owed before the
    /// error is reported.
    pub rollback: bool,
}

/// Decides what a sub-plugin's outcome means.
///
/// Empty output or a failing exit is a failure; an ADD that failed this
/// way owes the sub-plugin a cleanup DEL. Output of a successful exit
/// must be a JSON document; output that is not one fails the call
/// without a cleanup, as the sub-plugin did its work.
pub fn delegate_decision(sub_plugin: &str, command: Command, outcome: &DelegateOutcome) -> (r:
    DelegateDecision)
    ensures
        match outcome {
            DelegateOutcome::Failed(detail) => (r.reply matches Err(e) && (
            e matches CniError::Delegated { err, .. } && (*err matches CniError::Io(d) && d@
                == detail@))) && r.rollback == (command is Add),
            DelegateOutcome::Finished { success, stdout } => {
                &&& (stdout@.len() == 0 ==> (r.reply matches Err(e) && (
                e matches CniError::Delegated { err, .. } && *err is MissingOutput))
                    && r.rollback == (command is Add))
                &&& (stdout@.len() > 0 && *success == false ==> (r.reply matches Err(e) && (
                e matches CniError::Delegated { err, .. } && (*err matches CniError::Generic(d)
                    && d@ == stdout@))) && r.rollback == (command is Add))
                &&& (stdout@.len() > 0 && *success ==> match parse_document(stdout@) {
                    Some(doc) => r.reply matches Ok(v) && v.deep_view() == doc && !r.rollback,
                    None => (r.reply matches Err(e) && (e matches CniError::Delegated {
                        err,
                        ..
                    } && *err is Json)) && !r.rollback,
                })
            },
        },
        r.reply matches Err(e) ==> e matches CniError::Delegated { plugin, .. } && plugin@
            == sub_plugin@,
{
    match outcome {
        DelegateOutcome::Failed(detail) => DelegateDecision {
            reply: Err(
                CniError::Delegated {
                    plugin: sub_plugin.to_owned(),
                    err: Box::new(CniError::Io(detail.clone())),
                },
            ),
            rollback: matches!(command, Command::Add),
        },
        DelegateOutcome::Finished { success, stdout } => {
            if stdout.as_str().unicode_len() == 0 {
                DelegateDecision {
                    reply: Err(
                        CniError::Delegated {
                            plugin: sub_plugin.to_owned(),
                            err: Box::new(CniError::MissingOutput),
                        },
                    ),
                    rollback: matches!(command, Command::Add),
                }
            } else if *success {
                match crate::json::parse_json_str(stdout.as_str()) {
                    Some(doc) => DelegateDecision { reply: Ok(doc), rollback: false },
                    None => DelegateDecision {
                        reply: Err(
                            CniError::Delegated {
                                plugin: sub_plugin.to_owned(),
                                err: Box::new(
                                    CniError::Json("cannot decode the reply".to_owned()),
                                ),
                            },
                        ),
                        rollback: false,
                    },
                }
            } else {
                DelegateDecision {
                    reply: Err(
                        CniError::Delegated {
                            plugin: sub_plugin.to_owned(),
                            err: Box::new(CniError::Generic(stdout.clone())),
                        },
                    ),
                    rollback: matches!(command, Command::Add),
                }
            }
        },
    }
}

/// The rollback order of a failed chain: the plugins whose ADD
/// succeeded, newest first, so later work is undone before what it was
/// built on.
pub fn rollback_order(done: &Vec<String>) -> (r: Vec<String>)
    ensures
        r@.len() == done@.len(),
        forall|i: int| 0 <= i < done@.len() ==> (#[trigger] r@[i])@ == done@[done@.len() - 1
            - i]@,
{
    let mut out: Vec<String> = Vec::new();
    let mut i: usize = done.len();
    #[verifier::loop_isolation(false)]
    while i > 0
        invariant
            i <= done@.len(),
            out@.len() == done@.len() - i,
            forall|k: int| 0 <= k < out@.len() ==> (#[trigger] out@[k])@ == done@[done@.len() - 1
                - k]@,
        decreases i,
    {
        i = i - 1;
        out.push(done[i].clone());
    }
    out
}

/// A failed chain rolls everything back: every plugin whose ADD
/// succeeded appears in the rollback plan, so each finished step is
/// sent a DEL before the outer plugin returns.
pub proof fn lemma_rollback_covers(done: Seq<String>, plan: Seq<String>)
    requires
        plan.len() == done.len(),
        forall|i: int| 0 <= i < done.len() ==> (#[trigger] plan[i])@ == done[done.len() - 1 - i]@,
    ensures
        forall|j: int| 0 <= j < done.len() ==> (#[trigger] done[j])@ == plan[done.len() - 1
            - j]@,
{
    assert forall|j: int| 0 <= j < done.len() implies (#[trigger] done[j])@ == plan[done.len() - 1
        - j]@ by {
        assert(plan[done.len() - 1 - j]@ == done[done.len() - 1 - (done.len() - 1 - j)]@);
    }
}

/// The parts joined with a separator between them.
pub open spec fn join_with(parts: Seq<Seq<char>>, sep: Seq<char>) -> Seq<char>
    decreases parts.len(),
{
    if parts.len() == 0 {
        Seq::empty()
    } else if parts.len() == 1 {
        parts[0]
    } else {
        join_with(parts.drop_last(), sep) + sep + parts.last()
    }
}

/// A combined error for a failed chain: every plugin name, joined with
/// commas, wrapping every failure's description, joined line by line,
/// in the order they happened.
#[verifier::loop_isolation(false)]
pub fn multi_error(plugins: &Vec<String>, details: &Vec<String>) -> (r: CniError)
    ensures
        r matches CniError::Delegated { plugin, err } && plugin@ == join_with(
            plugins.deep_view(),
            ","@,
        ) && (*err matches CniError::Generic(d) && d@ == join_with(details.deep_view(), "\n"@)),
{
    let joined_plugins = join_strings(plugins, ",");
    let joined_details = join_strings(details, "\n");
    CniError::Delegated {
        plugin: joined_plugins,
        err: Box::new(CniError::Generic(joined_details)),
    }
}

/// Joins strings with a separator between them.
#[verifier::loop_isolation(false)]
fn join_strings(parts: &Vec<String>, sep: &str) -> (r: String)
    ensures
        r@ == join_with(parts.deep_view(), sep@),
{
    let mut out = String::new();
    let mut i: usize = 0;
    proof {
        assert(parts.deep_view().take(0) =~= Seq::<Seq<char>>::empty());
    }
    while i < parts.len()
        invariant
            i <= parts@.len(),
            out@ == join_with(parts.deep_view().take(i as int), sep@),
        decreases parts@.len() - i,
    {
        if i > 0 {
            out.append(sep);
        }
        out.append(parts[i].as_str());
        proof {
            let dv = parts.deep_view();
            assert(dv.take(i + 1).drop_last() =~= dv.take(i as int));
            assert(dv.take(i + 1).last() == dv[i as int]);
            assert(dv[i as int] == parts@[i as int]@);
            if i == 0 {
                assert(dv.take(1) =~= seq![dv[0]]);
            }
        }
        i = i + 1;
    }
    proof {
        assert(parts.deep_view().take(parts@.len() as int) =~= parts.deep_view());
    }
    out
}

} // verus!
