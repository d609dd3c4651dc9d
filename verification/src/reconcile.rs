//! The reconciliation decision procedure: merge, look up by name, then plan
//! exactly one create-or-update mutation, and turn its result into the
//! reported outcome.
//!
//! The remote calls themselves stay outside this crate; the caller hands in
//! what `list` returned and executes the planned action, so every decision
//! taken here is verified.

use vstd::prelude::*;
use vstd::string::StringExecFns;
use crate::config::DesiredConfig;
use crate::config::is_merged;
use crate::config::merge;
use crate::envmap::EnvMap;
use crate::locator::RemoteStackRef;
use crate::locator::locate;
use crate::locator::locate_stack;

verus! {

/// The one remote mutation a reconciliation run issues: a create when the
/// stack is absent, an update of the found stack otherwise.
#[derive(Debug, Clone, PartialEq)]
pub enum ReconcileAction {
    /// Create a stack under `name` with configuration `config`.
    Create { name: String, config: DesiredConfig },
    /// Replace the configuration of the stack identified by `id`.
    Update { id: String, config: DesiredConfig },
}

/// The reported result of a completed run.
#[derive(Debug, Clone, PartialEq)]
pub enum ReconcileOutcome {
    /// A new stack was created; `response` is the service's reply.
    Created { response: String },
    /// The existing stack was overwritten; `response` is the service's reply.
    Updated { response: String },
}

/// Failure of a reconciliation phase, with the underlying cause.
#[derive(Debug, Clone, PartialEq)]
pub enum ReconcileError {
    /// The `list` call failed; no mutation was planned.
    ListFailed { detail: String },
    /// The planned create or update failed.
    ApplyFailed { detail: String },
}

/// Chooses the single mutation for a lookup result: create under `name`
/// when nothing was found, update of the found stack otherwise, either way
/// carrying `config` unchanged.
pub fn plan_action(name: &str, located: Option<RemoteStackRef>, config: DesiredConfig) -> (a:
    ReconcileAction)
    ensures
        located is None ==> (a matches ReconcileAction::Create { name: n, config: c } && n@
            == name@ && c == config),
        located matches Some(st) ==> (a matches ReconcileAction::Update { id, config: c } && id
            == st.id && c == config),
{
    match located {
        None => ReconcileAction::Create { name: String::from_str(name), config },
        Some(st) => ReconcileAction::Update { id: st.id, config },
    }
}

/// Decides one reconciliation run from its inputs: the declared name, the
/// loaded configuration, the optional overlay, and what the remote `list`
/// call returned.
///
/// A failed `list` fails the run with no mutation planned. Otherwise the
/// merged configuration goes into exactly one action: a create when no
/// listed stack carries the name (ASCII case-insensitively), an update of
/// the first such stack when one does.
pub fn reconcile(
    name: &str,
    base: DesiredConfig,
    overlay: Option<EnvMap>,
    list_result: Result<Vec<RemoteStackRef>, String>,
) -> (r: Result<ReconcileAction, ReconcileError>)
    requires
        base.wf(),
        overlay matches Some(o) ==> o.wf(),
    ensures
        r is Ok <==> list_result is Ok,
        list_result matches Err(d) ==> (r matches Err(e) && e == (ReconcileError::ListFailed {
            detail: d,
        })),
        list_result matches Ok(stacks) ==> (r matches Ok(a) && {
            let found = locate(stacks@, name@);
            &&& (found is None ==> (a matches ReconcileAction::Create { name: n, config: c }
                && n@ == name@ && c.wf() && is_merged(base, overlay, c)))
            &&& (found matches Some(st) ==> (a matches ReconcileAction::Update { id, config: c }
                && id == st.id && c.wf() && is_merged(base, overlay, c)))
        }),
{
    match list_result {
        Err(d) => Err(ReconcileError::ListFailed { detail: d }),
        Ok(stacks) => {
            let merged = merge(base, overlay);
            let located = locate_stack(name, &stacks);
            Ok(plan_action(name, located, merged))
        },
    }
}

/// Turns the result of executing a planned action into the run's report: a
/// successful create is `Created`, a successful update is `Updated`, and a
/// failure surfaces as `ApplyFailed` with its cause.
pub fn apply_outcome(action: &ReconcileAction, apply_result: Result<String, String>) -> (r: Result<
    ReconcileOutcome,
    ReconcileError,
>)
    ensures
        apply_result matches Ok(resp) ==> {
            &&& action is Create ==> (r matches Ok(o) && o == (ReconcileOutcome::Created {
                response: resp,
            }))
            &&& action is Update ==> (r matches Ok(o) && o == (ReconcileOutcome::Updated {
                response: resp,
            }))
        },
        apply_result matches Err(d) ==> (r matches Err(e) && e == (ReconcileError::ApplyFailed {
            detail: d,
        })),
{
    match apply_result {
        Err(d) => Err(ReconcileError::ApplyFailed { detail: d }),
        Ok(resp) => match action {
            ReconcileAction::Create { .. } => Ok(ReconcileOutcome::Created { response: resp }),
            ReconcileAction::Update { .. } => Ok(ReconcileOutcome::Updated { response: resp }),
        },
    }
}

} // verus!
