//! The data exchanged with Zitadel, and the decisions made on it.
use vstd::prelude::*;

use crate::name_map::string_eq_str;

verus! {

/// Zitadel v1 action definition.
#[derive(Debug, Clone, PartialEq, Eq)]
pub struct Action<Script> {
    pub timeout: Option<String>,
    pub allowed_to_fail: bool,
    pub script: Script,
}

/// A generic parameter to [`Action`] representing a fully loaded script.
pub type LoadedScript = String;

/// A generic parameter to [`Action`] representing a script that may still
/// need to be loaded from a file.
pub type OptionallyLoadedScript = Option<String>;

/// An action as Zitadel reports it.
#[derive(Debug, Clone, PartialEq, Eq)]
pub struct ActionSearch {
    pub id: String,
    pub name: String,
    pub timeout: Option<String>,
    pub allowed_to_fail: bool,
    pub script: String,
}

/// The request that creates an action.
#[derive(Debug, Clone, PartialEq, Eq)]
pub struct ActionCreate {
    pub name: String,
    pub timeout: Option<String>,
    pub allowed_to_fail: bool,
    pub script: String,
}

/// The request that updates an action.
#[derive(Debug, Clone, PartialEq, Eq)]
pub struct ActionUpdate {
    pub name: String,
    pub timeout: Option<String>,
    pub allowed_to_fail: bool,
    pub script: String,
}

/// An identifier, as Zitadel nests it.
#[derive(Debug, Clone, PartialEq, Eq)]
pub struct Id {
    pub id: String,
}

/// The actions Zitadel runs on one trigger of a flow.
#[derive(Debug, Clone, PartialEq, Eq)]
pub struct GetTriggersResFlowAction {
    pub trigger_type: Id,
    pub actions: Vec<ActionSearch>,
}

/// The answer of Zitadel to the creation of a target.
#[derive(Debug, Clone, PartialEq, Eq)]
pub struct TargetCreated {
    pub id: String,
    pub signing_key: String,
}

/// The request that creates a target.
#[derive(Debug, Clone, PartialEq, Eq)]
pub struct CreateTarget {
    pub name: String,
    pub target_type: TargetType,
    pub timeout: String,
    pub endpoint: String,
}

/// A target as Zitadel reports it.
#[derive(Debug, Clone, PartialEq, Eq)]
pub struct FoundTarget {
    pub id: String,
    pub name: String,
    pub target_type: TargetType,
    pub timeout: String,
    pub endpoint: String,
    pub signing_key: String,
}

/// The request that updates a target; fields left `None` stay as they are.
#[derive(Debug, Clone, PartialEq, Eq, Default)]
pub struct UpdateTarget {
    pub target_type: Option<TargetType>,
    pub timeout: Option<String>,
    pub endpoint: Option<String>,
    pub expiration_signing_key: Option<String>,
}

/// How Zitadel calls a target.
#[allow(non_camel_case_types)]
#[derive(Debug, Clone, Copy, PartialEq, Eq, Structural)]
pub enum TargetType {
    restWebhook { interrupt_on_error: bool },
    restCall { interrupt_on_error: bool },
    restAsync {},
}

/// The answer of Zitadel to the update of a target.
#[derive(Debug, Clone, PartialEq, Eq)]
pub struct TargetUpdated {
    pub signing_key: String,
}

/// Targets called when a condition is met.
#[derive(Debug, Clone, PartialEq, Eq, PartialOrd, Ord)]
pub struct Execution {
    pub condition: ExecutionCondition,
    pub targets: Vec<String>,
}

/// When an execution runs.
#[allow(non_camel_case_types)]
#[derive(Debug, Clone, PartialEq, Eq, PartialOrd, Ord)]
pub enum ExecutionCondition {
    request(RequestResponseCondition),
    response(RequestResponseCondition),
    function { name: String },
    event(EventCondition),
}

/// A condition on a request or a response.
#[allow(non_camel_case_types)]
#[derive(Debug, Clone, PartialEq, Eq, PartialOrd, Ord)]
pub enum RequestResponseCondition {
    method(String),
    service(String),
    all(TrueConst),
}

/// A condition on an event.
#[allow(non_camel_case_types)]
#[derive(Debug, Clone, PartialEq, Eq, PartialOrd, Ord)]
pub enum EventCondition {
    event(String),
    group(String),
    all(TrueConst),
}

/// The constant `true`, which is all that `all` conditions hold.
#[derive(Debug, Clone, Copy, PartialEq, Eq, PartialOrd, Ord, Structural)]
pub struct TrueConst;

/// The view of an optional string.
pub open spec fn opt_view(o: Option<String>) -> Option<Seq<char>> {
    match o {
        Some(s) => Some(s@),
        None => None,
    }
}

/// The timeout Zitadel reports for an action created without one.
pub open spec fn default_action_timeout() -> Seq<char> {
    seq!['2', '0', 's']
}

/// Whether the action defined locally is the action Zitadel reports: the same
/// script, the same `allowed_to_fail`, and the same timeout, where no timeout
/// is the same as the timeout Zitadel sets by default.
pub open spec fn spec_action_is_same(action: Action<LoadedScript>, a: ActionSearch) -> bool {
    &&& action.allowed_to_fail == a.allowed_to_fail
    &&& action.script@ == a.script@
    &&& (opt_view(action.timeout) == opt_view(a.timeout) || (action.timeout is None && opt_view(
        a.timeout,
    ) == Some(default_action_timeout())))
}

/// A copy of an optional string.
pub fn copy_opt_string(o: &Option<String>) -> (r: Option<String>)
    ensures
        r == *o,
{
    match o {
        Some(s) => Some(s.clone()),
        None => None,
    }
}

/// Whether two optional strings are equal.
pub fn opt_string_eq(a: &Option<String>, b: &Option<String>) -> (r: bool)
    ensures
        r == (opt_view(*a) == opt_view(*b)),
{
    match (a, b) {
        (Some(x), Some(y)) => *x == *y,
        (None, None) => true,
        _ => false,
    }
}

/// Whether the action defined locally is the action Zitadel reports.
pub fn action_is_same(action: &Action<LoadedScript>, a: &ActionSearch) -> (r: bool)
    ensures
        r == spec_action_is_same(*action, *a),
{
    let timeout_is_default = match &a.timeout {
        Some(t) => {
            let r = string_eq_str(t, "20s");
            proof {
                reveal_strlit("20s");
                assert("20s"@ =~= default_action_timeout());
            }
            r
        },
        None => false,
    };
    action.allowed_to_fail == a.allowed_to_fail && action.script == a.script && (opt_string_eq(
        &action.timeout,
        &a.timeout,
    ) || (action.timeout.is_none() && timeout_is_default))
}

impl Action<LoadedScript> {
    /// A copy of this action.
    pub fn copy(&self) -> (r: Self)
        ensures
            r == *self,
    {
        Action {
            timeout: copy_opt_string(&self.timeout),
            allowed_to_fail: self.allowed_to_fail,
            script: self.script.clone(),
        }
    }
}

impl ActionCreate {
    /// A copy of this request.
    pub fn copy(&self) -> (r: Self)
        ensures
            r == *self,
    {
        ActionCreate {
            name: self.name.clone(),
            timeout: copy_opt_string(&self.timeout),
            allowed_to_fail: self.allowed_to_fail,
            script: self.script.clone(),
        }
    }

    /// The request that creates the action `action` under the name `name`.
    pub fn new(name: String, action: Action<LoadedScript>) -> (r: Self)
        ensures
            r == (ActionCreate {
                name: name,
                timeout: action.timeout,
                allowed_to_fail: action.allowed_to_fail,
                script: action.script,
            }),
    {
        ActionCreate {
            name,
            timeout: action.timeout,
            allowed_to_fail: action.allowed_to_fail,
            script: action.script,
        }
    }
}

impl ActionUpdate {
    /// A copy of this request.
    pub fn copy(&self) -> (r: Self)
        ensures
            r == *self,
    {
        ActionUpdate {
            name: self.name.clone(),
            timeout: copy_opt_string(&self.timeout),
            allowed_to_fail: self.allowed_to_fail,
            script: self.script.clone(),
        }
    }

    /// The request that updates the action named `name` to `action`.
    pub fn new(name: String, action: Action<LoadedScript>) -> (r: Self)
        ensures
            r == (ActionUpdate {
                name: name,
                timeout: action.timeout,
                allowed_to_fail: action.allowed_to_fail,
                script: action.script,
            }),
    {
        ActionUpdate {
            name,
            timeout: action.timeout,
            allowed_to_fail: action.allowed_to_fail,
            script: action.script,
        }
    }
}

} // verus!
