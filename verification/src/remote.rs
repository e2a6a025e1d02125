//! What the Zitadel API answers, field by field, and what it is read as.
//!
//! Every field of an answer may be missing. The types here hold the fields
//! that a sync reads, as they came; the functions read them into the types
//! of [`crate::zitadel`], or say which field is missing or which object is
//! malformed.
use vstd::prelude::*;

use crate::text::copy_strings;

use crate::zitadel::{
    copy_opt_string,
    ActionSearch, EventCondition, Execution, ExecutionCondition, FoundTarget,
    GetTriggersResFlowAction, Id, RequestResponseCondition, TargetCreated, TargetType,
    TargetUpdated, TrueConst,
};

verus! {

/// A field that an answer of Zitadel lacked.
#[derive(Debug, Clone, Copy, PartialEq, Eq, Structural)]
pub enum Field {
    Id,
    Name,
    Script,
    Flow,
    TriggerType,
    TriggerTypeId,
    Timeout,
    Endpoint,
    SigningKey,
    Condition,
}

/// An object in an answer of Zitadel that is none of the things it may be.
#[derive(Debug, Clone, Copy, PartialEq, Eq, Structural)]
pub enum Malformed {
    FoundTarget,
    ExecutionConditionRequest,
    ExecutionConditionResponse,
    ExecutionConditionEvent,
    ExecutionCondition,
}

/// Why an answer of Zitadel cannot be read.
#[derive(Debug, Clone, Copy, PartialEq, Eq, Structural)]
pub enum DecodeError {
    /// A field is missing.
    MissingField { field: Field },
    /// An object is malformed.
    MalformedResponse { object: Malformed },
    /// A flow or trigger type is not a number.
    FlowTypeParse,
}

/// An action as the API reports it.
#[derive(Debug, Clone, PartialEq, Eq)]
pub struct RemoteAction {
    pub id: Option<String>,
    pub name: Option<String>,
    pub timeout: Option<String>,
    pub allowed_to_fail: Option<bool>,
    pub script: Option<String>,
}

/// A nested identifier as the API reports it.
#[derive(Debug, Clone, PartialEq, Eq)]
pub struct RemoteId {
    pub id: Option<String>,
}

/// One trigger of a flow as the API reports it.
#[derive(Debug, Clone, PartialEq, Eq)]
pub struct RemoteTriggerAction {
    pub trigger_type: Option<RemoteId>,
    pub actions: Option<Vec<RemoteAction>>,
}

/// A flow as the API reports it.
#[derive(Debug, Clone, PartialEq, Eq)]
pub struct RemoteFlow {
    pub trigger_actions: Option<Vec<RemoteTriggerAction>>,
}

/// The settings of a webhook or a call as the API reports them.
#[derive(Debug, Clone, Copy, PartialEq, Eq, Structural)]
pub struct RemoteRest {
    pub interrupt_on_error: Option<bool>,
}

/// A target as the API reports it; `rest_async` says whether the target
/// carries the (empty) asynchronous settings.
#[derive(Debug, Clone, PartialEq, Eq)]
pub struct RemoteTarget {
    pub id: Option<String>,
    pub name: Option<String>,
    pub rest_webhook: Option<RemoteRest>,
    pub rest_call: Option<RemoteRest>,
    pub rest_async: bool,
    pub timeout: Option<String>,
    pub endpoint: Option<String>,
    pub signing_key: Option<String>,
}

/// A condition on requests or responses as the API carries it.
#[derive(Debug, Clone, PartialEq, Eq)]
pub struct RemoteRequestResponse {
    pub method: Option<String>,
    pub service: Option<String>,
    pub all: Option<bool>,
}

/// A condition on events as the API carries it.
#[derive(Debug, Clone, PartialEq, Eq)]
pub struct RemoteEvent {
    pub event: Option<String>,
    pub group: Option<String>,
    pub all: Option<bool>,
}

/// A condition on a function as the API carries it.
#[derive(Debug, Clone, PartialEq, Eq)]
pub struct RemoteFunction {
    pub name: Option<String>,
}

/// An execution condition as the API carries it.
#[derive(Debug, Clone, PartialEq, Eq)]
pub struct RemoteCondition {
    pub request: Option<RemoteRequestResponse>,
    pub response: Option<RemoteRequestResponse>,
    pub function: Option<RemoteFunction>,
    pub event: Option<RemoteEvent>,
}

/// An execution as the API carries it.
#[derive(Debug, Clone, PartialEq, Eq)]
pub struct RemoteExecution {
    pub condition: Option<RemoteCondition>,
    pub targets: Option<Vec<String>>,
}

/// The action that `a` reports, or the first of its fields `id`, `name`,
/// `script` that is missing. A missing `allowed_to_fail` reads as `false`.
pub open spec fn spec_decode_action(a: RemoteAction) -> Result<ActionSearch, DecodeError> {
    if a.id is None {
        Err(DecodeError::MissingField { field: Field::Id })
    } else if a.name is None {
        Err(DecodeError::MissingField { field: Field::Name })
    } else if a.script is None {
        Err(DecodeError::MissingField { field: Field::Script })
    } else {
        Ok(
            ActionSearch {
                id: a.id->0,
                name: a.name->0,
                timeout: a.timeout,
                allowed_to_fail: match a.allowed_to_fail {
                    Some(b) => b,
                    None => false,
                },
                script: a.script->0,
            },
        )
    }
}

/// Reads an action that the API reports.
pub fn decode_action(a: &RemoteAction) -> (r: Result<ActionSearch, DecodeError>)
    ensures
        r == spec_decode_action(*a),
{
    let id = match &a.id {
        Some(id) => id.clone(),
        None => return Err(DecodeError::MissingField { field: Field::Id }),
    };
    let name = match &a.name {
        Some(name) => name.clone(),
        None => return Err(DecodeError::MissingField { field: Field::Name }),
    };
    let script = match &a.script {
        Some(script) => script.clone(),
        None => return Err(DecodeError::MissingField { field: Field::Script }),
    };
    let allowed_to_fail = match a.allowed_to_fail {
        Some(b) => b,
        None => false,
    };
    Ok(ActionSearch { id, name, timeout: copy_opt_string(&a.timeout), allowed_to_fail, script })
}

/// The actions that the reports `actions` give, or the error of the first
/// report that cannot be read.
pub open spec fn spec_decode_actions(actions: Seq<RemoteAction>) -> Result<
    Seq<ActionSearch>,
    DecodeError,
>
    decreases actions.len(),
{
    if actions.len() == 0 {
        Ok(Seq::empty())
    } else {
        match spec_decode_actions(actions.drop_last()) {
            Err(e) => Err(e),
            Ok(done) => match spec_decode_action(actions.last()) {
                Err(e) => Err(e),
                Ok(a) => Ok(done.push(a)),
            },
        }
    }
}

/// A decoded sequence as the view of a result.
pub open spec fn seq_result<T>(r: Result<Vec<T>, DecodeError>) -> Result<Seq<T>, DecodeError> {
    match r {
        Ok(v) => Ok(v@),
        Err(e) => Err(e),
    }
}

/// Reads the actions that the API reports, in order; fails with the first
/// one that cannot be read.
pub fn decode_actions(actions: &Vec<RemoteAction>) -> (r: Result<Vec<ActionSearch>, DecodeError>)
    ensures
        seq_result(r) == spec_decode_actions(actions@),
{
    let n = actions.len();
    let mut out: Vec<ActionSearch> = Vec::new();
    let mut i: usize = 0;
    proof {
        assert(actions@.take(0) =~= Seq::<RemoteAction>::empty());
        assert(out@ =~= Seq::<ActionSearch>::empty());
    }
    while i < n
        invariant
            n == actions@.len(),
            i <= n,
            spec_decode_actions(actions@.take(i as int)) == Ok::<Seq<ActionSearch>, DecodeError>(
                out@,
            ),
        decreases n - i,
    {
        proof {
            assert(actions@.take(i + 1).drop_last() =~= actions@.take(i as int));
            assert(actions@.take(i + 1).last() == actions@[i as int]);
        }
        match decode_action(&actions[i]) {
            Ok(a) => {
                out.push(a);
            },
            Err(e) => {
                proof {
                    lemma_decode_actions_err(actions@, i as int + 1, e);
                }
                return Err(e);
            },
        }
        i = i + 1;
    }
    proof {
        assert(actions@.take(n as int) =~= actions@);
    }
    Ok(out)
}

/// Once a report cannot be read, the reading of all the reports fails with
/// its error.
proof fn lemma_decode_actions_err(actions: Seq<RemoteAction>, k: int, e: DecodeError)
    requires
        0 < k <= actions.len(),
        spec_decode_actions(actions.take(k)) == Err::<Seq<ActionSearch>, DecodeError>(e),
    ensures
        spec_decode_actions(actions) == Err::<Seq<ActionSearch>, DecodeError>(e),
    decreases actions.len() - k,
{
    if k < actions.len() {
        assert(actions.take(k + 1).drop_last() =~= actions.take(k));
        lemma_decode_actions_err(actions, k + 1, e);
    } else {
        assert(actions.take(k) =~= actions);
    }
}

/// The trigger type id and the actions that the report `t` gives, or the
/// first thing missing: the trigger type, its id, or a field of an action.
/// Missing actions read as none.
pub open spec fn spec_decode_trigger(t: RemoteTriggerAction) -> Result<
    (String, Seq<ActionSearch>),
    DecodeError,
> {
    match t.trigger_type {
        None => Err(DecodeError::MissingField { field: Field::TriggerType }),
        Some(tt) => match tt.id {
            None => Err(DecodeError::MissingField { field: Field::TriggerTypeId }),
            Some(id) => match t.actions {
                None => Ok((id, Seq::empty())),
                Some(actions) => match spec_decode_actions(actions@) {
                    Ok(done) => Ok((id, done)),
                    Err(e) => Err(e),
                },
            },
        },
    }
}

/// `r` is what the report `t` reads as.
pub open spec fn decoded_trigger_is(
    r: Result<GetTriggersResFlowAction, DecodeError>,
    t: RemoteTriggerAction,
) -> bool {
    match (r, spec_decode_trigger(t)) {
        (Ok(got), Ok(want)) => got.trigger_type.id == want.0 && got.actions@ == want.1,
        (Err(e), Err(f)) => e == f,
        _ => false,
    }
}

/// Reads one trigger of a flow that the API reports.
pub fn decode_trigger(t: &RemoteTriggerAction) -> (r: Result<GetTriggersResFlowAction, DecodeError>)
    ensures
        decoded_trigger_is(r, *t),
{
    let id = match &t.trigger_type {
        None => return Err(DecodeError::MissingField { field: Field::TriggerType }),
        Some(tt) => match &tt.id {
            None => return Err(DecodeError::MissingField { field: Field::TriggerTypeId }),
            Some(id) => id.clone(),
        },
    };
    let actions = match &t.actions {
        None => Vec::new(),
        Some(actions) => match decode_actions(actions) {
            Ok(v) => v,
            Err(e) => return Err(e),
        },
    };
    proof {
        if t.actions is None {
            assert(actions@ =~= Seq::<ActionSearch>::empty());
        }
    }
    Ok(GetTriggersResFlowAction { trigger_type: Id { id }, actions })
}

/// The triggers that the reports `ts` give, or the error of the first report
/// that cannot be read.
pub open spec fn spec_decode_triggers(ts: Seq<RemoteTriggerAction>) -> Result<
    Seq<(String, Seq<ActionSearch>)>,
    DecodeError,
>
    decreases ts.len(),
{
    if ts.len() == 0 {
        Ok(Seq::empty())
    } else {
        match spec_decode_triggers(ts.drop_last()) {
            Err(e) => Err(e),
            Ok(done) => match spec_decode_trigger(ts.last()) {
                Err(e) => Err(e),
                Ok(t) => Ok(done.push(t)),
            },
        }
    }
}

/// The triggers that the flow report `flow` gives: none when it lists none,
/// or the error of the first trigger that cannot be read; a missing flow is a
/// missing field.
pub open spec fn spec_decode_flow(flow: Option<RemoteFlow>) -> Result<
    Seq<(String, Seq<ActionSearch>)>,
    DecodeError,
> {
    match flow {
        None => Err(DecodeError::MissingField { field: Field::Flow }),
        Some(f) => match f.trigger_actions {
            None => Ok(Seq::empty()),
            Some(ts) => spec_decode_triggers(ts@),
        },
    }
}

/// `r` is what the flow report `flow` reads as.
pub open spec fn decoded_flow_is(
    r: Result<Vec<GetTriggersResFlowAction>, DecodeError>,
    flow: Option<RemoteFlow>,
) -> bool {
    match (r, spec_decode_flow(flow)) {
        (Ok(got), Ok(want)) => {
            &&& got@.len() == want.len()
            &&& forall|i: int|
                0 <= i < want.len() ==> (#[trigger] got@[i]).trigger_type.id == want[i].0
                    && got@[i].actions@ == want[i].1
        },
        (Err(e), Err(f)) => e == f,
        _ => false,
    }
}

/// Reads the triggers of a flow that the API reports.
pub fn decode_flow(flow: &Option<RemoteFlow>) -> (r: Result<Vec<GetTriggersResFlowAction>, DecodeError>)
    ensures
        decoded_flow_is(r, *flow),
{
    let ts = match flow {
        None => return Err(DecodeError::MissingField { field: Field::Flow }),
        Some(f) => match &f.trigger_actions {
            None => {
                let v: Vec<GetTriggersResFlowAction> = Vec::new();
                return Ok(v);
            },
            Some(ts) => ts,
        },
    };
    let n = ts.len();
    let mut out: Vec<GetTriggersResFlowAction> = Vec::new();
    let mut i: usize = 0;
    proof {
        assert(ts@.take(0) =~= Seq::<RemoteTriggerAction>::empty());
    }
    while i < n
        invariant
            n == ts@.len(),
            spec_decode_flow(*flow) == spec_decode_triggers(ts@),
            i <= n,
            out@.len() == i,
            spec_decode_triggers(ts@.take(i as int)) is Ok,
            spec_decode_triggers(ts@.take(i as int))->Ok_0.len() == i,
            forall|j: int|
                0 <= j < i ==> (#[trigger] out@[j]).trigger_type.id == spec_decode_triggers(
                    ts@.take(i as int),
                )->Ok_0[j].0 && out@[j].actions@ == spec_decode_triggers(
                    ts@.take(i as int),
                )->Ok_0[j].1,
        decreases n - i,
    {
        proof {
            assert(ts@.take(i + 1).drop_last() =~= ts@.take(i as int));
            assert(ts@.take(i + 1).last() == ts@[i as int]);
        }
        match decode_trigger(&ts[i]) {
            Ok(t) => {
                out.push(t);
            },
            Err(e) => {
                proof {
                    assert(spec_decode_trigger(ts@[i as int]) == Err::<(String, Seq<ActionSearch>), DecodeError>(e));
                    assert(spec_decode_triggers(ts@.take(i + 1)) == Err::<Seq<(String, Seq<ActionSearch>)>, DecodeError>(e));
                    lemma_decode_triggers_err(ts@, i as int + 1, e);
                }
                return Err(e);
            },
        }
        i = i + 1;
    }
    proof {
        assert(ts@.take(n as int) =~= ts@);
    }
    Ok(out)
}

/// Once a trigger cannot be read, the reading of all the triggers fails with
/// its error.
proof fn lemma_decode_triggers_err(ts: Seq<RemoteTriggerAction>, k: int, e: DecodeError)
    requires
        0 < k <= ts.len(),
        spec_decode_triggers(ts.take(k)) == Err::<Seq<(String, Seq<ActionSearch>)>, DecodeError>(
            e,
        ),
    ensures
        spec_decode_triggers(ts) == Err::<Seq<(String, Seq<ActionSearch>)>, DecodeError>(e),
    decreases ts.len() - k,
{
    if k < ts.len() {
        assert(ts.take(k + 1).drop_last() =~= ts.take(k));
        lemma_decode_triggers_err(ts, k + 1, e);
    } else {
        assert(ts.take(k) =~= ts);
    }
}

/// How a target is called, as the API carries it: the settings of a webhook,
/// of a call, and whether the (empty) asynchronous settings are there.
#[derive(Debug, Clone, Copy, PartialEq, Eq, Structural)]
pub struct RemoteTargetKind {
    pub rest_webhook: Option<RemoteRest>,
    pub rest_call: Option<RemoteRest>,
    pub rest_async: bool,
}

/// How a target is called, read from what the API carries: a webhook first,
/// then a call, then asynchronously; a missing `interrupt_on_error` reads as
/// `false`.
pub open spec fn spec_decode_target_kind(k: RemoteTargetKind) -> Result<TargetType, DecodeError> {
    match k.rest_webhook {
        Some(x) => Ok(
            TargetType::restWebhook {
                interrupt_on_error: match x.interrupt_on_error {
                    Some(b) => b,
                    None => false,
                },
            },
        ),
        None => match k.rest_call {
            Some(x) => Ok(
                TargetType::restCall {
                    interrupt_on_error: match x.interrupt_on_error {
                        Some(b) => b,
                        None => false,
                    },
                },
            ),
            None => if k.rest_async {
                Ok(TargetType::restAsync {  })
            } else {
                Err(DecodeError::MalformedResponse { object: Malformed::FoundTarget })
            },
        },
    }
}

/// Reads how a target is called.
pub fn decode_target_kind(k: RemoteTargetKind) -> (r: Result<TargetType, DecodeError>)
    ensures
        r == spec_decode_target_kind(k),
{
    match k.rest_webhook {
        Some(x) => Ok(
            TargetType::restWebhook {
                interrupt_on_error: match x.interrupt_on_error {
                    Some(b) => b,
                    None => false,
                },
            },
        ),
        None => match k.rest_call {
            Some(x) => Ok(
                TargetType::restCall {
                    interrupt_on_error: match x.interrupt_on_error {
                        Some(b) => b,
                        None => false,
                    },
                },
            ),
            None => if k.rest_async {
                Ok(TargetType::restAsync {  })
            } else {
                Err(DecodeError::MalformedResponse { object: Malformed::FoundTarget })
            },
        },
    }
}

/// How a target is called, as the API carries it.
pub open spec fn spec_encode_target_kind(t: TargetType) -> RemoteTargetKind {
    match t {
        TargetType::restWebhook { interrupt_on_error } => RemoteTargetKind {
            rest_webhook: Some(RemoteRest { interrupt_on_error: Some(interrupt_on_error) }),
            rest_call: None,
            rest_async: false,
        },
        TargetType::restCall { interrupt_on_error } => RemoteTargetKind {
            rest_webhook: None,
            rest_call: Some(RemoteRest { interrupt_on_error: Some(interrupt_on_error) }),
            rest_async: false,
        },
        TargetType::restAsync {  } => RemoteTargetKind {
            rest_webhook: None,
            rest_call: None,
            rest_async: true,
        },
    }
}

/// Writes how a target is called, as the API carries it.
pub fn encode_target_kind(t: TargetType) -> (r: RemoteTargetKind)
    ensures
        r == spec_encode_target_kind(t),
{
    match t {
        TargetType::restWebhook { interrupt_on_error } => RemoteTargetKind {
            rest_webhook: Some(RemoteRest { interrupt_on_error: Some(interrupt_on_error) }),
            rest_call: None,
            rest_async: false,
        },
        TargetType::restCall { interrupt_on_error } => RemoteTargetKind {
            rest_webhook: None,
            rest_call: Some(RemoteRest { interrupt_on_error: Some(interrupt_on_error) }),
            rest_async: false,
        },
        TargetType::restAsync {  } => RemoteTargetKind {
            rest_webhook: None,
            rest_call: None,
            rest_async: true,
        },
    }
}

/// The target that `t` reports: first how it is called, then the first of
/// `id`, `name`, `timeout`, `endpoint`, `signing_key` that is missing.
pub open spec fn spec_decode_target(t: RemoteTarget) -> Result<FoundTarget, DecodeError> {
    let kind = RemoteTargetKind {
        rest_webhook: t.rest_webhook,
        rest_call: t.rest_call,
        rest_async: t.rest_async,
    };
    match spec_decode_target_kind(kind) {
        Err(e) => Err(e),
        Ok(target_type) => if t.id is None {
            Err(DecodeError::MissingField { field: Field::Id })
        } else if t.name is None {
            Err(DecodeError::MissingField { field: Field::Name })
        } else if t.timeout is None {
            Err(DecodeError::MissingField { field: Field::Timeout })
        } else if t.endpoint is None {
            Err(DecodeError::MissingField { field: Field::Endpoint })
        } else if t.signing_key is None {
            Err(DecodeError::MissingField { field: Field::SigningKey })
        } else {
            Ok(
                FoundTarget {
                    id: t.id->0,
                    name: t.name->0,
                    target_type: target_type,
                    timeout: t.timeout->0,
                    endpoint: t.endpoint->0,
                    signing_key: t.signing_key->0,
                },
            )
        },
    }
}

/// The value of a field that must be there.
fn required(v: &Option<String>, field: Field) -> (r: Result<String, DecodeError>)
    ensures
        match v {
            Some(s) => r == Ok::<String, DecodeError>(*s),
            None => r == Err::<String, DecodeError>(DecodeError::MissingField { field: field }),
        },
{
    match v {
        Some(s) => Ok(s.clone()),
        None => Err(DecodeError::MissingField { field }),
    }
}

/// Reads a target that the API reports.
pub fn decode_target(t: &RemoteTarget) -> (r: Result<FoundTarget, DecodeError>)
    ensures
        r == spec_decode_target(*t),
{
    let kind = RemoteTargetKind {
        rest_webhook: t.rest_webhook,
        rest_call: t.rest_call,
        rest_async: t.rest_async,
    };
    let target_type = match decode_target_kind(kind) {
        Ok(tt) => tt,
        Err(e) => return Err(e),
    };
    let id = match required(&t.id, Field::Id) {
        Ok(v) => v,
        Err(e) => return Err(e),
    };
    let name = match required(&t.name, Field::Name) {
        Ok(v) => v,
        Err(e) => return Err(e),
    };
    let timeout = match required(&t.timeout, Field::Timeout) {
        Ok(v) => v,
        Err(e) => return Err(e),
    };
    let endpoint = match required(&t.endpoint, Field::Endpoint) {
        Ok(v) => v,
        Err(e) => return Err(e),
    };
    let signing_key = match required(&t.signing_key, Field::SigningKey) {
        Ok(v) => v,
        Err(e) => return Err(e),
    };
    Ok(FoundTarget { id, name, target_type, timeout, endpoint, signing_key })
}

/// Reads the answer to the creation of a target: its id and signing key.
pub fn decode_created_target(id: &Option<String>, signing_key: &Option<String>) -> (r: Result<
    TargetCreated,
    DecodeError,
>)
    ensures
        match r {
            Ok(c) => id == Some(c.id) && signing_key == Some(c.signing_key),
            Err(e) => if id is None {
                e == DecodeError::MissingField { field: Field::Id }
            } else {
                signing_key is None && e == DecodeError::MissingField { field: Field::SigningKey }
            },
        },
{
    let id = match required(id, Field::Id) {
        Ok(v) => v,
        Err(e) => return Err(e),
    };
    let signing_key = match required(signing_key, Field::SigningKey) {
        Ok(v) => v,
        Err(e) => return Err(e),
    };
    Ok(TargetCreated { id, signing_key })
}

/// Reads the answer to the update of a target: its signing key.
pub fn decode_updated_target(signing_key: &Option<String>) -> (r: Result<TargetUpdated, DecodeError>)
    ensures
        match r {
            Ok(u) => signing_key == Some(u.signing_key),
            Err(e) => signing_key is None && e == DecodeError::MissingField {
                field: Field::SigningKey,
            },
        },
{
    match required(signing_key, Field::SigningKey) {
        Ok(v) => Ok(TargetUpdated { signing_key: v }),
        Err(e) => Err(e),
    }
}

/// Reads the answer to the creation of an action: its id.
pub fn decode_created_action(id: &Option<String>) -> (r: Result<String, DecodeError>)
    ensures
        match r {
            Ok(v) => id == Some(v),
            Err(e) => id is None && e == DecodeError::MissingField { field: Field::Id },
        },
{
    required(id, Field::Id)
}

/// A condition on requests or responses read from what the API carries:
/// a method first, then a service, then all; otherwise the object is
/// malformed.
pub open spec fn spec_decode_request_response(r: RemoteRequestResponse, object: Malformed) -> Result<
    RequestResponseCondition,
    DecodeError,
> {
    match r.method {
        Some(m) => Ok(RequestResponseCondition::method(m)),
        None => match r.service {
            Some(s) => Ok(RequestResponseCondition::service(s)),
            None => if r.all is Some {
                Ok(RequestResponseCondition::all(TrueConst))
            } else {
                Err(DecodeError::MalformedResponse { object: object })
            },
        },
    }
}

/// A condition on events read from what the API carries: an event first,
/// then a group, then all; otherwise the object is malformed.
pub open spec fn spec_decode_event(e: RemoteEvent) -> Result<EventCondition, DecodeError> {
    match e.event {
        Some(x) => Ok(EventCondition::event(x)),
        None => match e.group {
            Some(g) => Ok(EventCondition::group(g)),
            None => if e.all is Some {
                Ok(EventCondition::all(TrueConst))
            } else {
                Err(DecodeError::MalformedResponse { object: Malformed::ExecutionConditionEvent })
            },
        },
    }
}

/// An execution condition read from what the API carries: on requests first,
/// then on responses, then on a function, then on events; otherwise the
/// condition is malformed. A missing condition is a missing field.
pub open spec fn spec_decode_condition(c: Option<RemoteCondition>) -> Result<
    ExecutionCondition,
    DecodeError,
> {
    match c {
        None => Err(DecodeError::MissingField { field: Field::Condition }),
        Some(c) => match c.request {
            Some(r) => match spec_decode_request_response(r, Malformed::ExecutionConditionRequest) {
                Ok(x) => Ok(ExecutionCondition::request(x)),
                Err(e) => Err(e),
            },
            None => match c.response {
                Some(r) => match spec_decode_request_response(
                    r,
                    Malformed::ExecutionConditionResponse,
                ) {
                    Ok(x) => Ok(ExecutionCondition::response(x)),
                    Err(e) => Err(e),
                },
                None => match c.function {
                    Some(f) => match f.name {
                        Some(name) => Ok(ExecutionCondition::function { name: name }),
                        None => Err(DecodeError::MissingField { field: Field::Name }),
                    },
                    None => match c.event {
                        Some(e) => match spec_decode_event(e) {
                            Ok(x) => Ok(ExecutionCondition::event(x)),
                            Err(err) => Err(err),
                        },
                        None => Err(
                            DecodeError::MalformedResponse { object: Malformed::ExecutionCondition },
                        ),
                    },
                },
            },
        },
    }
}

fn decode_request_response(r: &RemoteRequestResponse, object: Malformed) -> (res: Result<
    RequestResponseCondition,
    DecodeError,
>)
    ensures
        res == spec_decode_request_response(*r, object),
{
    match &r.method {
        Some(m) => Ok(RequestResponseCondition::method(m.clone())),
        None => match &r.service {
            Some(s) => Ok(RequestResponseCondition::service(s.clone())),
            None => if r.all.is_some() {
                Ok(RequestResponseCondition::all(TrueConst))
            } else {
                Err(DecodeError::MalformedResponse { object })
            },
        },
    }
}

fn decode_event(e: &RemoteEvent) -> (res: Result<EventCondition, DecodeError>)
    ensures
        res == spec_decode_event(*e),
{
    match &e.event {
        Some(x) => Ok(EventCondition::event(x.clone())),
        None => match &e.group {
            Some(g) => Ok(EventCondition::group(g.clone())),
            None => if e.all.is_some() {
                Ok(EventCondition::all(TrueConst))
            } else {
                Err(DecodeError::MalformedResponse { object: Malformed::ExecutionConditionEvent })
            },
        },
    }
}

/// Reads an execution condition that the API carries.
pub fn decode_condition(c: &Option<RemoteCondition>) -> (r: Result<ExecutionCondition, DecodeError>)
    ensures
        r == spec_decode_condition(*c),
{
    match c {
        None => Err(DecodeError::MissingField { field: Field::Condition }),
        Some(c) => match &c.request {
            Some(r) => match decode_request_response(r, Malformed::ExecutionConditionRequest) {
                Ok(x) => Ok(ExecutionCondition::request(x)),
                Err(e) => Err(e),
            },
            None => match &c.response {
                Some(r) => match decode_request_response(r, Malformed::ExecutionConditionResponse) {
                    Ok(x) => Ok(ExecutionCondition::response(x)),
                    Err(e) => Err(e),
                },
                None => match &c.function {
                    Some(f) => match &f.name {
                        Some(name) => Ok(ExecutionCondition::function { name: name.clone() }),
                        None => Err(DecodeError::MissingField { field: Field::Name }),
                    },
                    None => match &c.event {
                        Some(e) => match decode_event(e) {
                            Ok(x) => Ok(ExecutionCondition::event(x)),
                            Err(err) => Err(err),
                        },
                        None => Err(
                            DecodeError::MalformedResponse { object: Malformed::ExecutionCondition },
                        ),
                    },
                },
            },
        },
    }
}

/// The targets that an execution reported by the API calls; none when the
/// field is missing.
pub open spec fn reported_targets(e: RemoteExecution) -> Seq<String> {
    match e.targets {
        Some(v) => v@,
        None => Seq::empty(),
    }
}

/// Reads an execution that the API reports.
pub fn decode_execution(e: &RemoteExecution) -> (r: Result<Execution, DecodeError>)
    ensures
        match r {
            Ok(x) => spec_decode_condition(e.condition) == Ok::<ExecutionCondition, DecodeError>(
                x.condition,
            ) && x.targets@ == reported_targets(*e),
            Err(err) => spec_decode_condition(e.condition) == Err::<ExecutionCondition, DecodeError>(
                err,
            ),
        },
{
    let condition = match decode_condition(&e.condition) {
        Ok(c) => c,
        Err(err) => return Err(err),
    };
    let targets = match &e.targets {
        Some(v) => copy_strings(v),
        None => Vec::new(),
    };
    proof {
        if e.targets is None {
            assert(targets@ =~= Seq::<String>::empty());
        }
    }
    Ok(Execution { condition, targets })
}

/// The executions that the reports `es` give, or the error of the first
/// report that cannot be read.
pub open spec fn spec_decode_executions(es: Seq<RemoteExecution>) -> Result<
    Seq<(ExecutionCondition, Seq<String>)>,
    DecodeError,
>
    decreases es.len(),
{
    if es.len() == 0 {
        Ok(Seq::empty())
    } else {
        match spec_decode_executions(es.drop_last()) {
            Err(e) => Err(e),
            Ok(done) => match spec_decode_condition(es.last().condition) {
                Err(e) => Err(e),
                Ok(c) => Ok(done.push((c, reported_targets(es.last())))),
            },
        }
    }
}

/// `r` is what the reports `es` read as.
pub open spec fn decoded_executions_are(
    r: Result<Vec<Execution>, DecodeError>,
    es: Seq<RemoteExecution>,
) -> bool {
    match (r, spec_decode_executions(es)) {
        (Ok(got), Ok(want)) => {
            &&& got@.len() == want.len()
            &&& forall|i: int|
                0 <= i < want.len() ==> (#[trigger] got@[i]).condition == want[i].0
                    && got@[i].targets@ == want[i].1
        },
        (Err(e), Err(f)) => e == f,
        _ => false,
    }
}

/// Reads the executions that the API reports, in order; fails with the
/// first one that cannot be read.
pub fn decode_executions(es: &Vec<RemoteExecution>) -> (r: Result<Vec<Execution>, DecodeError>)
    ensures
        decoded_executions_are(r, es@),
{
    let n = es.len();
    let mut out: Vec<Execution> = Vec::new();
    let mut i: usize = 0;
    proof {
        assert(es@.take(0) =~= Seq::<RemoteExecution>::empty());
    }
    while i < n
        invariant
            n == es@.len(),
            i <= n,
            out@.len() == i,
            spec_decode_executions(es@.take(i as int)) is Ok,
            spec_decode_executions(es@.take(i as int))->Ok_0.len() == i,
            forall|j: int|
                0 <= j < i ==> (#[trigger] out@[j]).condition == spec_decode_executions(
                    es@.take(i as int),
                )->Ok_0[j].0 && out@[j].targets@ == spec_decode_executions(
                    es@.take(i as int),
                )->Ok_0[j].1,
        decreases n - i,
    {
        proof {
            assert(es@.take(i + 1).drop_last() =~= es@.take(i as int));
            assert(es@.take(i + 1).last() == es@[i as int]);
        }
        match decode_execution(&es[i]) {
            Ok(x) => {
                out.push(x);
            },
            Err(e) => {
                proof {
                    assert(spec_decode_executions(es@.take(i + 1)) == Err::<
                        Seq<(ExecutionCondition, Seq<String>)>,
                        DecodeError,
                    >(e));
                    lemma_decode_executions_err(es@, i as int + 1, e);
                }
                return Err(e);
            },
        }
        i = i + 1;
    }
    proof {
        assert(es@.take(n as int) =~= es@);
    }
    Ok(out)
}

/// Once an execution cannot be read, the reading of all of them fails with
/// its error.
proof fn lemma_decode_executions_err(es: Seq<RemoteExecution>, k: int, e: DecodeError)
    requires
        0 < k <= es.len(),
        spec_decode_executions(es.take(k)) == Err::<
            Seq<(ExecutionCondition, Seq<String>)>,
            DecodeError,
        >(e),
    ensures
        spec_decode_executions(es) == Err::<Seq<(ExecutionCondition, Seq<String>)>, DecodeError>(e),
    decreases es.len() - k,
{
    if k < es.len() {
        assert(es.take(k + 1).drop_last() =~= es.take(k));
        lemma_decode_executions_err(es, k + 1, e);
    } else {
        assert(es.take(k) =~= es);
    }
}

/// A condition on requests or responses as the API carries it.
pub open spec fn spec_encode_request_response(r: RequestResponseCondition) -> RemoteRequestResponse {
    match r {
        RequestResponseCondition::method(m) => RemoteRequestResponse {
            method: Some(m),
            service: None,
            all: None,
        },
        RequestResponseCondition::service(s) => RemoteRequestResponse {
            method: None,
            service: Some(s),
            all: None,
        },
        RequestResponseCondition::all(_) => RemoteRequestResponse {
            method: None,
            service: None,
            all: Some(true),
        },
    }
}

/// A condition on events as the API carries it.
pub open spec fn spec_encode_event(e: EventCondition) -> RemoteEvent {
    match e {
        EventCondition::event(x) => RemoteEvent { event: Some(x), group: None, all: None },
        EventCondition::group(g) => RemoteEvent { event: None, group: Some(g), all: None },
        EventCondition::all(_) => RemoteEvent { event: None, group: None, all: Some(true) },
    }
}

/// An execution condition as the API carries it.
pub open spec fn spec_encode_condition(c: ExecutionCondition) -> RemoteCondition {
    match c {
        ExecutionCondition::request(r) => RemoteCondition {
            request: Some(spec_encode_request_response(r)),
            response: None,
            function: None,
            event: None,
        },
        ExecutionCondition::response(r) => RemoteCondition {
            request: None,
            response: Some(spec_encode_request_response(r)),
            function: None,
            event: None,
        },
        ExecutionCondition::function { name } => RemoteCondition {
            request: None,
            response: None,
            function: Some(RemoteFunction { name: Some(name) }),
            event: None,
        },
        ExecutionCondition::event(e) => RemoteCondition {
            request: None,
            response: None,
            function: None,
            event: Some(spec_encode_event(e)),
        },
    }
}

fn encode_request_response(r: &RequestResponseCondition) -> (res: RemoteRequestResponse)
    ensures
        res == spec_encode_request_response(*r),
{
    match r {
        RequestResponseCondition::method(m) => RemoteRequestResponse {
            method: Some(m.clone()),
            service: None,
            all: None,
        },
        RequestResponseCondition::service(s) => RemoteRequestResponse {
            method: None,
            service: Some(s.clone()),
            all: None,
        },
        RequestResponseCondition::all(_) => RemoteRequestResponse {
            method: None,
            service: None,
            all: Some(true),
        },
    }
}

fn encode_event(e: &EventCondition) -> (res: RemoteEvent)
    ensures
        res == spec_encode_event(*e),
{
    match e {
        EventCondition::event(x) => RemoteEvent { event: Some(x.clone()), group: None, all: None },
        EventCondition::group(g) => RemoteEvent { event: None, group: Some(g.clone()), all: None },
        EventCondition::all(_) => RemoteEvent { event: None, group: None, all: Some(true) },
    }
}

/// Writes an execution condition as the API carries it.
pub fn encode_condition(c: &ExecutionCondition) -> (r: RemoteCondition)
    ensures
        r == spec_encode_condition(*c),
{
    match c {
        ExecutionCondition::request(r) => RemoteCondition {
            request: Some(encode_request_response(r)),
            response: None,
            function: None,
            event: None,
        },
        ExecutionCondition::response(r) => RemoteCondition {
            request: None,
            response: Some(encode_request_response(r)),
            function: None,
            event: None,
        },
        ExecutionCondition::function { name } => RemoteCondition {
            request: None,
            response: None,
            function: Some(RemoteFunction { name: Some(name.clone()) }),
            event: None,
        },
        ExecutionCondition::event(e) => RemoteCondition {
            request: None,
            response: None,
            function: None,
            event: Some(encode_event(e)),
        },
    }
}

/// Whether `s` is a flow or trigger type number: an optional `+` followed by
/// decimal digits, and which number.
pub open spec fn digits_value(d: Seq<char>) -> int
    decreases d.len(),
{
    if d.len() == 0 {
        0
    } else {
        digits_value(d.drop_last()) * 10 + (d.last() as int - '0' as int)
    }
}

/// Every character of `d` is a decimal digit.
pub open spec fn all_digits(d: Seq<char>) -> bool {
    forall|i: int| 0 <= i < d.len() ==> '0' <= #[trigger] d[i] <= '9'
}

/// The digits of a type number: what follows an optional leading `+`.
pub open spec fn number_digits(s: Seq<char>) -> Seq<char> {
    if s.len() > 0 && s[0] == '+' {
        s.drop_first()
    } else {
        s
    }
}

/// The number that `s` writes, as Rust reads a `u32`: an optional `+`, then
/// one or more decimal digits, of a value that fits in 32 bits.
pub open spec fn spec_parse_type_number(s: Seq<char>) -> Option<u32> {
    let d = number_digits(s);
    if d.len() > 0 && all_digits(d) && digits_value(d) <= u32::MAX {
        Some(digits_value(d) as u32)
    } else {
        None
    }
}

/// The value of decimal digits never decreases when digits are added.
proof fn lemma_digits_value_grows(d: Seq<char>, k: int)
    requires
        all_digits(d),
        0 <= k <= d.len(),
    ensures
        0 <= digits_value(d.take(k)) <= digits_value(d),
    decreases d.len() - k,
{
    if k < d.len() {
        lemma_digits_value_grows(d, k + 1);
        assert(d.take(k + 1).drop_last() =~= d.take(k));
        assert('0' <= d[k] <= '9');
        lemma_digits_value_nonneg(d.take(k));
    } else {
        assert(d.take(k) =~= d);
        lemma_digits_value_nonneg(d);
    }
}

proof fn lemma_digits_value_nonneg(d: Seq<char>)
    requires
        all_digits(d),
    ensures
        digits_value(d) >= 0,
    decreases d.len(),
{
    if d.len() > 0 {
        assert(all_digits(d.drop_last())) by {
            assert forall|i: int| 0 <= i < d.drop_last().len() implies '0' <= #[trigger] d.drop_last()[i] <= '9' by {
                assert(d.drop_last()[i] == d[i]);
            }
        }
        lemma_digits_value_nonneg(d.drop_last());
        assert('0' <= d[d.len() - 1] <= '9');
    }
}

/// Reads a flow or trigger type, which the API takes as a number.
pub fn parse_type_number(s: &str) -> (r: Result<u32, DecodeError>)
    ensures
        match r {
            Ok(n) => spec_parse_type_number(s@) == Some(n),
            Err(e) => spec_parse_type_number(s@) is None && e == DecodeError::FlowTypeParse,
        },
{
    let cs = crate::text::chars_of(s);
    let n = cs.len();
    let start: usize = if n > 0 && cs[0] == '+' {
        1
    } else {
        0
    };
    let ghost d = number_digits(s@);
    proof {
        assert(d =~= cs@.skip(start as int));
    }
    if start >= n {
        return Err(DecodeError::FlowTypeParse);
    }
    let mut value: u64 = 0;
    let mut i: usize = start;
    while i < n
        invariant
            cs@ == s@,
            n == cs@.len(),
            start <= i <= n,
            start < n,
            d == cs@.skip(start as int),
            d == number_digits(s@),
            all_digits(d.take(i - start)),
            value as int == digits_value(d.take(i - start)),
            value <= u32::MAX,
        decreases n - i,
    {
        let c = cs[i];
        if c < '0' || c > '9' {
            proof {
                assert(d[i - start] == c);
                assert(!all_digits(d));
            }
            return Err(DecodeError::FlowTypeParse);
        }
        let digit = (c as u32 - '0' as u32) as u64;
        proof {
            assert(d.take(i - start + 1).drop_last() =~= d.take(i - start));
            assert(d.take(i - start + 1).last() == c);
            assert(all_digits(d.take(i - start + 1))) by {
                assert forall|k: int| 0 <= k < d.take(i - start + 1).len() implies '0'
                    <= #[trigger] d.take(i - start + 1)[k] <= '9' by {
                    if k < i - start {
                        assert(d.take(i - start + 1)[k] == d.take(i - start)[k]);
                    }
                }
            }
        }
        proof {
            assert(digits_value(d.take(i - start + 1)) == value * 10 + digit);
        }
        let next = value * 10 + digit;
        if next > 0xFFFF_FFFFu64 {
            proof {
                if all_digits(d) {
                    lemma_digits_value_grows(d, i - start + 1);
                }
            }
            return Err(DecodeError::FlowTypeParse);
        }
        value = next;
        i = i + 1;
    }
    proof {
        assert(d.take(n - start) =~= d);
    }
    Ok(value as u32)
}

/// The one result that a search answered with `results` counts: the last.
pub fn last_result<T>(results: Option<Vec<T>>) -> (r: Option<T>)
    ensures
        r == match results {
            Some(v) => if v@.len() > 0 {
                Some(v@.last())
            } else {
                None
            },
            None => None,
        },
{
    match results {
        Some(mut v) => v.pop(),
        None => None,
    }
}

} // verus!
