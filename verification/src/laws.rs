//! What holds of the library across its functions.
use vstd::prelude::*;
use vstd::std_specs::cmp::PartialEqSpec;

use crate::loading::{
    completed_with, deletion_marks, flow_action_names, flow_only_action, flow_scan,
    missing_scripts, scan_flow_names, with_script, Actions, Flows,
};
use crate::name_map::NameMap;
use crate::plan::{
    delete_ids, lemma_known_same, lemma_no_writes, lemma_resolved_ids_same, next_upsert_index,
    plan_id, plan_keeps, resolved_ids, spec_plan_action, trigger_action_ids, trigger_is_current,
    ActionPlan, Plan,
};
use crate::remote::{
    spec_decode_action, spec_decode_actions, spec_decode_condition, spec_decode_event,
    spec_decode_flow, spec_decode_request_response, spec_decode_target, spec_decode_target_kind,
    spec_decode_trigger, spec_decode_triggers, spec_encode_condition, spec_encode_target_kind,
    DecodeError, Field, Malformed, RemoteAction, RemoteCondition, RemoteEvent, RemoteFlow,
    RemoteFunction, RemoteRequestResponse, RemoteRest, RemoteTarget, RemoteTargetKind,
    RemoteTriggerAction,
};
use crate::sync_v1::{trigger_change_is, SyncStage, SyncV1};
use crate::text::views;
use crate::v2::{
    execution_change_is, execution_is_current, same_condition, same_event, same_request_response,
    spec_plan_target, SyncV2, SyncV2Stage, Target, TargetPlan,
};
use crate::zitadel::{
    default_action_timeout, opt_view, Action, ActionSearch, EventCondition, Execution,
    ExecutionCondition, FoundTarget, GetTriggersResFlowAction, LoadedScript,
    ActionCreate, ActionUpdate, CreateTarget, OptionallyLoadedScript, RequestResponseCondition,
    TargetType, UpdateTarget,
};

verus! {

/// An action that Zitadel reports as the last sync created or updated it is
/// left unchanged by the next sync: syncing twice changes nothing the second
/// time. Zitadel may report no timeout as its default one.
pub proof fn lemma_resync_leaves_action_unchanged(
    name: String,
    action: Action<LoadedScript>,
    found: Option<ActionSearch>,
    reported: ActionSearch,
)
    requires
        ({
            let p = spec_plan_action(name, Some(action), found);
            ||| p matches ActionPlan::Create { create } && reported.name == create.name
                && reported.allowed_to_fail == create.allowed_to_fail && reported.script@
                == create.script@ && (opt_view(reported.timeout) == opt_view(create.timeout) || (
            create.timeout is None && opt_view(reported.timeout) == Some(default_action_timeout())))
            ||| p matches ActionPlan::Update { update, .. } && reported.name == update.name
                && reported.allowed_to_fail == update.allowed_to_fail && reported.script@
                == update.script@ && (opt_view(reported.timeout) == opt_view(update.timeout) || (
            update.timeout is None && opt_view(reported.timeout) == Some(default_action_timeout())))
        }),
    ensures
        spec_plan_action(name, Some(action), Some(reported)) == (ActionPlan::Unchanged {
            id: reported.id,
        }),
{
}

/// An action marked as deleted is never created nor updated: it is deleted
/// when Zitadel has it, and otherwise left alone; once deleted, it stays
/// alone.
pub proof fn lemma_deleted_action_never_written(name: String, found: Option<ActionSearch>)
    ensures
        spec_plan_action(name, None, found) is Delete || spec_plan_action(name, None, found) is Absent,
        found is None ==> spec_plan_action(name, None, found) == ActionPlan::Absent,
{
}

/// A trigger set to the ids a sync computed is current on the next sync,
/// wherever Zitadel lists it among the triggers of the flow (its first report
/// of that trigger type counts) and whatever the order in which it then lists
/// its actions.
pub proof fn lemma_set_trigger_is_current(
    existing: Seq<GetTriggersResFlowAction>,
    trigger_type: Seq<char>,
    names: Seq<Seq<char>>,
    known: NameMap<String>,
    set_ids: Seq<Seq<char>>,
    i: int,
)
    requires
        set_ids.to_multiset() == resolved_ids(names, known).to_multiset(),
        0 <= i < existing.len(),
        existing[i].trigger_type.id@ == trigger_type,
        forall|j: int| 0 <= j < i ==> #[trigger] existing[j].trigger_type.id@ != trigger_type,
        trigger_action_ids(existing[i]).to_multiset() == set_ids.to_multiset(),
    ensures
        trigger_is_current(existing, trigger_type, resolved_ids(names, known)),
{
    assert(existing[i].trigger_type.id@ == trigger_type);
}

/// A target that Zitadel reports as the last sync created or updated it is
/// left unchanged by the next sync.
pub proof fn lemma_resync_leaves_target_unchanged(
    name: String,
    target: Target,
    found: Option<FoundTarget>,
    reported: FoundTarget,
)
    requires
        ({
            let p = spec_plan_target(name, Some(target), found);
            ||| p matches TargetPlan::Create { create } && reported.target_type == create.target_type
                && reported.timeout@ == create.timeout@ && reported.endpoint@ == create.endpoint@
            ||| p matches TargetPlan::Update { update, .. } && update.target_type == Some(
                reported.target_type,
            ) && opt_view(update.timeout) == Some(reported.timeout@) && opt_view(update.endpoint)
                == Some(reported.endpoint@)
        }),
    ensures
        spec_plan_target(name, Some(target), Some(reported)) == (TargetPlan::Unchanged {
            id: reported.id,
        }),
{
}

/// A target marked as deleted is never created nor updated: it is deleted
/// when Zitadel has it, and otherwise left alone.
pub proof fn lemma_deleted_target_never_written(name: String, found: Option<FoundTarget>)
    ensures
        spec_plan_target(name, None, found) is Delete || spec_plan_target(name, None, found) is Absent,
        found is None ==> spec_plan_target(name, None, found) == TargetPlan::Absent,
{
}

/// An execution set to the ids a sync computed is current on the next sync,
/// wherever Zitadel lists it among its executions (its first report of that
/// condition counts) and whatever the order in which it then lists its
/// targets.
pub proof fn lemma_set_execution_is_current(
    existing: Seq<Execution>,
    execution: Execution,
    known: NameMap<String>,
    set: Execution,
    i: int,
)
    requires
        set.condition == execution.condition,
        views(set.targets@).to_multiset() == resolved_ids(
            views(execution.targets@),
            known,
        ).to_multiset(),
        0 <= i < existing.len(),
        same_condition(existing[i].condition, set.condition),
        forall|j: int| 0 <= j < i ==> !#[trigger] same_condition(existing[j].condition, set.condition),
        views(existing[i].targets@).to_multiset() == views(set.targets@).to_multiset(),
    ensures
        execution_is_current(
            existing,
            execution.condition,
            resolved_ids(views(execution.targets@), known),
        ),
{
    assert(same_condition(existing[i].condition, execution.condition));
}

/// Every condition is the same as itself.
pub proof fn lemma_same_condition_reflexive(c: ExecutionCondition)
    ensures
        same_condition(c, c),
{
    match c {
        ExecutionCondition::request(r) => {
            assert(same_request_response(r, r));
        },
        ExecutionCondition::response(r) => {
            assert(same_request_response(r, r));
        },
        ExecutionCondition::function { .. } => {},
        ExecutionCondition::event(e) => {
            assert(same_event(e, e));
        },
    }
}

/// An execution condition written as the API carries it reads back as
/// itself.
pub proof fn lemma_condition_round_trip(c: ExecutionCondition)
    ensures
        spec_decode_condition(Some(spec_encode_condition(c))) == Ok::<
            ExecutionCondition,
            crate::remote::DecodeError,
        >(c),
{
    match c {
        ExecutionCondition::request(r) => match r {
            RequestResponseCondition::all(t) => {},
            _ => {},
        },
        ExecutionCondition::response(r) => match r {
            RequestResponseCondition::all(t) => {},
            _ => {},
        },
        ExecutionCondition::function { .. } => {},
        ExecutionCondition::event(e) => match e {
            EventCondition::all(t) => {},
            _ => {},
        },
    }
}

/// How a target is called, written as the API carries it, reads back as
/// itself.
pub proof fn lemma_target_kind_round_trip(t: crate::zitadel::TargetType)
    ensures
        spec_decode_target_kind(spec_encode_target_kind(t)) == Ok::<
            crate::zitadel::TargetType,
            crate::remote::DecodeError,
        >(t),
{
}

/// Walking the names flows use without meeting a deleted one covers every
/// name: each is either defined (and not deleted) or read from a file.
proof fn lemma_scan_covers(names: Seq<Seq<char>>, marks: Map<Seq<char>, bool>)
    requires
        scan_flow_names(names, marks).1 is None,
    ensures
        forall|k: int|
            0 <= k < names.len() ==> (marks.contains_key(#[trigger] names[k]) && !marks[names[k]])
                || scan_flow_names(names, marks).0.contains(names[k]),
    decreases names.len(),
{
    if names.len() > 0 {
        let n = names[0];
        let rest = names.drop_first();
        if marks.contains_key(n) {
            lemma_scan_covers(rest, marks);
            assert forall|k: int| 0 <= k < names.len() implies (marks.contains_key(
                #[trigger] names[k],
            ) && !marks[names[k]]) || scan_flow_names(names, marks).0.contains(names[k]) by {
                if k > 0 {
                    assert(names[k] == rest[k - 1]);
                }
            }
        } else {
            let m2 = marks.insert(n, false);
            lemma_scan_covers(rest, m2);
            let r = scan_flow_names(rest, m2);
            assert(scan_flow_names(names, marks).0 == seq![n] + r.0);
            assert forall|k: int| 0 <= k < names.len() implies (marks.contains_key(
                #[trigger] names[k],
            ) && !marks[names[k]]) || scan_flow_names(names, marks).0.contains(names[k]) by {
                let all = seq![n] + r.0;
                if k == 0 {
                    assert(all[0] == n);
                } else {
                    assert(names[k] == rest[k - 1]);
                    if names[k] == n {
                        assert(all[0] == n);
                    } else if r.0.contains(names[k]) {
                        let j = choose|j: int| 0 <= j < r.0.len() && r.0[j] == names[k];
                        assert(all[j + 1] == names[k]);
                    }
                }
            }
        }
    }
}

/// After a successful load, every action a flow uses is defined, not as
/// deleted, and has a script: either its own definition or one read from
/// `{name}.js`.
pub proof fn lemma_loaded_flows_use_defined_actions(
    m: Actions<LoadedScript>,
    actions: Actions<OptionallyLoadedScript>,
    flows: Flows,
    scripts: Seq<String>,
)
    requires
        actions.wf(),
        flow_scan(actions, flows).1 is None,
        completed_with(m, actions, flows, scripts),
    ensures
        forall|name: Seq<char>|
            #[trigger] flow_action_names(flows).contains(name) ==> m.to_map().contains_key(name)
                && m.to_map()[name] is Some,
{
    let names = flow_action_names(flows);
    let marks = deletion_marks(actions);
    lemma_scan_covers(names, marks);
    let reads = flow_scan(actions, flows).0;
    assert forall|name: Seq<char>| #[trigger]
        names.contains(name) implies m.to_map().contains_key(name) && m.to_map()[name] is Some by {
        let k = choose|k: int| 0 <= k < names.len() && names[k] == name;
        assert(names[k] == name);
        if marks.contains_key(name) && !marks[name] {
            assert(actions.contains_key(name));
            let i = choose|i: int| 0 <= i < actions.keys().len() && actions.keys()[i] == name;
            actions.lemma_value_at(i);
            assert(m.to_map()[actions.keys()[i]] == with_script(
                actions.values()[i],
                scripts[crate::loading::missing_before(actions.values(), i)],
            ));
        } else {
            assert(reads.contains(name));
            let j = choose|j: int| 0 <= j < reads.len() && reads[j] == name;
            assert(m.to_map()[reads[j]] == flow_only_action(
                scripts[missing_scripts(actions.keys(), actions.values()).len() + j],
            ));
        }
    }
}

/// Once a sync is past creating and updating actions, Zitadel has an id for
/// every defined action, and the sync knows it; it knows none for the
/// actions marked as deleted. The triggers it sets therefore run defined
/// actions only.
pub proof fn lemma_sync_knows_defined_actions(s: SyncV1)
    requires
        s.inv(),
        s.stage() == SyncStage::Flows || s.stage() == SyncStage::Deleting || s.stage()
            == SyncStage::Finished,
    ensures
        forall|i: int|
            0 <= i < s.defined_actions().keys().len() ==> (s.known().contains_key(
                #[trigger] s.defined_actions().keys()[i],
            ) <==> s.defined_actions().values()[i] is Some),
{
    let keys = s.defined_actions().keys();
    let values = s.defined_actions().values();
    let plans = s.plans();
    assert forall|i: int| 0 <= i < keys.len() implies (s.known().contains_key(
        #[trigger] keys[i],
    ) <==> values[i] is Some) by {
        assert(plans[i] == spec_plan_action(
            s.defined_actions().key_strings()[i],
            values[i],
            s.reported()[i],
        ));
        if s.known().contains_key(keys[i]) {
            let j = choose|j: int|
                0 <= j < keys.len() && #[trigger] keys[j] == keys[i] && (
                crate::plan::plan_keeps(plans[j]) || (plans[j] is Create && j < keys.len()));
            if j != i {
                if j < i {
                    assert(crate::text::name_lt(keys[j], keys[i]));
                } else {
                    assert(crate::text::name_lt(keys[i], keys[j]));
                }
                crate::text::lemma_name_lt_irreflexive(keys[i]);
            }
            assert(plans[j] == spec_plan_action(
                s.defined_actions().key_strings()[j],
                values[j],
                s.reported()[j],
            ));
        }
        if values[i] is Some {
            assert(keys[i] == keys[i]);
        }
    }
}

/// Zitadel holds an action with the timeout `timeout`, the flag
/// `allowed_to_fail` and the script `script`; where no timeout was given, it
/// may hold its default one.
pub open spec fn stores_action(
    r: ActionSearch,
    timeout: Option<String>,
    allowed_to_fail: bool,
    script: String,
) -> bool {
    &&& r.allowed_to_fail == allowed_to_fail
    &&& r.script@ == script@
    &&& (opt_view(r.timeout) == opt_view(timeout) || (timeout is None && opt_view(r.timeout) == Some(
        default_action_timeout(),
    )))
}

/// What Zitadel reports of an action, `after`, once a sync did `p` with it
/// when Zitadel had reported `before`: the same if nothing was done, what was
/// written under its id (`created_id` for a created one) if it was created or
/// updated, and nothing if it was deleted or was not there.
pub open spec fn action_left_as(
    p: ActionPlan,
    before: Option<ActionSearch>,
    created_id: String,
    after: Option<ActionSearch>,
) -> bool {
    match p {
        Plan::Unchanged { .. } => after == before,
        Plan::Update { id, update } => after matches Some(r) && r.id == id && stores_action(
            r,
            update.timeout,
            update.allowed_to_fail,
            update.script,
        ),
        Plan::Create { create } => after matches Some(r) && r.id == created_id && stores_action(
            r,
            create.timeout,
            create.allowed_to_fail,
            create.script,
        ),
        Plan::Delete { .. } => after is None,
        Plan::Absent => after is None,
    }
}

/// Zitadel reports, for each action that the sync `s` defines, what `s` left
/// there.
pub open spec fn reports_what_sync_left(s: SyncV1, reported: Seq<Option<ActionSearch>>) -> bool {
    let keys = s.defined_actions().keys();
    &&& reported.len() == keys.len()
    &&& forall|i: int|
        0 <= i < keys.len() ==> action_left_as(
            #[trigger] s.plans()[i],
            s.reported()[i],
            s.known().value_of(keys[i]),
            reported[i],
        )
}

/// A second sync of the same actions, run when Zitadel reports what the
/// first one left, writes nothing: it neither creates, updates nor deletes an
/// action, it knows every action under the id the first one knew, and it sets
/// no trigger that the first one left current.
pub proof fn lemma_second_sync_writes_nothing(s1: SyncV1, s2: SyncV1)
    requires
        s1.inv(),
        s2.inv(),
        s1.stage() == SyncStage::Flows || s1.stage() == SyncStage::Deleting || s1.stage()
            == SyncStage::Finished,
        s2.stage() != SyncStage::Searching,
        s2.defined_actions() == s1.defined_actions(),
        reports_what_sync_left(s1, s2.reported()),
    ensures
        forall|i: int|
            0 <= i < s2.plans().len() ==> #[trigger] s2.plans()[i] is Unchanged || s2.plans()[i] is Absent,
        next_upsert_index(s2.plans(), 0) == s2.plans().len(),
        delete_ids(s2.plans()) == Seq::<Seq<char>>::empty(),
        s2.known().to_map() == s1.known().to_map(),
        forall|
            existing: Seq<GetTriggersResFlowAction>,
            flow_type: Seq<char>,
            trigger_type: Seq<char>,
            names: Seq<Seq<char>>,
        |
            trigger_is_current(existing, trigger_type, resolved_ids(names, s1.known()))
                ==> #[trigger] trigger_change_is(
                None,
                flow_type,
                trigger_type,
                names,
                s2.known(),
                existing,
            ),
{
    let actions = s1.defined_actions();
    let keys = actions.keys();
    let n = keys.len();
    let p1 = s1.plans();
    let p2 = s2.plans();
    let k1 = s1.known();
    assert forall|i: int| 0 <= i < n implies {
        &&& #[trigger] p2[i] is Unchanged || p2[i] is Absent
        &&& plan_keeps(p2[i]) <==> (plan_keeps(p1[i]) || p1[i] is Create)
        &&& plan_keeps(p2[i]) ==> plan_id(p2[i]) == k1.value_of(keys[i])
    } by {
        assert(action_left_as(p1[i], s1.reported()[i], k1.value_of(keys[i]), s2.reported()[i]));
        assert(p1[i] == spec_plan_action(
            actions.key_strings()[i],
            actions.values()[i],
            s1.reported()[i],
        ));
        assert(p2[i] == spec_plan_action(
            actions.key_strings()[i],
            actions.values()[i],
            s2.reported()[i],
        ));
        if plan_keeps(p1[i]) {
            assert(k1.value_of(keys[i]) == plan_id(p1[i]));
        }
    }
    let c2 = if s2.stage() == SyncStage::Upserting || s2.stage() == SyncStage::AwaitingCreated {
        s2.cursor()
    } else {
        n as int
    };
    lemma_known_same(k1, s2.known(), keys, p1, p2, c2);
    lemma_no_writes(p2, 0);
    assert forall|
        existing: Seq<GetTriggersResFlowAction>,
        flow_type: Seq<char>,
        trigger_type: Seq<char>,
        names: Seq<Seq<char>>,
    |
        trigger_is_current(existing, trigger_type, resolved_ids(names, s1.known())) implies #[trigger] trigger_change_is(
            None,
            flow_type,
            trigger_type,
            names,
            s2.known(),
            existing,
        ) by {
        lemma_resolved_ids_same(names, s1.known(), s2.known());
    }
}

/// What Zitadel reports of a target, `after`, once a sync did `p` with it
/// when Zitadel had reported `before`: the same if nothing was done, what was
/// written under its id (`created_id` for a created one) if it was created or
/// updated, and nothing if it was deleted or was not there.
pub open spec fn target_left_as(
    p: TargetPlan,
    before: Option<FoundTarget>,
    created_id: String,
    after: Option<FoundTarget>,
) -> bool {
    match p {
        Plan::Unchanged { .. } => after == before,
        Plan::Update { id, update } => after matches Some(f) && f.id == id && update.target_type
            == Some(f.target_type) && opt_view(update.timeout) == Some(f.timeout@) && opt_view(
            update.endpoint,
        ) == Some(f.endpoint@),
        Plan::Create { create } => after matches Some(f) && f.id == created_id && f.target_type
            == create.target_type && f.timeout@ == create.timeout@ && f.endpoint@
            == create.endpoint@,
        Plan::Delete { .. } => after is None,
        Plan::Absent => after is None,
    }
}

/// Zitadel reports, for each target that the sync `s` defines, what `s` left
/// there.
pub open spec fn reports_what_v2_sync_left(s: SyncV2, reported: Seq<Option<FoundTarget>>) -> bool {
    let keys = s.defined_targets().keys();
    &&& reported.len() == keys.len()
    &&& forall|i: int|
        0 <= i < keys.len() ==> target_left_as(
            #[trigger] s.plans()[i],
            s.reported()[i],
            s.known().value_of(keys[i]),
            reported[i],
        )
}

/// A second v2 sync of the same targets, run when Zitadel reports what the
/// first one left, writes nothing: it neither creates, updates nor deletes a
/// target, it knows every target under the id the first one knew, and it sets
/// no execution that the first one left current.
pub proof fn lemma_second_v2_sync_writes_nothing(s1: SyncV2, s2: SyncV2)
    requires
        s1.inv(),
        s2.inv(),
        s1.stage() == SyncV2Stage::Executions || s1.stage() == SyncV2Stage::Deleting || s1.stage()
            == SyncV2Stage::Finished,
        s2.stage() != SyncV2Stage::Searching,
        s2.defined_targets() == s1.defined_targets(),
        reports_what_v2_sync_left(s1, s2.reported()),
    ensures
        forall|i: int|
            0 <= i < s2.plans().len() ==> #[trigger] s2.plans()[i] is Unchanged || s2.plans()[i] is Absent,
        next_upsert_index(s2.plans(), 0) == s2.plans().len(),
        delete_ids(s2.plans()) == Seq::<Seq<char>>::empty(),
        s2.known().to_map() == s1.known().to_map(),
        forall|existing: Seq<Execution>, execution: Execution|
            execution_is_current(
                existing,
                execution.condition,
                resolved_ids(views(execution.targets@), s1.known()),
            ) ==> #[trigger] execution_change_is(None, execution, s2.known(), existing),
{
    let targets = s1.defined_targets();
    let keys = targets.keys();
    let n = keys.len();
    let p1 = s1.plans();
    let p2 = s2.plans();
    let k1 = s1.known();
    assert forall|i: int| 0 <= i < n implies {
        &&& #[trigger] p2[i] is Unchanged || p2[i] is Absent
        &&& plan_keeps(p2[i]) <==> (plan_keeps(p1[i]) || p1[i] is Create)
        &&& plan_keeps(p2[i]) ==> plan_id(p2[i]) == k1.value_of(keys[i])
    } by {
        assert(target_left_as(p1[i], s1.reported()[i], k1.value_of(keys[i]), s2.reported()[i]));
        assert(p1[i] == spec_plan_target(
            targets.key_strings()[i],
            targets.values()[i],
            s1.reported()[i],
        ));
        assert(p2[i] == spec_plan_target(
            targets.key_strings()[i],
            targets.values()[i],
            s2.reported()[i],
        ));
        if plan_keeps(p1[i]) {
            assert(k1.value_of(keys[i]) == plan_id(p1[i]));
        }
    }
    let c2 = if s2.stage() == SyncV2Stage::Upserting || s2.stage() == SyncV2Stage::AwaitingCreated {
        s2.cursor()
    } else {
        n as int
    };
    lemma_known_same(k1, s2.known(), keys, p1, p2, c2);
    lemma_no_writes(p2, 0);
    assert forall|existing: Seq<Execution>, execution: Execution|
        execution_is_current(
            existing,
            execution.condition,
            resolved_ids(views(execution.targets@), s1.known()),
        ) implies #[trigger] execution_change_is(None, execution, s2.known(), existing) by {
        lemma_resolved_ids_same(views(execution.targets@), s1.known(), s2.known());
    }
}

/// Whether a plan deletes.
pub open spec fn deletes<U, C>() -> spec_fn(Plan<U, C>) -> bool {
    |p: Plan<U, C>| p is Delete
}

/// The id a plan is about, as text.
pub open spec fn id_text<U, C>() -> spec_fn(Plan<U, C>) -> Seq<char> {
    |p: Plan<U, C>| plan_id(p)@
}

/// The ids to delete are the ids of the plans that delete, one for each such
/// plan and in their order: none is left out and none is added.
pub proof fn lemma_delete_ids_are_the_deleted<U, C>(plans: Seq<Plan<U, C>>)
    ensures
        delete_ids(plans) == plans.filter(deletes::<U, C>()).map_values(id_text::<U, C>()),
        delete_ids(plans).len() == plans.filter(deletes::<U, C>()).len(),
        forall|i: int|
            0 <= i < plans.len() && #[trigger] plans[i] is Delete ==> delete_ids(plans).contains(
                plan_id(plans[i])@,
            ),
        forall|x: Seq<char>|
            #[trigger] delete_ids(plans).contains(x) ==> exists|i: int|
                0 <= i < plans.len() && #[trigger] plans[i] is Delete && plan_id(plans[i])@ == x,
    decreases plans.len(),
{
    reveal(Seq::filter);
    if plans.len() > 0 {
        let rest = plans.drop_last();
        let last = plans.last();
        lemma_delete_ids_are_the_deleted(rest);
        let fr = rest.filter(deletes::<U, C>());
        let dr = delete_ids(rest);
        if last is Delete {
            assert(plans.filter(deletes::<U, C>()) == fr.push(last));
            assert(fr.push(last).map_values(id_text::<U, C>()) =~= fr.map_values(
                id_text::<U, C>(),
            ).push(plan_id(last)@));
            assert(delete_ids(plans) == dr.push(plan_id(last)@));
        } else {
            assert(plans.filter(deletes::<U, C>()) == fr);
            assert(delete_ids(plans) == dr);
        }
        assert forall|i: int|
            0 <= i < plans.len() && #[trigger] plans[i] is Delete implies delete_ids(
                plans,
            ).contains(plan_id(plans[i])@) by {
            if i < plans.len() - 1 {
                assert(rest[i] == plans[i]);
                assert(dr.contains(plan_id(rest[i])@));
                let j = choose|j: int| 0 <= j < dr.len() && dr[j] == plan_id(rest[i])@;
                assert(delete_ids(plans)[j] == dr[j]);
            } else {
                assert(plans[i] == last);
                assert(delete_ids(plans)[dr.len() as int] == plan_id(last)@);
            }
        }
        assert forall|x: Seq<char>| #[trigger] delete_ids(plans).contains(x) implies exists|i: int|
            0 <= i < plans.len() && #[trigger] plans[i] is Delete && plan_id(plans[i])@ == x by {
            let j = choose|j: int| 0 <= j < delete_ids(plans).len() && delete_ids(plans)[j] == x;
            if j < dr.len() {
                assert(dr[j] == x);
                assert(dr.contains(x));
                let i = choose|i: int| 0 <= i < rest.len() && #[trigger] rest[i] is Delete && plan_id(rest[i])@ == x;
                assert(plans[i] == rest[i]);
            } else {
                assert(plans[plans.len() - 1] == last);
            }
        }
    }
}

/// A v1 sync deletes exactly the actions marked as deleted that Zitadel
/// reported, under the ids Zitadel reported for them.
pub proof fn lemma_sync_deletes_the_reported_nulls(s: SyncV1)
    requires
        s.inv(),
        s.stage() != SyncStage::Searching,
    ensures
        forall|i: int|
            0 <= i < s.plans().len() ==> ((#[trigger] s.plans()[i] is Delete) <==> (
            s.defined_actions().values()[i] is None && s.reported()[i] is Some)),
        forall|i: int|
            0 <= i < s.plans().len() && #[trigger] s.plans()[i] is Delete ==> plan_id(s.plans()[i])
                == s.reported()[i]->0.id,
        delete_ids(s.plans()) == s.plans().filter(deletes::<ActionUpdate, ActionCreate>()).map_values(
            id_text::<ActionUpdate, ActionCreate>(),
        ),
{
    lemma_delete_ids_are_the_deleted(s.plans());
    let a = s.defined_actions();
    assert forall|i: int| 0 <= i < s.plans().len() implies {
        &&& (#[trigger] s.plans()[i] is Delete) <==> (a.values()[i] is None && s.reported()[i] is Some)
        &&& s.plans()[i] is Delete ==> plan_id(s.plans()[i]) == s.reported()[i]->0.id
    } by {
        assert(s.plans()[i] == spec_plan_action(a.key_strings()[i], a.values()[i], s.reported()[i]));
    }
}

/// A v2 sync deletes exactly the targets marked as deleted that Zitadel
/// reported, under the ids Zitadel reported for them.
pub proof fn lemma_v2_sync_deletes_the_reported_nulls(s: SyncV2)
    requires
        s.inv(),
        s.stage() != SyncV2Stage::Searching,
    ensures
        forall|i: int|
            0 <= i < s.plans().len() ==> ((#[trigger] s.plans()[i] is Delete) <==> (
            s.defined_targets().values()[i] is None && s.reported()[i] is Some)),
        forall|i: int|
            0 <= i < s.plans().len() && #[trigger] s.plans()[i] is Delete ==> plan_id(s.plans()[i])
                == s.reported()[i]->0.id,
        delete_ids(s.plans()) == s.plans().filter(deletes::<UpdateTarget, CreateTarget>()).map_values(
            id_text::<UpdateTarget, CreateTarget>(),
        ),
{
    lemma_delete_ids_are_the_deleted(s.plans());
    let t = s.defined_targets();
    assert forall|i: int| 0 <= i < s.plans().len() implies {
        &&& (#[trigger] s.plans()[i] is Delete) <==> (t.values()[i] is None && s.reported()[i] is Some)
        &&& s.plans()[i] is Delete ==> plan_id(s.plans()[i]) == s.reported()[i]->0.id
    } by {
        assert(s.plans()[i] == spec_plan_target(t.key_strings()[i], t.values()[i], s.reported()[i]));
    }
}

/// What a sync does with a target, field by field: a target Zitadel has with
/// the same type, timeout and endpoint is left alone; one it has otherwise is
/// updated to the definition under Zitadel's id; one it lacks is created from
/// the definition under its name; one marked as deleted is deleted if Zitadel
/// has it.
pub proof fn lemma_target_plan_by_fields(
    name: String,
    target: Option<Target>,
    found: Option<FoundTarget>,
)
    ensures
        ({
            let p = spec_plan_target(name, target, found);
            match (target, found) {
                (None, None) => p == TargetPlan::Absent,
                (None, Some(f)) => p == TargetPlan::Delete { id: f.id },
                (Some(t), None) => p == TargetPlan::Create {
                    create: CreateTarget {
                        name: name,
                        target_type: t.target_type,
                        timeout: t.timeout,
                        endpoint: t.endpoint,
                    },
                },
                (Some(t), Some(f)) => {
                    &&& (p is Unchanged) <==> (t.target_type == f.target_type && t.timeout@
                        == f.timeout@ && t.endpoint@ == f.endpoint@)
                    &&& (p is Unchanged) ==> p == TargetPlan::Unchanged { id: f.id }
                    &&& !(p is Unchanged) ==> p == TargetPlan::Update {
                        id: f.id,
                        update: UpdateTarget {
                            target_type: Some(t.target_type),
                            timeout: Some(t.timeout),
                            endpoint: Some(t.endpoint),
                            expiration_signing_key: None,
                        },
                    }
                    &&& t.eq_spec(&f) <==> (t.target_type == f.target_type && t.timeout@
                        == f.timeout@ && t.endpoint@ == f.endpoint@)
                },
            }
        }),
{
}

/// What a sync does with an action, field by field: an action Zitadel has
/// with the same flag and script, and the defined timeout (or Zitadel's
/// default one, `20s`, where none is defined), is left alone; one it has
/// otherwise is updated to the definition under Zitadel's id; one it lacks is
/// created from the definition under its name; one marked as deleted is
/// deleted if Zitadel has it.
pub proof fn lemma_action_plan_by_fields(
    name: String,
    action: Option<Action<LoadedScript>>,
    found: Option<ActionSearch>,
)
    ensures
        ({
            let p = spec_plan_action(name, action, found);
            match (action, found) {
                (None, None) => p == ActionPlan::Absent,
                (None, Some(f)) => p == ActionPlan::Delete { id: f.id },
                (Some(a), None) => p == ActionPlan::Create {
                    create: ActionCreate {
                        name: name,
                        timeout: a.timeout,
                        allowed_to_fail: a.allowed_to_fail,
                        script: a.script,
                    },
                },
                (Some(a), Some(f)) => {
                    &&& (p is Unchanged) <==> (a.allowed_to_fail == f.allowed_to_fail && a.script@
                        == f.script@ && (opt_view(a.timeout) == opt_view(f.timeout) || (a.timeout is None
                        && opt_view(f.timeout) == Some(seq!['2', '0', 's']))))
                    &&& (p is Unchanged) ==> p == ActionPlan::Unchanged { id: f.id }
                    &&& !(p is Unchanged) ==> p == ActionPlan::Update {
                        id: f.id,
                        update: ActionUpdate {
                            name: name,
                            timeout: a.timeout,
                            allowed_to_fail: a.allowed_to_fail,
                            script: a.script,
                        },
                    }
                },
            }
        }),
{
}

/// Completing the definitions keeps each of them: a definition marked as
/// deleted stays marked, and a defined action keeps its timeout, its flag and
/// its own script where it has one, wherever the script comes from. An action
/// that only the flows name gets no timeout and may not fail.
pub proof fn lemma_completion_keeps_definitions(
    m: Actions<LoadedScript>,
    actions: Actions<OptionallyLoadedScript>,
    flows: Flows,
    scripts: Seq<String>,
)
    requires
        actions.wf(),
        completed_with(m, actions, flows, scripts),
    ensures
        forall|i: int|
            0 <= i < actions.keys().len() ==> m.to_map().contains_key(#[trigger] actions.keys()[i]),
        forall|i: int|
            0 <= i < actions.keys().len() ==> match #[trigger] actions.values()[i] {
                None => m.to_map()[actions.keys()[i]] is None,
                Some(a) => {
                    let b = m.to_map()[actions.keys()[i]];
                    &&& b is Some
                    &&& b->0.timeout == a.timeout
                    &&& b->0.allowed_to_fail == a.allowed_to_fail
                    &&& a.script is Some ==> b->0.script == a.script->0
                },
            },
        forall|j: int|
            0 <= j < flow_scan(actions, flows).0.len() ==> {
                let b = m.to_map()[#[trigger] flow_scan(actions, flows).0[j]];
                &&& b is Some
                &&& b->0.timeout is None
                &&& !b->0.allowed_to_fail
            },
{
    let keys = actions.keys();
    assert forall|i: int| 0 <= i < keys.len() implies m.to_map().contains_key(
        #[trigger] keys[i],
    ) by {
        assert(actions.contains_key(keys[i])) by {
            assert(keys[i] == keys[i]);
        }
    }
    assert forall|i: int| 0 <= i < keys.len() implies match #[trigger] actions.values()[i] {
        None => m.to_map()[keys[i]] is None,
        Some(a) => {
            let b = m.to_map()[keys[i]];
            &&& b is Some
            &&& b->0.timeout == a.timeout
            &&& b->0.allowed_to_fail == a.allowed_to_fail
            &&& a.script is Some ==> b->0.script == a.script->0
        },
    } by {
        assert(m.to_map()[keys[i]] == with_script(
            actions.values()[i],
            scripts[crate::loading::missing_before(actions.values(), i)],
        ));
    }
}

/// A decoded action is the reported one: it is read exactly when the id,
/// name and script are reported, and then carries them, the reported timeout,
/// and the reported flag (a missing flag reads as `false`).
pub proof fn lemma_decoded_action_is_as_reported(a: RemoteAction)
    ensures
        spec_decode_action(a) is Ok <==> (a.id is Some && a.name is Some && a.script is Some),
        match spec_decode_action(a) {
            Ok(s) => {
                &&& s.id == a.id->0
                &&& s.name == a.name->0
                &&& s.timeout == a.timeout
                &&& s.script == a.script->0
                &&& s.allowed_to_fail == (a.allowed_to_fail == Some(true))
            },
            Err(_) => true,
        },
{
}

/// How a target is called is read from the first settings reported, in the
/// order webhook, call, asynchronous; a webhook or a call interrupts on error
/// exactly when reported so; with no settings the target is malformed.
pub proof fn lemma_decoded_target_kind_is_as_reported(k: RemoteTargetKind)
    ensures
        spec_decode_target_kind(k) is Ok <==> (k.rest_webhook is Some || k.rest_call is Some
            || k.rest_async),
        match spec_decode_target_kind(k) {
            Ok(TargetType::restWebhook { interrupt_on_error }) => k.rest_webhook is Some
                && interrupt_on_error == (k.rest_webhook->0.interrupt_on_error == Some(true)),
            Ok(TargetType::restCall { interrupt_on_error }) => k.rest_webhook is None
                && k.rest_call is Some && interrupt_on_error == (k.rest_call->0.interrupt_on_error
                == Some(true)),
            Ok(TargetType::restAsync {  }) => k.rest_webhook is None && k.rest_call is None
                && k.rest_async,
            Err(_) => true,
        },
{
}

/// A decoded target is the reported one: it is read exactly when how it is
/// called, its id, name, timeout, endpoint and signing key are reported, and
/// then carries them as reported.
pub proof fn lemma_decoded_target_is_as_reported(t: RemoteTarget)
    ensures
        spec_decode_target(t) is Ok <==> ((t.rest_webhook is Some || t.rest_call is Some
            || t.rest_async) && t.id is Some && t.name is Some && t.timeout is Some
            && t.endpoint is Some && t.signing_key is Some),
        match spec_decode_target(t) {
            Ok(f) => {
                &&& f.id == t.id->0
                &&& f.name == t.name->0
                &&& f.timeout == t.timeout->0
                &&& f.endpoint == t.endpoint->0
                &&& f.signing_key == t.signing_key->0
                &&& spec_decode_target_kind(
                    RemoteTargetKind {
                        rest_webhook: t.rest_webhook,
                        rest_call: t.rest_call,
                        rest_async: t.rest_async,
                    },
                ) == Ok::<TargetType, DecodeError>(f.target_type)
            },
            Err(_) => true,
        },
{
    lemma_decoded_target_kind_is_as_reported(
        RemoteTargetKind {
            rest_webhook: t.rest_webhook,
            rest_call: t.rest_call,
            rest_async: t.rest_async,
        },
    );
}

/// A target's kind is written as exactly one kind of settings: webhook
/// settings for a webhook, call settings for a call, the asynchronous marker
/// for an asynchronous target, and the webhook's or call's flag as it is.
pub proof fn lemma_encoded_target_kind_is_one(t: TargetType)
    ensures
        ({
            let k = spec_encode_target_kind(t);
            &&& (k.rest_webhook is Some) == (t is restWebhook)
            &&& (k.rest_call is Some) == (t is restCall)
            &&& k.rest_async == (t is restAsync)
            &&& match t {
                TargetType::restWebhook { interrupt_on_error } => k.rest_webhook == Some(
                    RemoteRest { interrupt_on_error: Some(interrupt_on_error) },
                ),
                TargetType::restCall { interrupt_on_error } => k.rest_call == Some(
                    RemoteRest { interrupt_on_error: Some(interrupt_on_error) },
                ),
                TargetType::restAsync {  } => true,
            }
        }),
{
}

/// A condition is written as exactly one kind of condition, and within it as
/// exactly one of its settings, holding the method, service, function name,
/// event or group as it is, or `true` for `all`.
pub proof fn lemma_encoded_condition_is_one(c: ExecutionCondition)
    ensures
        ({
            let e = spec_encode_condition(c);
            &&& (e.request is Some) == (c is request)
            &&& (e.response is Some) == (c is response)
            &&& (e.function is Some) == (c is function)
            &&& (e.event is Some) == (c is event)
            &&& match c {
                ExecutionCondition::request(r) | ExecutionCondition::response(r) => {
                    let x = if c is request {
                        e.request->0
                    } else {
                        e.response->0
                    };
                    match r {
                        RequestResponseCondition::method(m) => x.method == Some(m) && x.service is None
                            && x.all is None,
                        RequestResponseCondition::service(v) => x.method is None && x.service == Some(v)
                            && x.all is None,
                        RequestResponseCondition::all(_) => x.method is None && x.service is None
                            && x.all == Some(true),
                    }
                },
                ExecutionCondition::function { name } => e.function->0.name == Some(name),
                ExecutionCondition::event(v) => {
                    let x = e.event->0;
                    match v {
                        EventCondition::event(n) => x.event == Some(n) && x.group is None && x.all is None,
                        EventCondition::group(g) => x.event is None && x.group == Some(g) && x.all is None,
                        EventCondition::all(_) => x.event is None && x.group is None && x.all == Some(
                            true,
                        ),
                    }
                },
            }
        }),
{
}

/// Whether `known` knows a name.
pub open spec fn known_name(known: NameMap<String>) -> spec_fn(Seq<char>) -> bool {
    |x: Seq<char>| known.contains_key(x)
}

/// The id, as text, that `known` knows a name by.
pub open spec fn known_id(known: NameMap<String>) -> spec_fn(Seq<char>) -> Seq<char> {
    |x: Seq<char>| known.value_of(x)@
}

/// The ids resolved from names are the ids of the known names, one for each
/// known name and in the order of the names; unknown names are left out.
pub proof fn lemma_resolved_ids_are_the_known(names: Seq<Seq<char>>, known: NameMap<String>)
    ensures
        resolved_ids(names, known) == names.filter(known_name(known)).map_values(known_id(known)),
    decreases names.len(),
{
    reveal(Seq::filter);
    if names.len() > 0 {
        let rest = names.drop_last();
        lemma_resolved_ids_are_the_known(rest, known);
        let fr = rest.filter(known_name(known));
        if known.contains_key(names.last()) {
            assert(names.filter(known_name(known)) == fr.push(names.last()));
            assert(fr.push(names.last()).map_values(known_id(known)) =~= fr.map_values(
                known_id(known),
            ).push(known.value_of(names.last())@));
        } else {
            assert(names.filter(known_name(known)) == fr);
        }
    }
}

/// The next create or update from position `i` is the first plan from there
/// that creates or updates, or the end when there is none.
pub proof fn lemma_next_upsert_is_the_first_write<U, C>(plans: Seq<Plan<U, C>>, i: int)
    requires
        0 <= i <= plans.len(),
    ensures
        i <= next_upsert_index(plans, i) <= plans.len(),
        forall|p: int|
            i <= p < next_upsert_index(plans, i) ==> !(#[trigger] plans[p] is Update) && !(
            plans[p] is Create),
        next_upsert_index(plans, i) < plans.len() ==> (plans[next_upsert_index(plans, i)] is Update
            || plans[next_upsert_index(plans, i)] is Create),
    decreases plans.len() - i,
{
    if i < plans.len() && !(plans[i] is Update || plans[i] is Create) {
        lemma_next_upsert_is_the_first_write(plans, i + 1);
    }
}

/// Whether the marks say the name is defined as deleted.
pub open spec fn marked_deleted(marks: Map<Seq<char>, bool>, x: Seq<char>) -> bool {
    marks.contains_key(x) && marks[x]
}

/// Walking names against marks stops at the first name marked as deleted,
/// and only there; the names it reads are names of the walk that no mark
/// covers, each once, and when it does not stop it reads every such name.
pub proof fn lemma_scan_reads_unknown_and_stops_at_deleted(
    names: Seq<Seq<char>>,
    marks: Map<Seq<char>, bool>,
)
    ensures
        match scan_flow_names(names, marks).1 {
            Some(x) => exists|i: int|
                0 <= i < names.len() && names[i] == x && marked_deleted(marks, x) && (forall|j: int|
                    0 <= j < i ==> !marked_deleted(marks, #[trigger] names[j])),
            None => forall|i: int| 0 <= i < names.len() ==> !marked_deleted(marks, #[trigger] names[i]),
        },
        forall|k: int|
            0 <= k < scan_flow_names(names, marks).0.len() ==> names.contains(
                #[trigger] scan_flow_names(names, marks).0[k],
            ) && !marks.contains_key(scan_flow_names(names, marks).0[k]),
        scan_flow_names(names, marks).0.no_duplicates(),
        scan_flow_names(names, marks).1 is None ==> forall|i: int|
            0 <= i < names.len() && !marks.contains_key(#[trigger] names[i])
                ==> scan_flow_names(names, marks).0.contains(names[i]),
    decreases names.len(),
{
    if names.len() > 0 {
        let n = names[0];
        let rest = names.drop_first();
        assert forall|i: int| 0 <= i < rest.len() implies rest[i] == names[i + 1] by {}
        if marks.contains_key(n) {
            if !marks[n] {
                lemma_scan_reads_unknown_and_stops_at_deleted(rest, marks);
                let r = scan_flow_names(rest, marks);
                assert(scan_flow_names(names, marks) == r);
                match r.1 {
                    Some(x) => {
                        let i = choose|i: int|
                            0 <= i < rest.len() && rest[i] == x && marked_deleted(marks, x) && (
                            forall|j: int| 0 <= j < i ==> !marked_deleted(marks, #[trigger] rest[j]));
                        assert(names[i + 1] == x);
                        assert forall|j: int| 0 <= j < i + 1 implies !marked_deleted(
                            marks,
                            #[trigger] names[j],
                        ) by {
                            if j > 0 {
                                assert(names[j] == rest[j - 1]);
                            }
                        }
                    },
                    None => {
                        assert forall|i: int| 0 <= i < names.len() implies !marked_deleted(
                            marks,
                            #[trigger] names[i],
                        ) by {
                            if i > 0 {
                                assert(names[i] == rest[i - 1]);
                            }
                        }
                        assert forall|i: int|
                            0 <= i < names.len() && !marks.contains_key(
                                #[trigger] names[i],
                            ) implies r.0.contains(names[i]) by {
                            assert(i > 0);
                            assert(names[i] == rest[i - 1]);
                        }
                    },
                }
                assert forall|k: int| 0 <= k < r.0.len() implies names.contains(#[trigger] r.0[k]) by {
                    assert(rest.contains(r.0[k]));
                    let i = choose|i: int| 0 <= i < rest.len() && rest[i] == r.0[k];
                    assert(names[i + 1] == r.0[k]);
                }
            } else {
                assert(names[0] == n);
                assert(scan_flow_names(names, marks).0 =~= Seq::<Seq<char>>::empty());
            }
        } else {
            let m2 = marks.insert(n, false);
            lemma_scan_reads_unknown_and_stops_at_deleted(rest, m2);
            let r = scan_flow_names(rest, m2);
            let out = seq![n] + r.0;
            assert(scan_flow_names(names, marks) == (out, r.1));
            assert forall|x: Seq<char>| marked_deleted(m2, x) == marked_deleted(marks, x) by {}
            match r.1 {
                Some(x) => {
                    let i = choose|i: int|
                        0 <= i < rest.len() && rest[i] == x && marked_deleted(m2, x) && (
                        forall|j: int| 0 <= j < i ==> !marked_deleted(m2, #[trigger] rest[j]));
                    assert(names[i + 1] == x);
                    assert forall|j: int| 0 <= j < i + 1 implies !marked_deleted(
                        marks,
                        #[trigger] names[j],
                    ) by {
                        if j > 0 {
                            assert(names[j] == rest[j - 1]);
                            assert(!marked_deleted(m2, rest[j - 1]));
                        }
                    }
                },
                None => {
                    assert forall|i: int| 0 <= i < names.len() implies !marked_deleted(
                        marks,
                        #[trigger] names[i],
                    ) by {
                        if i > 0 {
                            assert(names[i] == rest[i - 1]);
                            assert(!marked_deleted(m2, rest[i - 1]));
                        }
                    }
                    assert forall|i: int|
                        0 <= i < names.len() && !marks.contains_key(
                            #[trigger] names[i],
                        ) implies out.contains(names[i]) by {
                        if names[i] == n {
                            assert(out[0] == n);
                        } else {
                            assert(i > 0);
                            assert(names[i] == rest[i - 1]);
                            assert(!m2.contains_key(rest[i - 1]));
                            assert(r.0.contains(names[i]));
                            let k = choose|k: int| 0 <= k < r.0.len() && r.0[k] == names[i];
                            assert(out[k + 1] == names[i]);
                        }
                    }
                },
            }
            assert forall|k: int| 0 <= k < out.len() implies names.contains(#[trigger] out[k])
                && !marks.contains_key(out[k]) by {
                if k == 0 {
                    assert(names[0] == n);
                } else {
                    assert(out[k] == r.0[k - 1]);
                    assert(rest.contains(r.0[k - 1]));
                    let i = choose|i: int| 0 <= i < rest.len() && rest[i] == r.0[k - 1];
                    assert(names[i + 1] == out[k]);
                    assert(!m2.contains_key(r.0[k - 1]));
                }
            }
            assert forall|a: int, b: int| 0 <= a < out.len() && 0 <= b < out.len() && a != b implies out[a]
                != out[b] by {
                if a > 0 && b > 0 {
                    assert(out[a] == r.0[a - 1]);
                    assert(out[b] == r.0[b - 1]);
                } else if a == 0 {
                    assert(out[b] == r.0[b - 1]);
                    assert(!m2.contains_key(r.0[b - 1]));
                } else {
                    assert(out[a] == r.0[a - 1]);
                    assert(!m2.contains_key(r.0[a - 1]));
                }
            }
        }
    }
}

/// Loading refuses exactly when a flow uses an action defined as deleted, and
/// then names the first such use in the order of the flows; the names whose
/// scripts the flows make it read are names the flows use that no definition
/// covers, each once, and, when it does not refuse, all of them.
pub proof fn lemma_flow_names_against_definitions(
    actions: Actions<OptionallyLoadedScript>,
    flows: Flows,
)
    ensures
        ({
            let names = flow_action_names(flows);
            let (reads, refused) = flow_scan(actions, flows);
            &&& match refused {
                Some(x) => exists|i: int|
                    0 <= i < names.len() && names[i] == x && actions.contains_key(x)
                        && actions.value_of(x) is None && (forall|j: int|
                        0 <= j < i ==> !(actions.contains_key(#[trigger] names[j])
                            && actions.value_of(names[j]) is None)),
                None => forall|i: int|
                    0 <= i < names.len() ==> !(actions.contains_key(#[trigger] names[i])
                        && actions.value_of(names[i]) is None),
            }
            &&& forall|k: int|
                0 <= k < reads.len() ==> names.contains(#[trigger] reads[k]) && !actions.contains_key(
                    reads[k],
                )
            &&& reads.no_duplicates()
            &&& refused is None ==> forall|i: int|
                0 <= i < names.len() && !actions.contains_key(#[trigger] names[i]) ==> reads.contains(
                    names[i],
                )
        }),
{
    let names = flow_action_names(flows);
    let marks = deletion_marks(actions);
    lemma_scan_reads_unknown_and_stops_at_deleted(names, marks);
    assert forall|x: Seq<char>|
        marks.contains_key(x) == actions.contains_key(x) && marked_deleted(marks, x) == (
        actions.contains_key(x) && actions.value_of(x) is None) by {}
}

/// Reported actions are read one for one: all are read exactly when each is,
/// and then the `i`-th read action is the `i`-th report read.
pub proof fn lemma_decoded_actions_one_for_one(actions: Seq<RemoteAction>)
    ensures
        spec_decode_actions(actions) is Ok <==> forall|i: int|
            0 <= i < actions.len() ==> #[trigger] spec_decode_action(actions[i]) is Ok,
        match spec_decode_actions(actions) {
            Ok(done) => done.len() == actions.len() && forall|i: int|
                0 <= i < actions.len() ==> spec_decode_action(#[trigger] actions[i]) == Ok::<
                    ActionSearch,
                    DecodeError,
                >(done[i]),
            Err(_) => true,
        },
    decreases actions.len(),
{
    if actions.len() > 0 {
        let rest = actions.drop_last();
        lemma_decoded_actions_one_for_one(rest);
        assert forall|i: int| 0 <= i < rest.len() implies rest[i] == actions[i] by {}
        if !(spec_decode_action(actions.last()) is Ok) {
            assert(!(spec_decode_action(actions[actions.len() - 1]) is Ok));
        }
        if !(spec_decode_actions(rest) is Ok) {
            let i = choose|i: int| 0 <= i < rest.len() && !(#[trigger] spec_decode_action(rest[i]) is Ok);
            assert(!(spec_decode_action(actions[i]) is Ok));
        }
    }
}

/// A reported trigger is read exactly when its type and the type's id are
/// reported and each of its actions can be read; it then holds the reported
/// type id and the reported actions, one for one (none when none are
/// reported).
pub proof fn lemma_decoded_trigger_is_as_reported(t: RemoteTriggerAction)
    ensures
        spec_decode_trigger(t) is Ok <==> (t.trigger_type is Some && t.trigger_type->0.id is Some
            && (t.actions is None || spec_decode_actions(t.actions->0@) is Ok)),
        match spec_decode_trigger(t) {
            Ok((id, acts)) => {
                &&& id == t.trigger_type->0.id->0
                &&& t.actions is None ==> acts.len() == 0
                &&& t.actions is Some ==> Ok::<Seq<ActionSearch>, DecodeError>(acts)
                    == spec_decode_actions(t.actions->0@)
            },
            Err(_) => true,
        },
{
}

/// Reported triggers are read one for one: all are read exactly when each
/// is, and then the `i`-th read trigger is the `i`-th report read. A flow
/// that is not reported is a missing field; one listing no triggers has none.
pub proof fn lemma_decoded_triggers_one_for_one(ts: Seq<RemoteTriggerAction>)
    ensures
        spec_decode_triggers(ts) is Ok <==> forall|i: int|
            0 <= i < ts.len() ==> #[trigger] spec_decode_trigger(ts[i]) is Ok,
        match spec_decode_triggers(ts) {
            Ok(done) => done.len() == ts.len() && forall|i: int|
                0 <= i < ts.len() ==> spec_decode_trigger(#[trigger] ts[i]) == Ok::<
                    (String, Seq<ActionSearch>),
                    DecodeError,
                >(done[i]),
            Err(_) => true,
        },
        spec_decode_flow(None) == Err::<Seq<(String, Seq<ActionSearch>)>, DecodeError>(
            DecodeError::MissingField { field: Field::Flow },
        ),
        spec_decode_flow(Some(RemoteFlow { trigger_actions: None })) == Ok::<
            Seq<(String, Seq<ActionSearch>)>,
            DecodeError,
        >(Seq::empty()),
    decreases ts.len(),
{
    if ts.len() > 0 {
        let rest = ts.drop_last();
        lemma_decoded_triggers_one_for_one(rest);
        assert forall|i: int| 0 <= i < rest.len() implies rest[i] == ts[i] by {}
        if !(spec_decode_trigger(ts.last()) is Ok) {
            assert(!(spec_decode_trigger(ts[ts.len() - 1]) is Ok));
        }
        if !(spec_decode_triggers(rest) is Ok) {
            let i = choose|i: int| 0 <= i < rest.len() && !(#[trigger] spec_decode_trigger(rest[i]) is Ok);
            assert(!(spec_decode_trigger(ts[i]) is Ok));
        }
    }
}

/// A condition on requests or responses is read from the first setting
/// reported, in the order method, service, all; with none it is malformed.
pub proof fn lemma_decoded_request_response_is_as_reported(r: RemoteRequestResponse, o: Malformed)
    ensures
        match spec_decode_request_response(r, o) {
            Ok(RequestResponseCondition::method(m)) => r.method == Some(m),
            Ok(RequestResponseCondition::service(v)) => r.method is None && r.service == Some(v),
            Ok(RequestResponseCondition::all(_)) => r.method is None && r.service is None
                && r.all is Some,
            Err(e) => r.method is None && r.service is None && r.all is None && e
                == DecodeError::MalformedResponse { object: o },
        },
{
}

/// A condition on events is read from the first setting reported, in the
/// order event, group, all; with none it is malformed.
pub proof fn lemma_decoded_event_is_as_reported(e: RemoteEvent)
    ensures
        match spec_decode_event(e) {
            Ok(EventCondition::event(x)) => e.event == Some(x),
            Ok(EventCondition::group(g)) => e.event is None && e.group == Some(g),
            Ok(EventCondition::all(_)) => e.event is None && e.group is None && e.all is Some,
            Err(_) => e.event is None && e.group is None && e.all is None,
        },
{
}

/// An execution condition is read from the first kind reported, in the order
/// request, response, function, event; a function's name must be reported.
pub proof fn lemma_decoded_condition_is_as_reported(c: RemoteCondition)
    ensures
        match spec_decode_condition(Some(c)) {
            Ok(ExecutionCondition::request(x)) => c.request is Some && spec_decode_request_response(
                c.request->0,
                Malformed::ExecutionConditionRequest,
            ) == Ok::<RequestResponseCondition, DecodeError>(x),
            Ok(ExecutionCondition::response(x)) => c.request is None && c.response is Some
                && spec_decode_request_response(c.response->0, Malformed::ExecutionConditionResponse)
                == Ok::<RequestResponseCondition, DecodeError>(x),
            Ok(ExecutionCondition::function { name }) => c.request is None && c.response is None
                && c.function is Some && c.function->0.name == Some(name),
            Ok(ExecutionCondition::event(x)) => c.request is None && c.response is None
                && c.function is None && c.event is Some && spec_decode_event(c.event->0) == Ok::<
                EventCondition,
                DecodeError,
            >(x),
            Err(_) => true,
        },
        (c.request is None && c.response is None && c.function is None && c.event is None) ==> !(
        spec_decode_condition(Some(c)) is Ok),
{
}

/// Two settings on requests or responses carried alike: the same strings.
pub open spec fn request_response_alike(
    x: Option<RemoteRequestResponse>,
    y: Option<RemoteRequestResponse>,
) -> bool {
    match (x, y) {
        (None, None) => true,
        (Some(p), Some(q)) => opt_view(p.method) == opt_view(q.method) && opt_view(p.service)
            == opt_view(q.service) && p.all == q.all,
        _ => false,
    }
}

/// Two settings on events carried alike: the same strings.
pub open spec fn event_alike(x: Option<RemoteEvent>, y: Option<RemoteEvent>) -> bool {
    match (x, y) {
        (None, None) => true,
        (Some(p), Some(q)) => opt_view(p.event) == opt_view(q.event) && opt_view(p.group)
            == opt_view(q.group) && p.all == q.all,
        _ => false,
    }
}

/// Two function conditions carried alike: the same name.
pub open spec fn function_alike(x: Option<RemoteFunction>, y: Option<RemoteFunction>) -> bool {
    match (x, y) {
        (None, None) => true,
        (Some(p), Some(q)) => opt_view(p.name) == opt_view(q.name),
        _ => false,
    }
}

/// Two conditions are the same exactly when Zitadel's API carries them
/// alike: the same kind, and the same method, service, function name, event
/// or group.
pub proof fn lemma_same_condition_is_carried_alike(a: ExecutionCondition, b: ExecutionCondition)
    ensures
        same_condition(a, b) <==> ({
            let x = spec_encode_condition(a);
            let y = spec_encode_condition(b);
            &&& request_response_alike(x.request, y.request)
            &&& request_response_alike(x.response, y.response)
            &&& function_alike(x.function, y.function)
            &&& event_alike(x.event, y.event)
        }),
{
}

/// The defined actions whose scripts are read are exactly the defined actions
/// without a script, in the order of their names, each once.
pub proof fn lemma_missing_scripts_are_the_scriptless(
    keys: Seq<Seq<char>>,
    values: Seq<Option<Action<OptionallyLoadedScript>>>,
)
    requires
        keys.len() == values.len(),
        crate::text::strictly_sorted(keys),
    ensures
        forall|x: Seq<char>|
            #[trigger] missing_scripts(keys, values).contains(x) <==> exists|i: int|
                0 <= i < keys.len() && keys[i] == x && #[trigger] values[i] is Some && values[i]->0.script is None,
        crate::text::strictly_sorted(missing_scripts(keys, values)),
        forall|k: int|
            0 <= k < missing_scripts(keys, values).len() ==> keys.contains(
                #[trigger] missing_scripts(keys, values)[k],
            ),
    decreases keys.len(),
{
    if keys.len() > 0 {
        let rk = keys.drop_last();
        let rv = values.drop_last();
        let rest = missing_scripts(rk, rv);
        let n = keys.len() - 1;
        assert(crate::text::strictly_sorted(rk)) by {
            assert forall|i: int, j: int| 0 <= i < j < rk.len() implies crate::text::name_lt(
                rk[i],
                rk[j],
            ) by {
                assert(rk[i] == keys[i] && rk[j] == keys[j]);
            }
        }
        lemma_missing_scripts_are_the_scriptless(rk, rv);
        assert forall|i: int| 0 <= i < rk.len() implies rk[i] == keys[i] && rv[i] == values[i] by {}
        let out = missing_scripts(keys, values);
        assert forall|k: int| 0 <= k < rest.len() implies crate::text::name_lt(
            #[trigger] rest[k],
            keys[n],
        ) by {
            assert(rk.contains(rest[k]));
            let i = choose|i: int| 0 <= i < rk.len() && rk[i] == rest[k];
            assert(keys[i] == rest[k]);
        }
        assert forall|x: Seq<char>| #[trigger] out.contains(x) <==> exists|i: int|
            0 <= i < keys.len() && keys[i] == x && #[trigger] values[i] is Some && values[i]->0.script is None by {
            if out.contains(x) {
                let k = choose|k: int| 0 <= k < out.len() && out[k] == x;
                if k < rest.len() {
                    assert(out[k] == rest[k]);
                    assert(rest.contains(x));
                    let i = choose|i: int|
                        0 <= i < rk.len() && rk[i] == x && #[trigger] rv[i] is Some && rv[i]->0.script is None;
                    assert(keys[i] == x && values[i] == rv[i]);
                } else {
                    assert(x == keys[n] && values[n] == values.last());
                }
            }
            if exists|i: int|
                0 <= i < keys.len() && keys[i] == x && #[trigger] values[i] is Some && values[i]->0.script is None {
                let i = choose|i: int|
                    0 <= i < keys.len() && keys[i] == x && #[trigger] values[i] is Some && values[i]->0.script is None;
                if i < n {
                    assert(rv[i] == values[i]);
                    assert(rest.contains(x));
                    let k = choose|k: int| 0 <= k < rest.len() && rest[k] == x;
                    if crate::loading::misses_script(values.last()) {
                        assert(out[k] == x);
                    }
                } else {
                    assert(out[out.len() - 1] == x);
                }
            }
        }
        assert forall|k: int| 0 <= k < out.len() implies keys.contains(#[trigger] out[k]) by {
            if k < rest.len() {
                assert(out[k] == rest[k]);
                assert(rk.contains(rest[k]));
                let i = choose|i: int| 0 <= i < rk.len() && rk[i] == rest[k];
                assert(keys[i] == out[k]);
            } else {
                assert(keys[n] == out[k]);
            }
        }
        assert forall|i: int, j: int| 0 <= i < j < out.len() implies crate::text::name_lt(
            out[i],
            out[j],
        ) by {
            if j < rest.len() {
                assert(out[i] == rest[i] && out[j] == rest[j]);
            } else {
                assert(out[i] == rest[i]);
                assert(out[j] == keys[n]);
            }
        }
    }
}

} // verus!
