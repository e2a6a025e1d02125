//! Names, maps, the data exchanged with Zitadel, loading and reading answers.
use zitadel_actions_manager::loading::{flow_action_names_of, LoadActionsV1Error};
use zitadel_actions_manager::plan::{plan_action, plan_trigger, sorted_ids, ActionPlan};
use zitadel_actions_manager::remote::{
    decode_action, decode_condition, decode_created_action, decode_created_target,
    decode_execution, decode_executions, decode_flow, decode_target, decode_target_kind,
    decode_updated_target, encode_condition, encode_target_kind, last_result, parse_type_number,
    DecodeError, Field, Malformed, RemoteAction, RemoteCondition, RemoteEvent, RemoteExecution,
    RemoteFlow, RemoteFunction, RemoteId, RemoteRequestResponse, RemoteRest, RemoteTarget,
    RemoteTargetKind, RemoteTriggerAction,
};
use zitadel_actions_manager::text::{name_less, sort_names};
use zitadel_actions_manager::v2::{conditions_equal, plan_execution, plan_target, Target, TargetPlan};
use zitadel_actions_manager::zitadel::{
    action_is_same, ActionCreate, ActionSearch, ActionUpdate, EventCondition, Execution,
    ExecutionCondition, FoundTarget, GetTriggersResFlowAction, Id, RequestResponseCondition,
    TargetType, TrueConst, UpdateTarget,
};
use zitadel_actions_manager::{
    complete_actions, scripts_to_load, Action, Actions, Flows, NameMap, OptionallyLoadedScript,
};

fn s(x: &str) -> String {
    x.to_owned()
}

#[test]
fn names_are_ordered_like_strings() {
    assert!(name_less("a", "b"));
    assert!(name_less("a", "ab"));
    assert!(!name_less("ab", "a"));
    assert!(!name_less("a", "a"));
    assert!(name_less("", "a"));
    assert!(name_less("Z", "a"));
    assert!(name_less("z", "ä"));
    for (a, b) in [("action1", "action2"), ("10", "9"), ("é", "e"), ("", "")] {
        assert_eq!(name_less(a, b), a < b, "{a} {b}");
    }
}

#[test]
fn sorting_names() {
    let mut v = vec![s("id3"), s("id1"), s("id2"), s("id1"), s("ID")];
    sort_names(&mut v);
    assert_eq!(v, vec![s("ID"), s("id1"), s("id1"), s("id2"), s("id3")]);
    let mut empty: Vec<String> = vec![];
    sort_names(&mut empty);
    assert!(empty.is_empty());
}

#[test]
fn name_map_keeps_names_in_order_once() {
    let mut m: NameMap<u32> = NameMap::new();
    m.insert(s("b"), 2);
    m.insert(s("a"), 1);
    m.insert(s("c"), 3);
    m.insert(s("b"), 20);
    assert_eq!(m.len(), 3);
    assert_eq!(m.key_at(0), "a");
    assert_eq!(m.key_at(1), "b");
    assert_eq!(m.key_at(2), "c");
    assert_eq!(m.get("b"), Some(&20));
    assert_eq!(m.get("d"), None);
    assert_eq!(m.find("c"), Some(2));
    assert_eq!(*m.value_at(0), 1);
}

fn action(timeout: Option<&str>, allowed_to_fail: bool, script: &str) -> Action<String> {
    Action { timeout: timeout.map(s), allowed_to_fail, script: s(script) }
}

fn search(id: &str, name: &str, timeout: Option<&str>, allowed_to_fail: bool, script: &str) -> ActionSearch {
    ActionSearch { id: s(id), name: s(name), timeout: timeout.map(s), allowed_to_fail, script: s(script) }
}

#[test]
fn action_sameness() {
    let a = action(Some("10s"), true, "x");
    assert!(action_is_same(&a, &search("1", "a", Some("10s"), true, "x")));
    assert!(!action_is_same(&a, &search("1", "a", Some("12s"), true, "x")));
    assert!(!action_is_same(&a, &search("1", "a", Some("10s"), false, "x")));
    assert!(!action_is_same(&a, &search("1", "a", Some("10s"), true, "y")));
    // no timeout is the same as the one Zitadel sets by default
    let b = action(None, false, "x");
    assert!(action_is_same(&b, &search("1", "b", Some("20s"), false, "x")));
    assert!(action_is_same(&b, &search("1", "b", None, false, "x")));
    assert!(!action_is_same(&b, &search("1", "b", Some("10s"), false, "x")));
    // a timeout of 20s set explicitly is not the same as none reported
    assert!(!action_is_same(&action(Some("20s"), false, "x"), &search("1", "b", None, false, "x")));
}

#[test]
fn requests_from_actions() {
    let a = action(Some("10s"), true, "x");
    assert_eq!(
        ActionCreate::new(s("n"), a.clone()),
        ActionCreate { name: s("n"), timeout: Some(s("10s")), allowed_to_fail: true, script: s("x") }
    );
    assert_eq!(
        ActionUpdate::new(s("n"), a),
        ActionUpdate { name: s("n"), timeout: Some(s("10s")), allowed_to_fail: true, script: s("x") }
    );
}

#[test]
fn action_plans() {
    let a = Some(action(Some("1s"), false, "x"));
    assert_eq!(plan_action(&s("n"), &a, &None), ActionPlan::Create {
        create: ActionCreate { name: s("n"), timeout: Some(s("1s")), allowed_to_fail: false, script: s("x") }
    });
    assert_eq!(
        plan_action(&s("n"), &a, &Some(search("7", "n", Some("1s"), false, "x"))),
        ActionPlan::Unchanged { id: s("7") }
    );
    assert_eq!(
        plan_action(&s("n"), &a, &Some(search("7", "n", Some("1s"), false, "y"))),
        ActionPlan::Update {
            id: s("7"),
            update: ActionUpdate { name: s("n"), timeout: Some(s("1s")), allowed_to_fail: false, script: s("x") }
        }
    );
    assert_eq!(plan_action(&s("n"), &None, &Some(search("7", "n", None, false, "x"))), ActionPlan::Delete { id: s("7") });
    assert_eq!(plan_action(&s("n"), &None, &None), ActionPlan::Absent);
}

fn known(entries: &[(&str, &str)]) -> NameMap<String> {
    let mut m = NameMap::new();
    for (k, v) in entries {
        m.insert(s(k), s(v));
    }
    m
}

#[test]
fn trigger_plans() {
    let k = known(&[("a", "id2"), ("b", "id1")]);
    assert_eq!(sorted_ids(&vec![s("a"), s("x"), s("b")], &k), vec![s("id1"), s("id2")]);
    let names = vec![s("a"), s("b")];
    // no trigger reported: set
    assert_eq!(plan_trigger(&s("4"), &names, &k, &vec![]), Some(vec![s("id1"), s("id2")]));
    // the trigger runs the same actions in another order: unchanged
    let existing = vec![GetTriggersResFlowAction {
        trigger_type: Id { id: s("4") },
        actions: vec![search("id2", "a", None, false, ""), search("id1", "b", None, false, "")],
    }];
    assert_eq!(plan_trigger(&s("4"), &names, &k, &existing), None);
    // a different trigger type does not count
    assert_eq!(plan_trigger(&s("5"), &names, &k, &existing), Some(vec![s("id1"), s("id2")]));
    // one action too many: set
    assert_eq!(plan_trigger(&s("4"), &vec![s("a")], &k, &existing), Some(vec![s("id2")]));
}

#[test]
fn target_plans_and_conversions() {
    let t = Target { target_type: TargetType::restAsync {}, timeout: s("5s"), endpoint: s("http://e/") };
    let found = FoundTarget {
        id: s("t1"),
        name: s("x"),
        target_type: TargetType::restAsync {},
        timeout: s("5s"),
        endpoint: s("http://e/"),
        signing_key: s("k"),
    };
    assert!(t == found);
    assert_eq!(plan_target(&s("x"), &Some(t.clone()), &Some(found.clone())), TargetPlan::Unchanged { id: s("t1") });
    let other = FoundTarget { timeout: s("6s"), ..found.clone() };
    assert!(t != other);
    assert_eq!(
        plan_target(&s("x"), &Some(t.clone()), &Some(other)),
        TargetPlan::Update {
            id: s("t1"),
            update: UpdateTarget {
                target_type: Some(TargetType::restAsync {}),
                timeout: Some(s("5s")),
                endpoint: Some(s("http://e/")),
                expiration_signing_key: None,
            }
        }
    );
    let created = t.clone().into_create_target(s("x"));
    assert_eq!(created.name, "x");
    assert_eq!(created.endpoint, "http://e/");
    assert_eq!(plan_target(&s("x"), &None, &Some(found)), TargetPlan::Delete { id: s("t1") });
    assert_eq!(plan_target(&s("x"), &None, &None), TargetPlan::Absent);
    let u: UpdateTarget = t.into();
    assert_eq!(u.expiration_signing_key, None);
}

#[test]
fn execution_plans() {
    let k = known(&[("t", "id1")]);
    let cond = ExecutionCondition::event(EventCondition::group(s("user")));
    let e = Execution { condition: cond.clone(), targets: vec![s("t")] };
    assert_eq!(plan_execution(&e, &k, &vec![]), Some(Execution { condition: cond.clone(), targets: vec![s("id1")] }));
    let existing = vec![Execution { condition: cond.clone(), targets: vec![s("id1")] }];
    assert_eq!(plan_execution(&e, &k, &existing), None);
    assert!(conditions_equal(&cond, &cond));
    assert!(!conditions_equal(&cond, &ExecutionCondition::event(EventCondition::event(s("user")))));
}

fn flows(entries: &[(&str, &[(&str, &[&str])])]) -> Flows {
    let mut f = NameMap::new();
    for (flow, triggers) in entries {
        let mut t = NameMap::new();
        for (trigger, names) in triggers.iter() {
            t.insert(s(trigger), names.iter().map(|n| s(n)).collect());
        }
        f.insert(s(flow), t);
    }
    f
}

fn defs(entries: &[(&str, Option<Action<OptionallyLoadedScript>>)]) -> Actions<OptionallyLoadedScript> {
    let mut m = NameMap::new();
    for (k, v) in entries {
        m.insert(s(k), v.clone());
    }
    m
}

#[test]
fn loading_scripts() {
    let actions = defs(&[
        ("with", Some(Action { timeout: Some(s("3s")), allowed_to_fail: true, script: Some(s("inline")) })),
        ("without", Some(Action { timeout: None, allowed_to_fail: false, script: None })),
        ("deleted", None),
    ]);
    let fl = flows(&[("2", &[("4", &["with", "only_in_flow", "without"]), ("5", &["only_in_flow"])])]);
    assert_eq!(flow_action_names_of(&fl), vec![s("with"), s("only_in_flow"), s("without"), s("only_in_flow")]);
    let to_load = scripts_to_load(&actions, &fl);
    assert_eq!(to_load, vec![s("without"), s("only_in_flow")]);
    let scripts = vec![s("read without"), s("read flow")];
    let loaded = complete_actions(&actions, &fl, &scripts).unwrap();
    assert_eq!(loaded.len(), 4);
    assert_eq!(loaded.get("with"), Some(&Some(Action { timeout: Some(s("3s")), allowed_to_fail: true, script: s("inline") })));
    assert_eq!(loaded.get("without"), Some(&Some(Action { timeout: None, allowed_to_fail: false, script: s("read without") })));
    assert_eq!(loaded.get("only_in_flow"), Some(&Some(Action { timeout: None, allowed_to_fail: false, script: s("read flow") })));
    assert_eq!(loaded.get("deleted"), Some(&None));
}

#[test]
fn deleted_action_in_flow_fails_loading() {
    let actions = defs(&[("gone", None)]);
    let fl = flows(&[("2", &[("4", &["new", "gone", "later"])])]);
    // the script of "new" is read before the deleted action is met; "later" is not
    assert_eq!(scripts_to_load(&actions, &fl), vec![s("new")]);
    assert_eq!(
        complete_actions(&actions, &fl, &vec![s("script")]),
        Err(LoadActionsV1Error::DeletedActionInFlow { action_name: s("gone") })
    );
}

#[test]
fn reading_actions() {
    let full = RemoteAction { id: Some(s("1")), name: Some(s("a")), timeout: None, allowed_to_fail: None, script: Some(s("x")) };
    assert_eq!(decode_action(&full), Ok(search("1", "a", None, false, "x")));
    assert_eq!(decode_action(&RemoteAction { id: None, name: None, ..full.clone() }), Err(DecodeError::MissingField { field: Field::Id }));
    assert_eq!(decode_action(&RemoteAction { name: None, ..full.clone() }), Err(DecodeError::MissingField { field: Field::Name }));
    assert_eq!(decode_action(&RemoteAction { script: None, ..full.clone() }), Err(DecodeError::MissingField { field: Field::Script }));
    assert_eq!(decode_action(&RemoteAction { allowed_to_fail: Some(true), ..full }).unwrap().allowed_to_fail, true);
}

#[test]
fn reading_flows() {
    assert_eq!(decode_flow(&None), Err(DecodeError::MissingField { field: Field::Flow }));
    assert_eq!(decode_flow(&Some(RemoteFlow { trigger_actions: None })), Ok(vec![]));
    let trigger = RemoteTriggerAction { trigger_type: Some(RemoteId { id: Some(s("4")) }), actions: None };
    assert_eq!(
        decode_flow(&Some(RemoteFlow { trigger_actions: Some(vec![trigger.clone()]) })),
        Ok(vec![GetTriggersResFlowAction { trigger_type: Id { id: s("4") }, actions: vec![] }])
    );
    let no_type = RemoteTriggerAction { trigger_type: None, actions: None };
    assert_eq!(
        decode_flow(&Some(RemoteFlow { trigger_actions: Some(vec![trigger.clone(), no_type]) })),
        Err(DecodeError::MissingField { field: Field::TriggerType })
    );
    let no_id = RemoteTriggerAction { trigger_type: Some(RemoteId { id: None }), actions: None };
    assert_eq!(
        decode_flow(&Some(RemoteFlow { trigger_actions: Some(vec![no_id]) })),
        Err(DecodeError::MissingField { field: Field::TriggerTypeId })
    );
}

#[test]
fn reading_targets() {
    let t = RemoteTarget {
        id: Some(s("t1")),
        name: Some(s("n")),
        rest_webhook: None,
        rest_call: Some(RemoteRest { interrupt_on_error: None }),
        rest_async: false,
        timeout: Some(s("5s")),
        endpoint: Some(s("http://e")),
        signing_key: Some(s("k")),
    };
    assert_eq!(decode_target(&t).unwrap().target_type, TargetType::restCall { interrupt_on_error: false });
    assert_eq!(
        decode_target(&RemoteTarget { rest_call: None, id: None, ..t.clone() }),
        Err(DecodeError::MalformedResponse { object: Malformed::FoundTarget })
    );
    assert_eq!(decode_target(&RemoteTarget { endpoint: None, ..t.clone() }), Err(DecodeError::MissingField { field: Field::Endpoint }));
    for tt in [TargetType::restAsync {}, TargetType::restCall { interrupt_on_error: true }, TargetType::restWebhook { interrupt_on_error: false }] {
        assert_eq!(decode_target_kind(encode_target_kind(tt)), Ok(tt));
    }
    assert_eq!(
        decode_target_kind(RemoteTargetKind { rest_webhook: Some(RemoteRest { interrupt_on_error: Some(true) }), rest_call: Some(RemoteRest { interrupt_on_error: None }), rest_async: true }),
        Ok(TargetType::restWebhook { interrupt_on_error: true })
    );
    assert_eq!(decode_created_target(&Some(s("i")), &None), Err(DecodeError::MissingField { field: Field::SigningKey }));
    assert_eq!(decode_created_target(&None, &None), Err(DecodeError::MissingField { field: Field::Id }));
    assert_eq!(decode_created_target(&Some(s("i")), &Some(s("k"))).unwrap().id, "i");
    assert_eq!(decode_updated_target(&Some(s("k"))).unwrap().signing_key, "k");
    assert_eq!(decode_created_action(&None), Err(DecodeError::MissingField { field: Field::Id }));
}

#[test]
fn reading_executions() {
    let rr = |m: Option<&str>, sv: Option<&str>, all: Option<bool>| RemoteRequestResponse { method: m.map(s), service: sv.map(s), all };
    let cond = |request, response, function, event| Some(RemoteCondition { request, response, function, event });
    assert_eq!(decode_condition(&None), Err(DecodeError::MissingField { field: Field::Condition }));
    assert_eq!(
        decode_condition(&cond(Some(rr(Some("/m"), Some("svc"), None)), None, None, None)),
        Ok(ExecutionCondition::request(RequestResponseCondition::method(s("/m"))))
    );
    assert_eq!(
        decode_condition(&cond(None, Some(rr(None, None, Some(false))), None, None)),
        Ok(ExecutionCondition::response(RequestResponseCondition::all(TrueConst)))
    );
    assert_eq!(
        decode_condition(&cond(Some(rr(None, None, None)), None, None, None)),
        Err(DecodeError::MalformedResponse { object: Malformed::ExecutionConditionRequest })
    );
    assert_eq!(
        decode_condition(&cond(None, None, Some(RemoteFunction { name: None }), None)),
        Err(DecodeError::MissingField { field: Field::Name })
    );
    assert_eq!(
        decode_condition(&cond(None, None, None, Some(RemoteEvent { event: None, group: None, all: None }))),
        Err(DecodeError::MalformedResponse { object: Malformed::ExecutionConditionEvent })
    );
    assert_eq!(decode_condition(&cond(None, None, None, None)), Err(DecodeError::MalformedResponse { object: Malformed::ExecutionCondition }));
    let e = RemoteExecution { condition: cond(None, None, Some(RemoteFunction { name: Some(s("f")) }), None), targets: None };
    assert_eq!(decode_execution(&e), Ok(Execution { condition: ExecutionCondition::function { name: s("f") }, targets: vec![] }));
    let bad = RemoteExecution { condition: None, targets: Some(vec![s("x")]) };
    assert_eq!(decode_executions(&vec![e.clone(), bad]), Err(DecodeError::MissingField { field: Field::Condition }));
    assert_eq!(decode_executions(&vec![e.clone(), e]).unwrap().len(), 2);
}

#[test]
fn conditions_read_back_as_written() {
    for c in [
        ExecutionCondition::request(RequestResponseCondition::method(s("/a"))),
        ExecutionCondition::request(RequestResponseCondition::all(TrueConst)),
        ExecutionCondition::response(RequestResponseCondition::service(s("svc"))),
        ExecutionCondition::function { name: s("f") },
        ExecutionCondition::event(EventCondition::event(s("hello"))),
        ExecutionCondition::event(EventCondition::group(s("user"))),
        ExecutionCondition::event(EventCondition::all(TrueConst)),
    ] {
        assert_eq!(decode_condition(&Some(encode_condition(&c))), Ok(c));
    }
}

#[test]
fn type_numbers() {
    assert_eq!(parse_type_number("2"), Ok(2));
    assert_eq!(parse_type_number("+42"), Ok(42));
    assert_eq!(parse_type_number("007"), Ok(7));
    assert_eq!(parse_type_number("4294967295"), Ok(u32::MAX));
    for bad in ["", "+", "-1", "4294967296", "99999999999999999999", "1a", "FLOW_TYPE_EXTERNAL_AUTHENTICATION", " 1"] {
        assert_eq!(parse_type_number(bad), Err(DecodeError::FlowTypeParse), "{bad}");
        assert!(bad.parse::<u32>().is_err());
    }
    for good in ["0", "+0", "123456789"] {
        assert_eq!(parse_type_number(good), Ok(good.parse::<u32>().unwrap()));
    }
}

#[test]
fn last_result_counts() {
    assert_eq!(last_result(Some(vec![1, 2, 3])), Some(3));
    assert_eq!(last_result::<u8>(Some(vec![])), None);
    assert_eq!(last_result::<u8>(None), None);
}
