//! Syncs run against an in-memory stand-in for Zitadel.
use std::collections::BTreeMap;

use zitadel_actions_manager::create_only::CreateOnlyV1;
use zitadel_actions_manager::sync_v1::{SyncStage, SyncV1, Upsert};
use zitadel_actions_manager::v2::{SyncV2, Target, TargetUpsert, Targets};
use zitadel_actions_manager::zitadel::{
    ActionCreate, ActionSearch, EventCondition, Execution, ExecutionCondition,
    GetTriggersResFlowAction, Id, RequestResponseCondition, TargetCreated, TargetType,
};
use zitadel_actions_manager::{Action, Actions, Flows, LoadedScript, NameMap};

fn scalar(v: &serde_yaml::Value) -> String {
    match v {
        serde_yaml::Value::String(s) => s.clone(),
        serde_yaml::Value::Number(n) => n.to_string(),
        serde_yaml::Value::Bool(b) => b.to_string(),
        other => panic!("not a scalar: {other:?}"),
    }
}

fn actions_from_yaml(text: &str) -> Actions<LoadedScript> {
    let value: serde_yaml::Value = serde_yaml::from_str(text).unwrap();
    let mut actions = NameMap::new();
    if let Some(map) = value.as_mapping() {
        for (name, def) in map {
            let action = if def.is_null() {
                None
            } else {
                Some(Action {
                    timeout: def.get("timeout").map(scalar),
                    allowed_to_fail: def.get("allowedToFail").and_then(|b| b.as_bool()).unwrap_or(false),
                    script: def.get("script").map(scalar).unwrap(),
                })
            };
            actions.insert(scalar(name), action);
        }
    }
    actions
}

fn flows_from_yaml(text: &str) -> Flows {
    let value: serde_yaml::Value = serde_yaml::from_str(text).unwrap();
    let mut flows = NameMap::new();
    if let Some(map) = value.as_mapping() {
        for (flow, triggers) in map {
            let mut inner = NameMap::new();
            for (trigger, names) in triggers.as_mapping().unwrap() {
                let names: Vec<String> =
                    names.as_sequence().unwrap().iter().map(scalar).collect();
                inner.insert(scalar(trigger), names);
            }
            flows.insert(scalar(flow), inner);
        }
    }
    flows
}

/// An in-memory Zitadel organization for v1 actions.
#[derive(Default)]
struct FakeV1 {
    actions: BTreeMap<String, ActionSearch>,
    triggers: BTreeMap<(String, String), Vec<String>>,
    next_id: u32,
    creates: u32,
    updates: u32,
    deletes: u32,
    trigger_sets: u32,
    searches: u32,
}

impl FakeV1 {
    fn search(&mut self, name: &str) -> Option<ActionSearch> {
        self.searches += 1;
        self.actions.values().find(|a| a.name == name).cloned()
    }

    fn store(&mut self, id: String, name: String, timeout: Option<String>, allowed_to_fail: bool, script: String) {
        // Zitadel reports a default timeout for actions created without one
        let timeout = timeout.or_else(|| Some("20s".to_owned()));
        self.actions.insert(id.clone(), ActionSearch { id, name, timeout, allowed_to_fail, script });
    }

    fn create(&mut self, c: ActionCreate) -> String {
        self.creates += 1;
        self.next_id += 1;
        let id = format!("id{}", self.next_id);
        self.store(id.clone(), c.name, c.timeout, c.allowed_to_fail, c.script);
        id
    }

    fn get_triggers(&self, flow: &str) -> Vec<GetTriggersResFlowAction> {
        self.triggers
            .iter()
            .filter(|((f, _), _)| f == flow)
            .map(|((_, t), ids)| GetTriggersResFlowAction {
                trigger_type: Id { id: t.clone() },
                actions: ids.iter().filter_map(|id| self.actions.get(id).cloned()).collect(),
            })
            .collect()
    }

    fn trigger_names(&self, flow: &str, trigger: &str) -> Option<Vec<String>> {
        self.triggers.get(&(flow.to_owned(), trigger.to_owned())).map(|ids| {
            ids.iter().map(|id| self.actions[id].name.clone()).collect()
        })
    }
}

fn run_v1(z: &mut FakeV1, actions: Actions<LoadedScript>, flows: Flows) {
    let mut sync = SyncV1::new(None, actions, flows);
    while let Some(name) = sync.next_search() {
        let found = z.search(&name);
        sync.record_search(found);
    }
    while let Some(upsert) = sync.next_upsert() {
        match upsert {
            Upsert::Update { id, update } => {
                z.updates += 1;
                z.store(id, update.name, update.timeout, update.allowed_to_fail, update.script);
            }
            Upsert::Create { create } => {
                let id = z.create(create);
                sync.record_created(id);
            }
        }
    }
    while let Some(flow) = sync.next_flow() {
        let existing = z.get_triggers(&flow);
        for change in sync.flow_changes(&existing).into_iter().flatten() {
            z.trigger_sets += 1;
            z.triggers.insert((change.flow_type, change.trigger_type), change.action_ids);
        }
    }
    for id in sync.deletions() {
        z.deletes += 1;
        z.actions.remove(&id);
    }
    assert_eq!(sync.current_stage(), SyncStage::Finished);
}

const FLOWS: &str = "\n    2:\n        4: [action1]\n    ";
const ACTIONS: &str = r#"
    action1:
        timeout: '10s'
        allowedToFail: true
        script: |
            function action1(ctx, api) {
                console.log("action1");
            }
    "#;

fn check_v1(z: &FakeV1, actions_text: &str, flows_text: &str) {
    let actions = actions_from_yaml(actions_text);
    for i in 0..actions.len() {
        let name = actions.key_at(i);
        let synced = z.actions.values().find(|a| &a.name == name);
        match actions.value_at(i) {
            None => assert!(synced.is_none(), "action {name} should be deleted"),
            Some(action) => {
                let synced = synced.expect("action synced");
                assert_eq!(&synced.script, &action.script);
                assert_eq!(synced.allowed_to_fail, action.allowed_to_fail);
                assert_eq!(synced.timeout, action.timeout);
            }
        }
    }
    let flows = flows_from_yaml(flows_text);
    for f in 0..flows.len() {
        let triggers = flows.value_at(f);
        for t in 0..triggers.len() {
            assert_eq!(
                z.trigger_names(flows.key_at(f), triggers.key_at(t)).as_ref(),
                Some(triggers.value_at(t))
            );
        }
    }
}

#[test]
fn v1_test_simple() {
    let mut z = FakeV1::default();
    run_v1(&mut z, actions_from_yaml(ACTIONS), flows_from_yaml(FLOWS));
    check_v1(&z, ACTIONS, FLOWS);
    assert_eq!(z.creates, 1);
    assert_eq!(z.trigger_sets, 1);
}

#[test]
fn v1_test_resync() {
    let mut z = FakeV1::default();
    run_v1(&mut z, actions_from_yaml(ACTIONS), flows_from_yaml(FLOWS));
    check_v1(&z, ACTIONS, FLOWS);
    run_v1(&mut z, actions_from_yaml(ACTIONS), flows_from_yaml(FLOWS));
    check_v1(&z, ACTIONS, FLOWS);
    assert_eq!(z.creates, 1);
    assert_eq!(z.updates, 0);
    assert_eq!(z.trigger_sets, 1);
}

#[test]
fn v1_test_update() {
    let new_flows = "\n    2:\n        5: [action1]\n    ";
    let new_actions = r#"
    action1:
        timeout: '12s'
        allowedToFail: false
        script: |
            function action1(ctx, api) {
                console.log("new action1");
            }
    "#;
    let mut z = FakeV1::default();
    run_v1(&mut z, actions_from_yaml(ACTIONS), flows_from_yaml(FLOWS));
    check_v1(&z, ACTIONS, FLOWS);
    run_v1(&mut z, actions_from_yaml(new_actions), flows_from_yaml(new_flows));
    check_v1(&z, new_actions, new_flows);
    assert_eq!(z.creates, 1);
    assert_eq!(z.updates, 1);
}

#[test]
fn v1_test_remove() {
    let new_flows = "\n    ";
    let new_actions = "\n    action1: null\n    ";
    let mut z = FakeV1::default();
    run_v1(&mut z, actions_from_yaml(ACTIONS), flows_from_yaml(FLOWS));
    check_v1(&z, ACTIONS, FLOWS);
    run_v1(&mut z, actions_from_yaml(new_actions), flows_from_yaml(new_flows));
    check_v1(&z, new_actions, new_flows);
    assert_eq!(z.deletes, 1);
    assert!(z.actions.is_empty());
}

fn resync_only_once(actions_text: &str) {
    let mut z = FakeV1::default();
    run_v1(&mut z, actions_from_yaml(actions_text), flows_from_yaml(FLOWS));
    run_v1(&mut z, actions_from_yaml(actions_text), flows_from_yaml(FLOWS));
    assert_eq!(z.creates, 1, "create action");
    assert_eq!(z.trigger_sets, 1, "create trigger actions");
    assert_eq!(z.updates, 0, "update action");
    assert_eq!(z.deletes, 0, "delete action");
}

#[test]
fn test_resync_only_once() {
    let false_case = r#"
    action1:
        timeout: '10s'
        allowedToFail: false
        script: |
            function action1(ctx, api) {
                console.log("action1");
            }
    "#;
    let true_case = r#"
    action1:
        timeout: '10s'
        allowedToFail: true
        script: |
            function action1(ctx, api) {
                console.log("action1");
            }
    "#;
    let none_case = r#"
    action1:
        timeout: '10s'
        script: |
            function action1(ctx, api) {
                console.log("action1");
            }
    "#;
    resync_only_once(false_case);
    resync_only_once(true_case);
    resync_only_once(none_case);
}

#[test]
fn resync_without_timeout_uses_zitadel_default() {
    let actions = "\n    action1:\n        script: 'function action1(ctx, api) {}'\n    ";
    let mut z = FakeV1::default();
    run_v1(&mut z, actions_from_yaml(actions), flows_from_yaml(FLOWS));
    assert_eq!(z.actions.values().next().unwrap().timeout.as_deref(), Some("20s"));
    run_v1(&mut z, actions_from_yaml(actions), flows_from_yaml(FLOWS));
    assert_eq!(z.creates, 1);
    assert_eq!(z.updates, 0);
}

#[test]
fn trigger_ids_are_sorted_and_known_only() {
    let actions = r#"
    b:
        script: 'b'
    a:
        script: 'a'
    gone: null
    "#;
    let flows = "\n    2:\n        4: [b, missing, a]\n    ";
    let mut z = FakeV1::default();
    run_v1(&mut z, actions_from_yaml(actions), flows_from_yaml(flows));
    // actions are created in the order of their names: a gets id1, b gets id2
    assert_eq!(z.triggers[&("2".to_owned(), "4".to_owned())], vec!["id1".to_owned(), "id2".to_owned()]);
    // the same set of ids in another order is current: nothing is set again
    z.triggers.insert(("2".to_owned(), "4".to_owned()), vec!["id2".to_owned(), "id1".to_owned()]);
    run_v1(&mut z, actions_from_yaml(actions), flows_from_yaml(flows));
    assert_eq!(z.trigger_sets, 1);
    assert_eq!(z.searches, 6);
}

#[test]
fn deleted_action_absent_in_zitadel_is_left_alone() {
    let mut z = FakeV1::default();
    run_v1(&mut z, actions_from_yaml("\n    action1: null\n    "), flows_from_yaml("\n    "));
    assert_eq!(z.deletes, 0);
    assert_eq!(z.creates, 0);
}

#[test]
fn create_only_creates_everything() {
    let actions = actions_from_yaml(
        "\n    b:\n        script: 'b'\n    a:\n        timeout: '3s'\n        script: 'a'\n    c: null\n    ",
    );
    let flows = flows_from_yaml("\n    2:\n        4: [b, a]\n        5: [c]\n    ");
    let mut creation = CreateOnlyV1::new(Some("org".to_owned()), actions, flows);
    let mut created = Vec::new();
    while let Some(create) = creation.next_create() {
        created.push(create.name.clone());
        creation.record_created(format!("id-{}", create.name));
    }
    assert_eq!(created, vec!["a".to_owned(), "b".to_owned()]);
    assert_eq!(creation.org_id(), Some("org".to_owned()));
    let settings = creation.trigger_settings(0);
    assert_eq!(settings.len(), 2);
    assert_eq!(settings[0].flow_type, "2");
    assert_eq!(settings[0].trigger_type, "4");
    assert_eq!(settings[0].action_ids, vec!["id-a".to_owned(), "id-b".to_owned()]);
    assert_eq!(settings[1].trigger_type, "5");
    assert!(settings[1].action_ids.is_empty());
}

/// An in-memory Zitadel instance for v2 targets and executions.
#[derive(Default)]
struct FakeV2 {
    targets: BTreeMap<String, zitadel_actions_manager::zitadel::FoundTarget>,
    executions: Vec<Execution>,
    next_id: u32,
    creates: u32,
    updates: u32,
    deletes: u32,
    sets: u32,
}

fn run_v2(z: &mut FakeV2, targets: Targets, executions: Vec<Execution>) {
    let mut sync = SyncV2::new(targets, executions);
    while let Some(name) = sync.next_search() {
        let found = z.targets.values().find(|t| t.name == name).cloned();
        sync.record_search(found);
    }
    while let Some(upsert) = sync.next_upsert() {
        match upsert {
            TargetUpsert::Update { id, update } => {
                z.updates += 1;
                let t = z.targets.get_mut(&id).unwrap();
                if let Some(tt) = update.target_type {
                    t.target_type = tt;
                }
                if let Some(timeout) = update.timeout {
                    t.timeout = timeout;
                }
                if let Some(endpoint) = update.endpoint {
                    t.endpoint = endpoint;
                }
            }
            TargetUpsert::Create { create } => {
                z.creates += 1;
                z.next_id += 1;
                let id = format!("t{}", z.next_id);
                z.targets.insert(
                    id.clone(),
                    zitadel_actions_manager::zitadel::FoundTarget {
                        id: id.clone(),
                        name: create.name,
                        target_type: create.target_type,
                        timeout: create.timeout,
                        endpoint: create.endpoint,
                        signing_key: "key".to_owned(),
                    },
                );
                sync.record_created(TargetCreated { id, signing_key: "key".to_owned() });
            }
        }
    }
    let existing = z.executions.clone();
    for change in sync.execution_changes(&existing).into_iter().flatten() {
        z.sets += 1;
        z.executions.retain(|e| e.condition != change.condition);
        z.executions.push(change);
    }
    for id in sync.deletions() {
        z.deletes += 1;
        z.targets.remove(&id);
    }
}

fn target(target_type: TargetType, endpoint: &str, timeout: &str) -> Option<Target> {
    Some(Target { target_type, timeout: timeout.to_owned(), endpoint: endpoint.to_owned() })
}

fn targets(entries: Vec<(&str, Option<Target>)>) -> Targets {
    let mut m = NameMap::new();
    for (name, t) in entries {
        m.insert(name.to_owned(), t);
    }
    m
}

fn user_added(targets: &[&str]) -> Execution {
    Execution {
        condition: ExecutionCondition::event(EventCondition::event("user.human.added".to_owned())),
        targets: targets.iter().map(|t| (*t).to_owned()).collect(),
    }
}

fn add_human_user(targets: &[&str]) -> Execution {
    Execution {
        condition: ExecutionCondition::request(RequestResponseCondition::method(
            "/zitadel.user.v2.UserService/AddHumanUser".to_owned(),
        )),
        targets: targets.iter().map(|t| (*t).to_owned()).collect(),
    }
}

fn synced_names(z: &FakeV2, e: &Execution) -> Vec<String> {
    let mut names: Vec<String> = e.targets.iter().map(|id| z.targets[id].name.clone()).collect();
    names.sort();
    names
}

#[test]
fn v2_test_simple() {
    let mut z = FakeV2::default();
    let defs = targets(vec![("target1", target(TargetType::restAsync {}, "http://example.com/call_me", "5s"))]);
    run_v2(&mut z, defs, vec![user_added(&["target1"]), add_human_user(&["target1"])]);
    assert_eq!(z.targets.len(), 1);
    let t = z.targets.values().next().unwrap();
    assert_eq!(t.name, "target1");
    assert_eq!(t.target_type, TargetType::restAsync {});
    assert_eq!(t.timeout, "5s");
    assert_eq!(t.endpoint, "http://example.com/call_me");
    assert_eq!(z.executions.len(), 2);
    for e in &z.executions {
        assert_eq!(synced_names(&z, e), vec!["target1".to_owned()]);
    }
}

#[test]
fn v2_test_resync() {
    let defs = || targets(vec![("target1", target(TargetType::restAsync {}, "http://example.com/call_me", "5s"))]);
    let mut z = FakeV2::default();
    run_v2(&mut z, defs(), vec![user_added(&["target1"]), add_human_user(&["target1"])]);
    run_v2(&mut z, defs(), vec![user_added(&["target1"]), add_human_user(&["target1"])]);
    assert_eq!(z.creates, 1);
    assert_eq!(z.updates, 0);
    assert_eq!(z.sets, 2);
}

#[test]
fn v2_test_update() {
    let mut z = FakeV2::default();
    run_v2(
        &mut z,
        targets(vec![("target1", target(TargetType::restAsync {}, "http://example.com/call_me", "5s"))]),
        vec![user_added(&["target1"]), add_human_user(&["target1"])],
    );
    let session = Execution {
        condition: ExecutionCondition::response(RequestResponseCondition::service(
            "zitadel.session.v2.SessionService".to_owned(),
        )),
        targets: vec!["target1".to_owned()],
    };
    run_v2(
        &mut z,
        targets(vec![(
            "target1",
            target(TargetType::restWebhook { interrupt_on_error: false }, "http://example.com/call_me_new", "3s"),
        )]),
        vec![session.clone()],
    );
    assert_eq!(z.updates, 1);
    let t = z.targets.values().next().unwrap();
    assert_eq!(t.target_type, TargetType::restWebhook { interrupt_on_error: false });
    assert_eq!(t.endpoint, "http://example.com/call_me_new");
    assert_eq!(t.timeout, "3s");
    assert!(z.executions.iter().any(|e| e.condition == session.condition));
}

#[test]
fn v2_test_remove() {
    let both = || {
        targets(vec![
            ("target1", target(TargetType::restAsync {}, "http://example.com/call_me", "5s")),
            ("target2", target(TargetType::restAsync {}, "http://example.com/call_me", "5s")),
        ])
    };
    let mut z = FakeV2::default();
    run_v2(&mut z, both(), vec![user_added(&["target1", "target2"]), add_human_user(&["target1", "target2"])]);
    assert_eq!(z.targets.len(), 2);
    run_v2(
        &mut z,
        targets(vec![
            ("target1", target(TargetType::restAsync {}, "http://example.com/call_me", "5s")),
            ("target2", None),
        ]),
        vec![user_added(&["target1"]), add_human_user(&[])],
    );
    assert_eq!(z.deletes, 1);
    assert_eq!(z.targets.len(), 1);
    assert_eq!(z.targets.values().next().unwrap().name, "target1");
    let add = z.executions.iter().find(|e| e.condition == add_human_user(&[]).condition).unwrap();
    assert!(add.targets.is_empty());
}

#[test]
fn v2_execution_targets_are_ids_sorted() {
    let mut z = FakeV2::default();
    let defs = targets(vec![
        ("zeta", target(TargetType::restCall { interrupt_on_error: true }, "http://z", "1s")),
        ("alpha", target(TargetType::restAsync {}, "http://a", "1s")),
    ]);
    run_v2(&mut z, defs, vec![user_added(&["zeta", "unknown", "alpha"])]);
    // alpha is created first (t1), zeta second (t2)
    assert_eq!(z.executions[0].targets, vec!["t1".to_owned(), "t2".to_owned()]);
}
