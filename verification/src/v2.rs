//! Actions v2: targets and executions.
//!
//! A v2 sync alternates calls to Zitadel with decisions on what the calls
//! answered. [`SyncV2`] holds the decisions; whoever holds the connection to
//! Zitadel makes the calls, in this order:
//!
//! 1. search each defined target by its name ([`SyncV2::next_search`],
//!    [`SyncV2::record_search`]);
//! 2. create and update targets ([`SyncV2::next_upsert`],
//!    [`SyncV2::record_created`]);
//! 3. list the executions and set those that changed
//!    ([`SyncV2::execution_changes`]);
//! 4. delete the targets marked as deleted that Zitadel has
//!    ([`SyncV2::deletions`]).
use vstd::prelude::*;

use crate::name_map::{string_eq, NameMap};
use crate::plan::{
    delete_ids, delete_ids_of, known_ids, lemma_known_created, lemma_known_skip, lemma_known_step,
    names_equal, next_upsert_from, next_upsert_index, plan_id, plan_keeps, resolved_ids,
    sorted_ids, Plan,
};
use crate::text::{lemma_sorted_unique, lemma_views_push, sort_names, sorted, views};
use crate::zitadel::{
    copy_opt_string, CreateTarget, EventCondition, Execution, ExecutionCondition, FoundTarget,
    RequestResponseCondition, TargetCreated, TargetType, UpdateTarget,
};

verus! {

/// Target definition; reflects the HTTP API types exposed by Zitadel. The
/// endpoint is the URL as written out in full.
#[derive(Debug, Clone, PartialEq, Eq)]
pub struct Target {
    pub target_type: TargetType,
    pub timeout: String,
    pub endpoint: String,
}

/// Targets definitions (`targets.yaml`); a target defined as `None` is to be
/// deleted.
pub type Targets = NameMap<Option<Target>>;

/// Execution definitions (`executions.yaml`).
pub type Executions = Vec<Execution>;

/// Whether the target defined locally is the target Zitadel reports: the same
/// type, timeout and endpoint.
pub open spec fn spec_target_is_same(target: Target, found: FoundTarget) -> bool {
    &&& target.target_type == found.target_type
    &&& target.timeout@ == found.timeout@
    &&& target.endpoint@ == found.endpoint@
}

impl PartialEq<FoundTarget> for Target {
    fn eq(&self, other: &FoundTarget) -> (r: bool) {
        self.target_type == other.target_type && self.timeout == other.timeout && self.endpoint
            == other.endpoint
    }
}

impl vstd::std_specs::cmp::PartialEqSpecImpl<FoundTarget> for Target {
    open spec fn obeys_eq_spec() -> bool {
        true
    }

    open spec fn eq_spec(&self, other: &FoundTarget) -> bool {
        spec_target_is_same(*self, *other)
    }
}

/// The update that sets a target to the definition `target`.
pub open spec fn spec_update_target(target: Target) -> UpdateTarget {
    UpdateTarget {
        target_type: Some(target.target_type),
        timeout: Some(target.timeout),
        endpoint: Some(target.endpoint),
        expiration_signing_key: None,
    }
}

impl From<Target> for UpdateTarget {
    fn from(target: Target) -> (r: Self) {
        UpdateTarget {
            target_type: Some(target.target_type),
            timeout: Some(target.timeout),
            endpoint: Some(target.endpoint),
            expiration_signing_key: None,
        }
    }
}

impl vstd::std_specs::convert::FromSpecImpl<Target> for UpdateTarget {
    open spec fn obeys_from_spec() -> bool {
        true
    }

    open spec fn from_spec(target: Target) -> UpdateTarget {
        spec_update_target(target)
    }
}

/// The request that creates the target `target` under the name `name`.
pub open spec fn spec_create_target(target: Target, name: String) -> CreateTarget {
    CreateTarget {
        name: name,
        target_type: target.target_type,
        timeout: target.timeout,
        endpoint: target.endpoint,
    }
}

impl Target {
    /// The request that creates this target under the name `name`.
    pub fn into_create_target(self, name: String) -> (r: CreateTarget)
        ensures
            r == spec_create_target(self, name),
    {
        CreateTarget {
            name,
            target_type: self.target_type,
            timeout: self.timeout,
            endpoint: self.endpoint,
        }
    }

    /// A copy of this target.
    pub fn copy(&self) -> (r: Self)
        ensures
            r == *self,
    {
        Target {
            target_type: self.target_type,
            timeout: self.timeout.clone(),
            endpoint: self.endpoint.clone(),
        }
    }
}

/// Whether two request or response conditions are the same.
pub open spec fn same_request_response(a: RequestResponseCondition, b: RequestResponseCondition) -> bool {
    match (a, b) {
        (RequestResponseCondition::method(x), RequestResponseCondition::method(y)) => x@ == y@,
        (RequestResponseCondition::service(x), RequestResponseCondition::service(y)) => x@ == y@,
        (RequestResponseCondition::all(_), RequestResponseCondition::all(_)) => true,
        _ => false,
    }
}

/// Whether two event conditions are the same.
pub open spec fn same_event(a: EventCondition, b: EventCondition) -> bool {
    match (a, b) {
        (EventCondition::event(x), EventCondition::event(y)) => x@ == y@,
        (EventCondition::group(x), EventCondition::group(y)) => x@ == y@,
        (EventCondition::all(_), EventCondition::all(_)) => true,
        _ => false,
    }
}

/// Whether two execution conditions are the same.
pub open spec fn same_condition(a: ExecutionCondition, b: ExecutionCondition) -> bool {
    match (a, b) {
        (ExecutionCondition::request(x), ExecutionCondition::request(y)) => same_request_response(x, y),
        (ExecutionCondition::response(x), ExecutionCondition::response(y)) => same_request_response(x, y),
        (ExecutionCondition::function { name: x }, ExecutionCondition::function { name: y }) => x@ == y@,
        (ExecutionCondition::event(x), ExecutionCondition::event(y)) => same_event(x, y),
        _ => false,
    }
}

fn request_response_equal(a: &RequestResponseCondition, b: &RequestResponseCondition) -> (r: bool)
    ensures
        r == same_request_response(*a, *b),
{
    match (a, b) {
        (RequestResponseCondition::method(x), RequestResponseCondition::method(y)) => string_eq(x, y),
        (RequestResponseCondition::service(x), RequestResponseCondition::service(y)) => string_eq(x, y),
        (RequestResponseCondition::all(_), RequestResponseCondition::all(_)) => true,
        _ => false,
    }
}

fn event_equal(a: &EventCondition, b: &EventCondition) -> (r: bool)
    ensures
        r == same_event(*a, *b),
{
    match (a, b) {
        (EventCondition::event(x), EventCondition::event(y)) => string_eq(x, y),
        (EventCondition::group(x), EventCondition::group(y)) => string_eq(x, y),
        (EventCondition::all(_), EventCondition::all(_)) => true,
        _ => false,
    }
}

/// Whether two execution conditions are the same.
pub fn conditions_equal(a: &ExecutionCondition, b: &ExecutionCondition) -> (r: bool)
    ensures
        r == same_condition(*a, *b),
{
    match (a, b) {
        (ExecutionCondition::request(x), ExecutionCondition::request(y)) => request_response_equal(x, y),
        (ExecutionCondition::response(x), ExecutionCondition::response(y)) => request_response_equal(x, y),
        (ExecutionCondition::function { name: x }, ExecutionCondition::function { name: y }) => string_eq(x, y),
        (ExecutionCondition::event(x), ExecutionCondition::event(y)) => event_equal(x, y),
        _ => false,
    }
}

impl RequestResponseCondition {
    /// A copy of this condition.
    pub fn copy(&self) -> (r: Self)
        ensures
            r == *self,
    {
        match self {
            RequestResponseCondition::method(x) => RequestResponseCondition::method(x.clone()),
            RequestResponseCondition::service(x) => RequestResponseCondition::service(x.clone()),
            RequestResponseCondition::all(t) => RequestResponseCondition::all(*t),
        }
    }
}

impl EventCondition {
    /// A copy of this condition.
    pub fn copy(&self) -> (r: Self)
        ensures
            r == *self,
    {
        match self {
            EventCondition::event(x) => EventCondition::event(x.clone()),
            EventCondition::group(x) => EventCondition::group(x.clone()),
            EventCondition::all(t) => EventCondition::all(*t),
        }
    }
}

impl ExecutionCondition {
    /// A copy of this condition.
    pub fn copy(&self) -> (r: Self)
        ensures
            r == *self,
    {
        match self {
            ExecutionCondition::request(x) => ExecutionCondition::request(x.copy()),
            ExecutionCondition::response(x) => ExecutionCondition::response(x.copy()),
            ExecutionCondition::function { name } => ExecutionCondition::function { name: name.clone() },
            ExecutionCondition::event(x) => ExecutionCondition::event(x.copy()),
        }
    }
}

/// Zitadel reports an execution on the condition `condition` (the first
/// report of it counts) calling the targets `ids`, counted with repetition, in
/// any order.
pub open spec fn execution_is_current(
    existing: Seq<Execution>,
    condition: ExecutionCondition,
    ids: Seq<Seq<char>>,
) -> bool {
    exists|i: int|
        0 <= i < existing.len() && #[trigger] same_condition(existing[i].condition, condition) && (
        forall|j: int| 0 <= j < i ==> !same_condition(existing[j].condition, condition))
            && views(existing[i].targets@).to_multiset() == ids.to_multiset()
}

/// The execution to set for the definition `execution`, whose targets are
/// named: `None` when Zitadel already calls exactly those targets on its
/// condition, otherwise the execution with the ids of those targets, sorted.
/// Names that `known` does not know are left out.
pub fn plan_execution(
    execution: &Execution,
    known: &NameMap<String>,
    existing: &Vec<Execution>,
) -> (r: Option<Execution>)
    requires
        known.wf(),
    ensures
        ({
            let want = resolved_ids(views(execution.targets@), *known);
            match r {
                None => execution_is_current(existing@, execution.condition, want),
                Some(e) => {
                    &&& !execution_is_current(existing@, execution.condition, want)
                    &&& e.condition == execution.condition
                    &&& sorted(views(e.targets@))
                    &&& views(e.targets@).to_multiset() == want.to_multiset()
                },
            }
        }),
{
    let ids = sorted_ids(&execution.targets, known);
    let ghost want = resolved_ids(views(execution.targets@), *known);
    let n = existing.len();
    let mut i: usize = 0;
    while i < n
        invariant
            n == existing@.len(),
            i <= n,
            forall|j: int| 0 <= j < i ==> !same_condition(existing@[j].condition, execution.condition),
            want == resolved_ids(views(execution.targets@), *known),
            sorted(views(ids@)),
            views(ids@).to_multiset() == want.to_multiset(),
        decreases n - i,
    {
        if conditions_equal(&existing[i].condition, &execution.condition) {
            let mut theirs = copy_names(&existing[i].targets);
            sort_names(&mut theirs);
            if names_equal(&theirs, &ids) {
                proof {
                    assert(same_condition(existing@[i as int].condition, execution.condition));
                }
                return None;
            } else {
                proof {
                    assert forall|p: int|
                        0 <= p < existing@.len() && #[trigger] same_condition(
                            existing@[p].condition,
                            execution.condition,
                        ) && (forall|j: int|
                            0 <= j < p ==> !same_condition(existing@[j].condition, execution.condition))
                        implies views(existing@[p].targets@).to_multiset()
                        != want.to_multiset() by {
                        if p < i {
                        } else if p > i {
                            assert(same_condition(existing@[i as int].condition, execution.condition));
                        } else {
                            if views(existing@[p].targets@).to_multiset() == want.to_multiset() {
                                lemma_sorted_unique(views(theirs@), views(ids@));
                            }
                        }
                    }
                }
                return Some(Execution { condition: execution.condition.copy(), targets: ids });
            }
        }
        i = i + 1;
    }
    Some(Execution { condition: execution.condition.copy(), targets: ids })
}

/// A copy of a list of names.
fn copy_names(v: &Vec<String>) -> (r: Vec<String>)
    ensures
        views(r@) == views(v@),
{
    let n = v.len();
    let mut r: Vec<String> = Vec::new();
    let mut i: usize = 0;
    while i < n
        invariant
            n == v@.len(),
            i <= n,
            views(r@) == views(v@).take(i as int),
        decreases n - i,
    {
        let ghost old_r = r@;
        r.push(v[i].clone());
        proof {
            lemma_views_push(old_r, v@[i as int]);
            assert(views(r@) =~= views(v@).take(i + 1));
        }
        i = i + 1;
    }
    assert(views(v@).take(n as int) =~= views(v@));
    r
}

/// What a sync does with one target.
pub type TargetPlan = Plan<UpdateTarget, CreateTarget>;

/// What a sync does with the target named `name`, defined as `target`, of
/// which Zitadel reports `found`.
pub open spec fn spec_plan_target(
    name: String,
    target: Option<Target>,
    found: Option<FoundTarget>,
) -> TargetPlan {
    match target {
        None => match found {
            Some(f) => Plan::Delete { id: f.id },
            None => Plan::Absent,
        },
        Some(t) => match found {
            Some(f) => if spec_target_is_same(t, f) {
                Plan::Unchanged { id: f.id }
            } else {
                Plan::Update { id: f.id, update: spec_update_target(t) }
            },
            None => Plan::Create { create: spec_create_target(t, name) },
        },
    }
}

/// What a sync does with the target named `name`, defined as `target`, of
/// which Zitadel reports `found`.
pub fn plan_target(name: &String, target: &Option<Target>, found: &Option<FoundTarget>) -> (r:
    TargetPlan)
    ensures
        r == spec_plan_target(*name, *target, *found),
{
    match target {
        None => match found {
            Some(f) => Plan::Delete { id: f.id.clone() },
            None => Plan::Absent,
        },
        Some(t) => match found {
            Some(f) => if *t == *f {
                Plan::Unchanged { id: f.id.clone() }
            } else {
                Plan::Update { id: f.id.clone(), update: UpdateTarget::from(t.copy()) }
            },
            None => Plan::Create { create: t.copy().into_create_target(name.clone()) },
        },
    }
}

/// Where a v2 sync stands.
#[derive(Debug, Clone, Copy, PartialEq, Eq, Structural)]
pub enum SyncV2Stage {
    /// Searching the defined targets by name.
    Searching,
    /// Creating and updating targets.
    Upserting,
    /// Waiting for the answer to the creation of a target.
    AwaitingCreated,
    /// Setting executions.
    Executions,
    /// Deleting targets.
    Deleting,
    /// Done.
    Finished,
}

/// A change to a target: the call that makes it.
#[derive(Debug, Clone, PartialEq, Eq)]
pub enum TargetUpsert {
    /// Update the target with the id `id`.
    Update { id: String, update: UpdateTarget },
    /// Create a target; the answer is to be recorded.
    Create { create: CreateTarget },
}

/// `change` is what a sync does with the execution `execution` when Zitadel
/// reports the executions `existing`.
pub open spec fn execution_change_is(
    change: Option<Execution>,
    execution: Execution,
    known: NameMap<String>,
    existing: Seq<Execution>,
) -> bool {
    let want = resolved_ids(views(execution.targets@), known);
    match change {
        None => execution_is_current(existing, execution.condition, want),
        Some(e) => {
            &&& !execution_is_current(existing, execution.condition, want)
            &&& e.condition == execution.condition
            &&& sorted(views(e.targets@))
            &&& views(e.targets@).to_multiset() == want.to_multiset()
        },
    }
}

/// Decisions of a v2 sync.
pub struct SyncV2 {
    targets: Targets,
    executions: Executions,
    found: Vec<Option<FoundTarget>>,
    plans: Vec<TargetPlan>,
    known: NameMap<String>,
    cursor: usize,
    stage: SyncV2Stage,
}

impl SyncV2 {
    /// The targets defined.
    pub closed spec fn defined_targets(&self) -> Targets {
        self.targets
    }

    /// The executions defined.
    pub closed spec fn defined_executions(&self) -> Seq<Execution> {
        self.executions@
    }

    /// What Zitadel reported of each defined target, so far.
    pub closed spec fn reported(&self) -> Seq<Option<FoundTarget>> {
        self.found@
    }

    /// What is done with each defined target.
    pub closed spec fn plans(&self) -> Seq<TargetPlan> {
        self.plans@
    }

    /// The ids of the targets by name, as far as they are known.
    pub closed spec fn known(&self) -> NameMap<String> {
        self.known
    }

    /// The position reached in the current stage.
    pub closed spec fn cursor(&self) -> int {
        self.cursor as int
    }

    /// The current stage.
    pub closed spec fn stage(&self) -> SyncV2Stage {
        self.stage
    }

    /// The sync is in a consistent state.
    pub open spec fn inv(&self) -> bool {
        let keys = self.defined_targets().keys();
        let n = keys.len();
        &&& self.defined_targets().wf()
        &&& self.reported().len() <= n
        &&& self.stage() == SyncV2Stage::Searching ==> self.known().wf()
        &&& self.stage() != SyncV2Stage::Searching ==> {
            &&& self.reported().len() == n
            &&& self.plans().len() == n
            &&& forall|i: int|
                0 <= i < n ==> #[trigger] self.plans()[i] == spec_plan_target(
                    self.defined_targets().key_strings()[i],
                    self.defined_targets().values()[i],
                    self.reported()[i],
                )
        }
        &&& self.stage() == SyncV2Stage::Upserting ==> {
            &&& 0 <= self.cursor() <= n
            &&& known_ids(self.known(), keys, self.plans(), self.cursor())
        }
        &&& self.stage() == SyncV2Stage::AwaitingCreated ==> {
            &&& 0 <= self.cursor() < n
            &&& self.plans()[self.cursor()] is Create
            &&& known_ids(self.known(), keys, self.plans(), self.cursor())
        }
        &&& (self.stage() == SyncV2Stage::Executions || self.stage() == SyncV2Stage::Deleting
            || self.stage() == SyncV2Stage::Finished) ==> known_ids(
            self.known(),
            keys,
            self.plans(),
            n as int,
        )
    }

    /// A sync of `targets` and `executions`.
    pub fn new(targets: Targets, executions: Executions) -> (s: Self)
        requires
            targets.wf(),
        ensures
            s.inv(),
            s.stage() == SyncV2Stage::Searching,
            s.defined_targets() == targets,
            s.defined_executions() == executions@,
            s.reported() == Seq::<Option<FoundTarget>>::empty(),
    {
        let s = SyncV2 {
            targets,
            executions,
            found: Vec::new(),
            plans: Vec::new(),
            known: NameMap::new(),
            cursor: 0,
            stage: SyncV2Stage::Searching,
        };
        assert(s.reported() =~= Seq::<Option<FoundTarget>>::empty());
        s
    }

    /// The current stage.
    pub fn current_stage(&self) -> (r: SyncV2Stage)
        ensures
            r == self.stage(),
    {
        self.stage
    }

    /// The name of the next target to search; `None` when all are searched,
    /// and the sync then moves on to creating and updating targets.
    pub fn next_search(&mut self) -> (r: Option<String>)
        requires
            old(self).inv(),
            old(self).stage() == SyncV2Stage::Searching,
        ensures
            final(self).inv(),
            final(self).defined_targets() == old(self).defined_targets(),
            final(self).defined_executions() == old(self).defined_executions(),
            final(self).reported() == old(self).reported(),
            match r {
                Some(name) => {
                    &&& old(self).reported().len() < old(self).defined_targets().keys().len()
                    &&& name == old(self).defined_targets().key_strings()[old(
                        self,
                    ).reported().len() as int]
                    &&& final(self).stage() == SyncV2Stage::Searching
                },
                None => {
                    &&& old(self).reported().len() == old(self).defined_targets().keys().len()
                    &&& final(self).stage() == SyncV2Stage::Upserting
                    &&& final(self).cursor() == 0
                },
            },
    {
        let n = self.targets.len();
        if self.found.len() < n {
            let i = self.found.len();
            return Some(self.targets.key_at(i).clone());
        }
        let ghost keys = self.targets.keys();
        proof {
            self.targets.lemma_key_strings();
        }
        let mut plans: Vec<TargetPlan> = Vec::new();
        let mut known: NameMap<String> = NameMap::new();
        let mut i: usize = 0;
        while i < n
            invariant
                self.targets.wf(),
                keys == self.targets.keys(),
                keys == views(self.targets.key_strings()),
                n == keys.len(),
                n == self.found@.len(),
                i <= n,
                plans@.len() == i,
                forall|p: int|
                    0 <= p < i ==> #[trigger] plans@[p] == spec_plan_target(
                        self.targets.key_strings()[p],
                        self.targets.values()[p],
                        self.found@[p],
                    ),
                known.wf(),
                forall|x: Seq<char>| #[trigger]
                    known.contains_key(x) <==> exists|p: int|
                        0 <= p < i && #[trigger] keys[p] == x && plan_keeps(plans@[p]),
                forall|p: int|
                    0 <= p < i && plan_keeps(plans@[p]) ==> known.value_of(
                        #[trigger] keys[p],
                    ) == plan_id(plans@[p]),
            decreases n - i,
        {
            let key = self.targets.key_at(i);
            let plan = plan_target(key, self.targets.value_at(i), &self.found[i]);
            let ghost old_known = known;
            let ghost kept = plan_keeps(plan);
            match &plan {
                Plan::Unchanged { id } => {
                    known.insert(key.clone(), id.clone());
                },
                Plan::Update { id, .. } => {
                    known.insert(key.clone(), id.clone());
                },
                _ => {},
            }
            proof {
                lemma_known_step(old_known, known, keys, plans@.push(plan), i as int, kept);
            }
            plans.push(plan);
            i = i + 1;
        }
        self.plans = plans;
        self.known = known;
        self.cursor = 0;
        self.stage = SyncV2Stage::Upserting;
        proof {
            assert forall|x: Seq<char>| #[trigger] self.known.contains_key(x) <==> exists|p: int|
                0 <= p < n && #[trigger] keys[p] == x && (plan_keeps(self.plans@[p]) || (
                self.plans@[p] is Create && p < 0)) by {
                if self.known.contains_key(x) {
                    let p = choose|p: int|
                        0 <= p < n && #[trigger] keys[p] == x && plan_keeps(self.plans@[p]);
                    assert(keys[p] == x);
                }
            }
        }
        None
    }

    /// Records what Zitadel reported of the target named by
    /// [`SyncV2::next_search`].
    pub fn record_search(&mut self, found: Option<FoundTarget>)
        requires
            old(self).inv(),
            old(self).stage() == SyncV2Stage::Searching,
            old(self).reported().len() < old(self).defined_targets().keys().len(),
        ensures
            final(self).inv(),
            final(self).stage() == SyncV2Stage::Searching,
            final(self).defined_targets() == old(self).defined_targets(),
            final(self).defined_executions() == old(self).defined_executions(),
            final(self).reported() == old(self).reported().push(found),
    {
        self.found.push(found);
    }

    /// The next target to create or update, in the order of the names; `None`
    /// when there is none left, and the sync then moves on to the executions.
    pub fn next_upsert(&mut self) -> (r: Option<TargetUpsert>)
        requires
            old(self).inv(),
            old(self).stage() == SyncV2Stage::Upserting,
        ensures
            final(self).inv(),
            final(self).defined_targets() == old(self).defined_targets(),
            final(self).defined_executions() == old(self).defined_executions(),
            final(self).reported() == old(self).reported(),
            final(self).plans() == old(self).plans(),
            final(self).known() == old(self).known(),
            ({
                let j = next_upsert_index(old(self).plans(), old(self).cursor());
                let plans = old(self).plans();
                match r {
                    None => {
                        &&& j == plans.len()
                        &&& final(self).stage() == SyncV2Stage::Executions
                    },
                    Some(TargetUpsert::Update { id, update }) => {
                        &&& j < plans.len()
                        &&& plans[j] == (TargetPlan::Update { id: id, update: update })
                        &&& final(self).stage() == SyncV2Stage::Upserting
                        &&& final(self).cursor() == j + 1
                    },
                    Some(TargetUpsert::Create { create }) => {
                        &&& j < plans.len()
                        &&& plans[j] == (TargetPlan::Create { create: create })
                        &&& final(self).stage() == SyncV2Stage::AwaitingCreated
                        &&& final(self).cursor() == j
                    },
                }
            }),
    {
        let ghost keys = self.targets.keys();
        let ghost start = self.cursor as int;
        let j = next_upsert_from(&self.plans, self.cursor);
        proof {
            lemma_known_skip(self.known, keys, self.plans@, start, j as int);
        }
        if j < self.plans.len() {
            match &self.plans[j] {
                Plan::Update { id, update } => {
                    let r = TargetUpsert::Update { id: id.clone(), update: update.copy() };
                    self.cursor = j + 1;
                    proof {
                        lemma_known_skip(self.known, keys, self.plans@, j as int, j + 1);
                    }
                    return Some(r);
                },
                Plan::Create { create } => {
                    let r = TargetUpsert::Create { create: create.copy() };
                    self.cursor = j;
                    self.stage = SyncV2Stage::AwaitingCreated;
                    return Some(r);
                },
                _ => {
                    proof {
                        assert(false);
                    }
                    return None;
                },
            }
        }
        self.cursor = 0;
        self.stage = SyncV2Stage::Executions;
        None
    }

    /// Records what Zitadel answered to the creation of the target that
    /// [`SyncV2::next_upsert`] gave.
    pub fn record_created(&mut self, created: TargetCreated)
        requires
            old(self).inv(),
            old(self).stage() == SyncV2Stage::AwaitingCreated,
        ensures
            final(self).inv(),
            final(self).stage() == SyncV2Stage::Upserting,
            final(self).cursor() == old(self).cursor() + 1,
            final(self).defined_targets() == old(self).defined_targets(),
            final(self).defined_executions() == old(self).defined_executions(),
            final(self).reported() == old(self).reported(),
            final(self).plans() == old(self).plans(),
            final(self).known().to_map() == old(self).known().to_map().insert(
                old(self).defined_targets().keys()[old(self).cursor()],
                created.id,
            ),
    {
        let c = self.cursor;
        let n = self.targets.len();
        assert(c < n);
        let ghost keys = self.targets.keys();
        let ghost old_known = self.known;
        let key = self.targets.key_at(c).clone();
        self.known.insert(key, created.id);
        proof {
            lemma_known_created(old_known, self.known, keys, self.plans@, c as int);
        }
        self.cursor = c + 1;
        self.stage = SyncV2Stage::Upserting;
    }

    /// The executions to set, given the executions Zitadel reports: for each
    /// defined execution, in order, `None` when Zitadel already calls exactly
    /// the targets defined for its condition, otherwise the execution with
    /// the ids of those targets, sorted. The sync then moves on to deleting
    /// targets.
    pub fn execution_changes(&mut self, existing: &Vec<Execution>) -> (r: Vec<Option<Execution>>)
        requires
            old(self).inv(),
            old(self).stage() == SyncV2Stage::Executions,
        ensures
            final(self).inv(),
            final(self).stage() == SyncV2Stage::Deleting,
            final(self).defined_targets() == old(self).defined_targets(),
            final(self).defined_executions() == old(self).defined_executions(),
            final(self).reported() == old(self).reported(),
            final(self).plans() == old(self).plans(),
            final(self).known() == old(self).known(),
            r@.len() == old(self).defined_executions().len(),
            forall|i: int|
                0 <= i < r@.len() ==> execution_change_is(
                    #[trigger] r@[i],
                    old(self).defined_executions()[i],
                    old(self).known(),
                    existing@,
                ),
    {
        let n = self.executions.len();
        let mut r: Vec<Option<Execution>> = Vec::new();
        let mut i: usize = 0;
        while i < n
            invariant
                n == self.executions@.len(),
                i <= n,
                r@.len() == i,
                self.known.wf(),
                forall|q: int|
                    0 <= q < i ==> execution_change_is(
                        #[trigger] r@[q],
                        self.executions@[q],
                        self.known,
                        existing@,
                    ),
            decreases n - i,
        {
            r.push(plan_execution(&self.executions[i], &self.known, existing));
            i = i + 1;
        }
        self.stage = SyncV2Stage::Deleting;
        r
    }

    /// The ids of the targets to delete: those marked as deleted that Zitadel
    /// has, in the order of their names. The sync is then finished.
    pub fn deletions(&mut self) -> (r: Vec<String>)
        requires
            old(self).inv(),
            old(self).stage() == SyncV2Stage::Deleting,
        ensures
            final(self).inv(),
            final(self).stage() == SyncV2Stage::Finished,
            views(r@) == delete_ids(old(self).plans()),
            final(self).defined_targets() == old(self).defined_targets(),
            final(self).defined_executions() == old(self).defined_executions(),
            final(self).reported() == old(self).reported(),
            final(self).plans() == old(self).plans(),
            final(self).known() == old(self).known(),
    {
        self.stage = SyncV2Stage::Finished;
        delete_ids_of(&self.plans)
    }
}

impl UpdateTarget {
    /// A copy of this request.
    pub fn copy(&self) -> (r: Self)
        ensures
            r == *self,
    {
        UpdateTarget {
            target_type: self.target_type,
            timeout: copy_opt_string(&self.timeout),
            endpoint: copy_opt_string(&self.endpoint),
            expiration_signing_key: copy_opt_string(&self.expiration_signing_key),
        }
    }
}

impl CreateTarget {
    /// A copy of this request.
    pub fn copy(&self) -> (r: Self)
        ensures
            r == *self,
    {
        CreateTarget {
            name: self.name.clone(),
            target_type: self.target_type,
            timeout: self.timeout.clone(),
            endpoint: self.endpoint.clone(),
        }
    }
}

} // verus!
