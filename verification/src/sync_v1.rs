//! Syncing v1 actions and flows with a running Zitadel instance.
//!
//! A sync alternates calls to Zitadel with decisions on what the calls
//! answered. [`SyncV1`] holds the decisions: it says which call comes next and
//! takes what the call answered. Whoever holds the connection to Zitadel makes
//! the calls, in this order:
//!
//! 1. search each defined action by its name ([`SyncV1::next_search`],
//!    [`SyncV1::record_search`]);
//! 2. create and update actions ([`SyncV1::next_upsert`],
//!    [`SyncV1::record_created`]);
//! 3. for each flow, get its triggers and set those that changed
//!    ([`SyncV1::next_flow`], [`SyncV1::flow_changes`]);
//! 4. delete the actions marked as deleted that Zitadel has
//!    ([`SyncV1::deletions`]).
use vstd::prelude::*;

use crate::loading::{Actions, Flows};
use crate::name_map::NameMap;
use crate::plan::{
    delete_ids, delete_ids_of, known_ids, lemma_known_created, lemma_known_skip, lemma_known_step,
    next_upsert_from, next_upsert_index, plan_action, plan_id, plan_keeps, plan_trigger,
    resolved_ids, spec_plan_action, trigger_is_current, ActionPlan, Plan,
};
use crate::text::{sorted, views};
use crate::zitadel::{
    copy_opt_string, ActionCreate, ActionSearch, ActionUpdate, GetTriggersResFlowAction,
    LoadedScript,
};

verus! {

/// Where a sync stands.
#[derive(Debug, Clone, Copy, PartialEq, Eq, Structural)]
pub enum SyncStage {
    /// Searching the defined actions by name.
    Searching,
    /// Creating and updating actions.
    Upserting,
    /// Waiting for the id of a created action.
    AwaitingCreated,
    /// Setting the triggers of flows.
    Flows,
    /// Deleting actions.
    Deleting,
    /// Done.
    Finished,
}

/// A change to an action: the call that makes it.
#[derive(Debug, Clone, PartialEq, Eq)]
pub enum Upsert {
    /// Update the action with the id `id`.
    Update { id: String, update: ActionUpdate },
    /// Create an action; its id is to be recorded.
    Create { create: ActionCreate },
}

/// The actions to set on one trigger of one flow.
#[derive(Debug, Clone, PartialEq, Eq)]
pub struct TriggerChange {
    pub flow_type: String,
    pub trigger_type: String,
    pub action_ids: Vec<String>,
}

/// Decisions of a v1 sync.
pub struct SyncV1 {
    org_id: Option<String>,
    actions: Actions<LoadedScript>,
    flows: Flows,
    found: Vec<Option<ActionSearch>>,
    plans: Vec<ActionPlan>,
    known: NameMap<String>,
    cursor: usize,
    stage: SyncStage,
}

impl SyncV1 {
    /// The organization synced.
    pub closed spec fn org(&self) -> Option<String> {
        self.org_id
    }

    /// The actions defined.
    pub closed spec fn defined_actions(&self) -> Actions<LoadedScript> {
        self.actions
    }

    /// The flows defined.
    pub closed spec fn defined_flows(&self) -> Flows {
        self.flows
    }

    /// What Zitadel reported of each defined action, so far.
    pub closed spec fn reported(&self) -> Seq<Option<ActionSearch>> {
        self.found@
    }

    /// What is done with each defined action.
    pub closed spec fn plans(&self) -> Seq<ActionPlan> {
        self.plans@
    }

    /// The ids of the actions by name, as far as they are known.
    pub closed spec fn known(&self) -> NameMap<String> {
        self.known
    }

    /// The position reached in the current stage.
    pub closed spec fn cursor(&self) -> int {
        self.cursor as int
    }

    /// The current stage.
    pub closed spec fn stage(&self) -> SyncStage {
        self.stage
    }

    /// The sync is in a consistent state.
    pub open spec fn inv(&self) -> bool {
        let keys = self.defined_actions().keys();
        let n = keys.len();
        &&& self.defined_actions().wf()
        &&& self.reported().len() <= n
        &&& self.stage() == SyncStage::Searching ==> self.known().wf()
        &&& self.stage() != SyncStage::Searching ==> {
            &&& self.reported().len() == n
            &&& self.plans().len() == n
            &&& forall|i: int|
                0 <= i < n ==> #[trigger] self.plans()[i] == spec_plan_action(
                    self.defined_actions().key_strings()[i],
                    self.defined_actions().values()[i],
                    self.reported()[i],
                )
        }
        &&& self.stage() == SyncStage::Upserting ==> {
            &&& 0 <= self.cursor() <= n
            &&& known_ids(self.known(), keys, self.plans(), self.cursor())
        }
        &&& self.stage() == SyncStage::AwaitingCreated ==> {
            &&& 0 <= self.cursor() < n
            &&& self.plans()[self.cursor()] is Create
            &&& known_ids(self.known(), keys, self.plans(), self.cursor())
        }
        &&& (self.stage() == SyncStage::Flows || self.stage() == SyncStage::Deleting
            || self.stage() == SyncStage::Finished) ==> known_ids(
            self.known(),
            keys,
            self.plans(),
            n as int,
        )
        &&& self.stage() == SyncStage::Flows ==> 0 <= self.cursor()
            <= self.defined_flows().keys().len()
    }

    /// A sync of `actions` and `flows` in the organization `org_id` (or the
    /// default one).
    pub fn new(org_id: Option<String>, actions: Actions<LoadedScript>, flows: Flows) -> (s: Self)
        requires
            actions.wf(),
        ensures
            s.inv(),
            s.stage() == SyncStage::Searching,
            s.org() == org_id,
            s.defined_actions() == actions,
            s.defined_flows() == flows,
            s.reported() == Seq::<Option<ActionSearch>>::empty(),
    {
        let s = SyncV1 {
            org_id,
            actions,
            flows,
            found: Vec::new(),
            plans: Vec::new(),
            known: NameMap::new(),
            cursor: 0,
            stage: SyncStage::Searching,
        };
        assert(s.reported() =~= Seq::<Option<ActionSearch>>::empty());
        s
    }

    /// The organization synced.
    pub fn org_id(&self) -> (r: Option<String>)
        ensures
            r == self.org(),
    {
        copy_opt_string(&self.org_id)
    }

    /// The current stage.
    pub fn current_stage(&self) -> (r: SyncStage)
        ensures
            r == self.stage(),
    {
        self.stage
    }

    /// The name of the next action to search; `None` when all are searched,
    /// and the sync then moves on to creating and updating actions.
    pub fn next_search(&mut self) -> (r: Option<String>)
        requires
            old(self).inv(),
            old(self).stage() == SyncStage::Searching,
        ensures
            final(self).inv(),
            final(self).org() == old(self).org(),
            final(self).defined_actions() == old(self).defined_actions(),
            final(self).defined_flows() == old(self).defined_flows(),
            final(self).reported() == old(self).reported(),
            match r {
                Some(name) => {
                    &&& old(self).reported().len() < old(self).defined_actions().keys().len()
                    &&& name == old(self).defined_actions().key_strings()[old(
                        self,
                    ).reported().len() as int]
                    &&& final(self).stage() == SyncStage::Searching
                },
                None => {
                    &&& old(self).reported().len() == old(self).defined_actions().keys().len()
                    &&& final(self).stage() == SyncStage::Upserting
                    &&& final(self).cursor() == 0
                },
            },
    {
        let n = self.actions.len();
        if self.found.len() < n {
            let i = self.found.len();
            return Some(self.actions.key_at(i).clone());
        }
        let ghost keys = self.actions.keys();
        proof {
            self.actions.lemma_key_strings();
        }
        let mut plans: Vec<ActionPlan> = Vec::new();
        let mut known: NameMap<String> = NameMap::new();
        let mut i: usize = 0;
        while i < n
            invariant
                self.actions.wf(),
                keys == self.actions.keys(),
                keys == views(self.actions.key_strings()),
                n == keys.len(),
                n == self.found@.len(),
                i <= n,
                plans@.len() == i,
                forall|p: int|
                    0 <= p < i ==> #[trigger] plans@[p] == spec_plan_action(
                        self.actions.key_strings()[p],
                        self.actions.values()[p],
                        self.found@[p],
                    ),
                known.wf(),
                forall|x: Seq<char>| #[trigger]
                    known.contains_key(x) <==> exists|p: int|
                        0 <= p < i && #[trigger] keys[p] == x && plan_keeps(plans@[p]),
                forall|p: int|
                    0 <= p < i && plan_keeps(plans@[p]) ==> known.value_of(#[trigger] keys[p])
                        == plan_id(plans@[p]),
            decreases n - i,
        {
            let key = self.actions.key_at(i);
            let plan = plan_action(key, self.actions.value_at(i), &self.found[i]);
            let ghost old_known = known;
            let ghost kept = plan_keeps(plan);
            match &plan {
                Plan::Unchanged { id } => {
                    known.insert(key.clone(), id.clone());
                },
                Plan::Update { id, .. } => {
                    known.insert(key.clone(), id.clone());
                },
                _ => {},
            }
            proof {
                lemma_known_step(old_known, known, keys, plans@.push(plan), i as int, kept);
            }
            plans.push(plan);
            i = i + 1;
        }
        self.plans = plans;
        self.known = known;
        self.cursor = 0;
        self.stage = SyncStage::Upserting;
        proof {
            assert forall|x: Seq<char>| #[trigger] self.known.contains_key(x) <==> exists|p: int|
                0 <= p < n && #[trigger] keys[p] == x && (plan_keeps(self.plans@[p]) || (
                self.plans@[p] is Create && p < 0)) by {
                if self.known.contains_key(x) {
                    let p = choose|p: int| 0 <= p < n && #[trigger] keys[p] == x && plan_keeps(
                        self.plans@[p],
                    );
                    assert(keys[p] == x);
                }
            }
        }
        None
    }

    /// Records what Zitadel reported of the action named by
    /// [`SyncV1::next_search`].
    pub fn record_search(&mut self, found: Option<ActionSearch>)
        requires
            old(self).inv(),
            old(self).stage() == SyncStage::Searching,
            old(self).reported().len() < old(self).defined_actions().keys().len(),
        ensures
            final(self).inv(),
            final(self).stage() == SyncStage::Searching,
            final(self).org() == old(self).org(),
            final(self).defined_actions() == old(self).defined_actions(),
            final(self).defined_flows() == old(self).defined_flows(),
            final(self).reported() == old(self).reported().push(found),
    {
        self.found.push(found);
    }

    /// The next action to create or update, in the order of the names; `None`
    /// when there is none left, and the sync then moves on to the flows.
    pub fn next_upsert(&mut self) -> (r: Option<Upsert>)
        requires
            old(self).inv(),
            old(self).stage() == SyncStage::Upserting,
        ensures
            final(self).inv(),
            final(self).org() == old(self).org(),
            final(self).defined_actions() == old(self).defined_actions(),
            final(self).defined_flows() == old(self).defined_flows(),
            final(self).reported() == old(self).reported(),
            final(self).plans() == old(self).plans(),
            final(self).known() == old(self).known(),
            ({
                let j = next_upsert_index(old(self).plans(), old(self).cursor());
                let plans = old(self).plans();
                match r {
                    None => {
                        &&& j == plans.len()
                        &&& final(self).stage() == SyncStage::Flows
                        &&& final(self).cursor() == 0
                    },
                    Some(Upsert::Update { id, update }) => {
                        &&& j < plans.len()
                        &&& plans[j] == (ActionPlan::Update { id: id, update: update })
                        &&& final(self).stage() == SyncStage::Upserting
                        &&& final(self).cursor() == j + 1
                    },
                    Some(Upsert::Create { create }) => {
                        &&& j < plans.len()
                        &&& plans[j] == (ActionPlan::Create { create: create })
                        &&& final(self).stage() == SyncStage::AwaitingCreated
                        &&& final(self).cursor() == j
                    },
                }
            }),
    {
        let ghost keys = self.actions.keys();
        let ghost start = self.cursor as int;
        let j = next_upsert_from(&self.plans, self.cursor);
        if j < self.plans.len() {
            match &self.plans[j] {
                Plan::Update { id, update } => {
                    let r = Upsert::Update { id: id.clone(), update: update.copy() };
                    self.cursor = j + 1;
                    proof {
                        lemma_known_skip(self.known, keys, self.plans@, start, j + 1);
                    }
                    return Some(r);
                },
                Plan::Create { create } => {
                    let r = Upsert::Create { create: create.copy() };
                    self.cursor = j;
                    self.stage = SyncStage::AwaitingCreated;
                    proof {
                        lemma_known_skip(self.known, keys, self.plans@, start, j as int);
                    }
                    return Some(r);
                },
                _ => {
                    proof {
                        assert(false);
                    }
                    return None;
                },
            }
        }
        self.cursor = 0;
        self.stage = SyncStage::Flows;
        proof {
            lemma_known_skip(self.known, keys, self.plans@, start, j as int);
        }
        None
    }

    /// Records the id of the action created by the call that
    /// [`SyncV1::next_upsert`] gave.
    pub fn record_created(&mut self, id: String)
        requires
            old(self).inv(),
            old(self).stage() == SyncStage::AwaitingCreated,
        ensures
            final(self).inv(),
            final(self).stage() == SyncStage::Upserting,
            final(self).cursor() == old(self).cursor() + 1,
            final(self).org() == old(self).org(),
            final(self).defined_actions() == old(self).defined_actions(),
            final(self).defined_flows() == old(self).defined_flows(),
            final(self).reported() == old(self).reported(),
            final(self).plans() == old(self).plans(),
            final(self).known().to_map() == old(self).known().to_map().insert(
                old(self).defined_actions().keys()[old(self).cursor()],
                id,
            ),
    {
        let c = self.cursor;
        let n = self.actions.len();
        assert(c < n);
        let ghost keys = self.actions.keys();
        let ghost old_known = self.known;
        let key = self.actions.key_at(c).clone();
        self.known.insert(key, id);
        proof {
            lemma_known_created(old_known, self.known, keys, self.plans@, c as int);
        }
        self.cursor = c + 1;
        self.stage = SyncStage::Upserting;
    }

    /// The next flow type whose triggers to get; `None` when all flows are
    /// done, and the sync then moves on to deleting actions.
    pub fn next_flow(&mut self) -> (r: Option<String>)
        requires
            old(self).inv(),
            old(self).stage() == SyncStage::Flows,
        ensures
            final(self).inv(),
            match r {
                Some(flow_type) => {
                    &&& old(self).cursor() < old(self).defined_flows().keys().len()
                    &&& flow_type == old(self).defined_flows().key_strings()[old(self).cursor()]
                    &&& *final(self) == *old(self)
                },
                None => {
                    &&& old(self).cursor() == old(self).defined_flows().keys().len()
                    &&& final(self).stage() == SyncStage::Deleting
                    &&& final(self).org() == old(self).org()
                    &&& final(self).defined_actions() == old(self).defined_actions()
                    &&& final(self).defined_flows() == old(self).defined_flows()
                    &&& final(self).reported() == old(self).reported()
                    &&& final(self).plans() == old(self).plans()
                    &&& final(self).known() == old(self).known()
                },
            },
    {
        if self.cursor < self.flows.len() {
            Some(self.flows.key_at(self.cursor).clone())
        } else {
            self.stage = SyncStage::Deleting;
            None
        }
    }

    /// The triggers to set on the flow named by [`SyncV1::next_flow`], given
    /// the triggers Zitadel reports on it: for each trigger type of the flow,
    /// in order, `None` when Zitadel already runs exactly the actions defined
    /// for it, otherwise the ids of those actions, sorted.
    pub fn flow_changes(&mut self, existing: &Vec<GetTriggersResFlowAction>) -> (r: Vec<
        Option<TriggerChange>,
    >)
        requires
            old(self).inv(),
            old(self).stage() == SyncStage::Flows,
            old(self).cursor() < old(self).defined_flows().keys().len(),
        ensures
            final(self).inv(),
            final(self).stage() == SyncStage::Flows,
            final(self).cursor() == old(self).cursor() + 1,
            final(self).org() == old(self).org(),
            final(self).defined_actions() == old(self).defined_actions(),
            final(self).defined_flows() == old(self).defined_flows(),
            final(self).reported() == old(self).reported(),
            final(self).plans() == old(self).plans(),
            final(self).known() == old(self).known(),
            ({
                let flows = old(self).defined_flows();
                let triggers = flows.values()[old(self).cursor()];
                &&& r@.len() == triggers.keys().len()
                &&& forall|t: int|
                    0 <= t < r@.len() ==> trigger_change_is(
                        #[trigger] r@[t],
                        flows.keys()[old(self).cursor()],
                        triggers.keys()[t],
                        views(triggers.values()[t]@),
                        old(self).known(),
                        existing@,
                    )
            }),
    {
        let f = self.cursor;
        let nf = self.flows.len();
        assert(f < nf);
        let flow_type = self.flows.key_at(f);
        let triggers = self.flows.value_at(f);
        let nt = triggers.len();
        let mut r: Vec<Option<TriggerChange>> = Vec::new();
        let mut t: usize = 0;
        while t < nt
            invariant
                nt == triggers.keys().len(),
                nt == triggers.values().len(),
                t <= nt,
                r@.len() == t,
                self.known.wf(),
                forall|q: int|
                    0 <= q < t ==> trigger_change_is(
                        #[trigger] r@[q],
                        flow_type@,
                        triggers.keys()[q],
                        views(triggers.values()[q]@),
                        self.known,
                        existing@,
                    ),
            decreases nt - t,
        {
            let trigger_type = triggers.key_at(t);
            let names = triggers.value_at(t);
            let change = match plan_trigger(trigger_type, names, &self.known, existing) {
                None => None,
                Some(ids) => Some(
                    TriggerChange {
                        flow_type: flow_type.clone(),
                        trigger_type: trigger_type.clone(),
                        action_ids: ids,
                    },
                ),
            };
            r.push(change);
            t = t + 1;
        }
        self.cursor = f + 1;
        r
    }

    /// The ids of the actions to delete: those marked as deleted that Zitadel
    /// has, in the order of their names. The sync is then finished.
    pub fn deletions(&mut self) -> (r: Vec<String>)
        requires
            old(self).inv(),
            old(self).stage() == SyncStage::Deleting,
        ensures
            final(self).inv(),
            final(self).stage() == SyncStage::Finished,
            views(r@) == delete_ids(old(self).plans()),
            final(self).org() == old(self).org(),
            final(self).defined_actions() == old(self).defined_actions(),
            final(self).defined_flows() == old(self).defined_flows(),
            final(self).reported() == old(self).reported(),
            final(self).plans() == old(self).plans(),
            final(self).known() == old(self).known(),
    {
        self.stage = SyncStage::Finished;
        delete_ids_of(&self.plans)
    }
}

/// `change` is what a sync does with the trigger `trigger_type` of the flow
/// `flow_type`, which is to run the actions named `names`, when Zitadel
/// reports the triggers `existing` of that flow.
pub open spec fn trigger_change_is(
    change: Option<TriggerChange>,
    flow_type: Seq<char>,
    trigger_type: Seq<char>,
    names: Seq<Seq<char>>,
    known: NameMap<String>,
    existing: Seq<GetTriggersResFlowAction>,
) -> bool {
    let want = resolved_ids(names, known);
    match change {
        None => trigger_is_current(existing, trigger_type, want),
        Some(c) => {
            &&& !trigger_is_current(existing, trigger_type, want)
            &&& c.flow_type@ == flow_type
            &&& c.trigger_type@ == trigger_type
            &&& sorted(views(c.action_ids@))
            &&& views(c.action_ids@).to_multiset() == want.to_multiset()
        },
    }
}

} // verus!
