//! Creating v1 actions and flows in a fresh organization or instance.
//!
//! Nothing is searched or compared: every defined action is created and then
//! every trigger of every flow is set. Zitadel may refuse when actions or
//! triggers exist already. [`CreateOnlyV1`] holds the decisions; whoever holds
//! the connection to Zitadel makes the calls:
//!
//! 1. create each defined action ([`CreateOnlyV1::next_create`],
//!    [`CreateOnlyV1::record_created`]);
//! 2. for each flow, set each of its triggers
//!    ([`CreateOnlyV1::trigger_settings`]).
use vstd::prelude::*;

use crate::loading::{Actions, Flows};
use crate::name_map::NameMap;
use crate::plan::{resolved_ids, sorted_ids};
use crate::sync_v1::TriggerChange;
use crate::text::{lemma_name_lt_irreflexive, name_lt, sorted, strictly_sorted, views};
use crate::zitadel::{copy_opt_string, Action, ActionCreate, LoadedScript};

verus! {

/// The first position from `i` on that defines an action (rather than
/// marking one as deleted).
pub open spec fn next_defined_index(values: Seq<Option<Action<LoadedScript>>>, i: int) -> int
    decreases values.len() - i,
{
    if i >= values.len() {
        values.len() as int
    } else if values[i] is Some {
        i
    } else {
        next_defined_index(values, i + 1)
    }
}

/// `known` maps exactly the names of the actions defined before position
/// `upto` (to the ids Zitadel gave them).
pub open spec fn created_names(
    known: NameMap<String>,
    keys: Seq<Seq<char>>,
    values: Seq<Option<Action<LoadedScript>>>,
    upto: int,
) -> bool {
    &&& known.wf()
    &&& forall|x: Seq<char>| #[trigger]
        known.contains_key(x) <==> exists|i: int|
            0 <= i < upto && i < keys.len() && #[trigger] keys[i] == x && values[i] is Some
}

/// Decisions of a v1 creation.
pub struct CreateOnlyV1 {
    org_id: Option<String>,
    actions: Actions<LoadedScript>,
    flows: Flows,
    known: NameMap<String>,
    cursor: usize,
    awaiting: bool,
}

impl CreateOnlyV1 {
    /// The organization created in.
    pub closed spec fn org(&self) -> Option<String> {
        self.org_id
    }

    /// The actions defined.
    pub closed spec fn defined_actions(&self) -> Actions<LoadedScript> {
        self.actions
    }

    /// The flows defined.
    pub closed spec fn defined_flows(&self) -> Flows {
        self.flows
    }

    /// The ids of the actions created so far, by name.
    pub closed spec fn known(&self) -> NameMap<String> {
        self.known
    }

    /// The position reached among the defined actions.
    pub closed spec fn cursor(&self) -> int {
        self.cursor as int
    }

    /// Whether the id of a created action is awaited.
    pub closed spec fn awaiting(&self) -> bool {
        self.awaiting
    }

    /// Whether every defined action is created.
    pub open spec fn all_created(&self) -> bool {
        self.cursor() == self.defined_actions().keys().len() && !self.awaiting()
    }

    /// The creation is in a consistent state.
    pub open spec fn inv(&self) -> bool {
        let keys = self.defined_actions().keys();
        &&& self.defined_actions().wf()
        &&& 0 <= self.cursor() <= keys.len()
        &&& self.awaiting() ==> self.cursor() < keys.len() && self.defined_actions().values()[
            self.cursor()] is Some
        &&& created_names(self.known(), keys, self.defined_actions().values(), self.cursor())
    }

    /// A creation of `actions` and `flows` in the organization `org_id` (or
    /// the default one).
    pub fn new(org_id: Option<String>, actions: Actions<LoadedScript>, flows: Flows) -> (s: Self)
        requires
            actions.wf(),
        ensures
            s.inv(),
            s.org() == org_id,
            s.defined_actions() == actions,
            s.defined_flows() == flows,
            s.cursor() == 0,
            !s.awaiting(),
    {
        CreateOnlyV1 { org_id, actions, flows, known: NameMap::new(), cursor: 0, awaiting: false }
    }

    /// The organization created in.
    pub fn org_id(&self) -> (r: Option<String>)
        ensures
            r == self.org(),
    {
        copy_opt_string(&self.org_id)
    }

    /// The next action to create, in the order of the names; `None` when
    /// every defined action is created.
    pub fn next_create(&mut self) -> (r: Option<ActionCreate>)
        requires
            old(self).inv(),
            !old(self).awaiting(),
        ensures
            final(self).inv(),
            final(self).org() == old(self).org(),
            final(self).defined_actions() == old(self).defined_actions(),
            final(self).defined_flows() == old(self).defined_flows(),
            final(self).known() == old(self).known(),
            ({
                let values = old(self).defined_actions().values();
                let j = next_defined_index(values, old(self).cursor());
                match r {
                    None => {
                        &&& j == values.len()
                        &&& final(self).all_created()
                    },
                    Some(create) => {
                        &&& j < values.len()
                        &&& create == (ActionCreate {
                            name: old(self).defined_actions().key_strings()[j],
                            timeout: values[j]->0.timeout,
                            allowed_to_fail: values[j]->0.allowed_to_fail,
                            script: values[j]->0.script,
                        })
                        &&& final(self).awaiting()
                        &&& final(self).cursor() == j
                    },
                }
            }),
    {
        let n = self.actions.len();
        let ghost keys = self.actions.keys();
        let ghost values = self.actions.values();
        let ghost start = self.cursor as int;
        let j = next_defined_from(&self.actions, self.cursor);
        proof {
            lemma_created_skip(self.known, keys, values, start, j as int);
        }
        if j < n {
            match self.actions.value_at(j) {
                Some(a) => {
                    let create = ActionCreate::new(self.actions.key_at(j).clone(), a.copy());
                    self.cursor = j;
                    self.awaiting = true;
                    return Some(create);
                },
                None => {
                    proof {
                        assert(false);
                    }
                    return None;
                },
            }
        }
        self.cursor = n;
        None
    }

    /// Records the id Zitadel gave the action that
    /// [`CreateOnlyV1::next_create`] gave.
    pub fn record_created(&mut self, id: String)
        requires
            old(self).inv(),
            old(self).awaiting(),
        ensures
            final(self).inv(),
            !final(self).awaiting(),
            final(self).cursor() == old(self).cursor() + 1,
            final(self).org() == old(self).org(),
            final(self).defined_actions() == old(self).defined_actions(),
            final(self).defined_flows() == old(self).defined_flows(),
            final(self).known().to_map() == old(self).known().to_map().insert(
                old(self).defined_actions().keys()[old(self).cursor()],
                id,
            ),
    {
        let c = self.cursor;
        let n = self.actions.len();
        assert(c < n);
        let ghost keys = self.actions.keys();
        let ghost values = self.actions.values();
        let ghost old_known = self.known;
        let key = self.actions.key_at(c).clone();
        self.known.insert(key, id);
        proof {
            assert forall|x: Seq<char>| #[trigger]
                self.known.contains_key(x) <==> exists|i: int|
                    0 <= i < c + 1 && i < keys.len() && #[trigger] keys[i] == x && values[i] is Some by {
                assert(self.known.to_map().contains_key(x) == self.known.contains_key(x));
                assert(old_known.to_map().contains_key(x) == old_known.contains_key(x));
                if exists|i: int|
                    0 <= i < c + 1 && i < keys.len() && #[trigger] keys[i] == x && values[i] is Some {
                    let i = choose|i: int|
                        0 <= i < c + 1 && i < keys.len() && #[trigger] keys[i] == x
                            && values[i] is Some;
                    if i < c {
                        assert(old_known.contains_key(x));
                    }
                }
                if old_known.contains_key(x) {
                    let i = choose|i: int|
                        0 <= i < c && i < keys.len() && #[trigger] keys[i] == x && values[i] is Some;
                    assert(keys[i] == x);
                }
                if x == keys[c as int] {
                    assert(keys[c as int] == x);
                }
            }
        }
        self.cursor = c + 1;
        self.awaiting = false;
    }

    /// The triggers to set on the flow at position `f`, once every action is
    /// created: for each of its trigger types, in order, the ids of the
    /// actions defined for it, sorted.
    pub fn trigger_settings(&self, f: usize) -> (r: Vec<TriggerChange>)
        requires
            self.inv(),
            self.all_created(),
            f < self.defined_flows().keys().len(),
        ensures
            ({
                let flows = self.defined_flows();
                let triggers = flows.values()[f as int];
                &&& r@.len() == triggers.keys().len()
                &&& forall|t: int|
                    0 <= t < r@.len() ==> {
                        &&& (#[trigger] r@[t]).flow_type@ == flows.keys()[f as int]
                        &&& r@[t].trigger_type@ == triggers.keys()[t]
                        &&& sorted(views(r@[t].action_ids@))
                        &&& views(r@[t].action_ids@).to_multiset() == resolved_ids(
                            views(triggers.values()[t]@),
                            self.known(),
                        ).to_multiset()
                    }
            }),
    {
        let nf = self.flows.len();
        assert(f < nf);
        let flow_type = self.flows.key_at(f);
        let triggers = self.flows.value_at(f);
        let nt = triggers.len();
        let mut r: Vec<TriggerChange> = Vec::new();
        let mut t: usize = 0;
        while t < nt
            invariant
                nt == triggers.keys().len(),
                nt == triggers.values().len(),
                t <= nt,
                r@.len() == t,
                self.known.wf(),
                forall|q: int|
                    0 <= q < t ==> {
                        &&& (#[trigger] r@[q]).flow_type@ == flow_type@
                        &&& r@[q].trigger_type@ == triggers.keys()[q]
                        &&& sorted(views(r@[q].action_ids@))
                        &&& views(r@[q].action_ids@).to_multiset() == resolved_ids(
                            views(triggers.values()[q]@),
                            self.known,
                        ).to_multiset()
                    },
            decreases nt - t,
        {
            let ids = sorted_ids(triggers.value_at(t), &self.known);
            r.push(
                TriggerChange {
                    flow_type: flow_type.clone(),
                    trigger_type: triggers.key_at(t).clone(),
                    action_ids: ids,
                },
            );
            t = t + 1;
        }
        r
    }
}

/// The first position from `start` on that defines an action, or the number
/// of definitions if there is none.
fn next_defined_from(actions: &Actions<LoadedScript>, start: usize) -> (j: usize)
    requires
        actions.wf(),
        start <= actions.keys().len(),
    ensures
        j == next_defined_index(actions.values(), start as int),
        start <= j <= actions.keys().len(),
        j < actions.keys().len() ==> actions.values()[j as int] is Some,
        forall|p: int| start <= p < j ==> (#[trigger] actions.values()[p]) is None,
{
    let n = actions.len();
    let mut j = start;
    while j < n
        invariant
            actions.wf(),
            n == actions.values().len(),
            n == actions.keys().len(),
            start <= j <= n,
            next_defined_index(actions.values(), start as int) == next_defined_index(
                actions.values(),
                j as int,
            ),
            forall|p: int| start <= p < j ==> (#[trigger] actions.values()[p]) is None,
        decreases n - j,
    {
        if actions.value_at(j).is_some() {
            return j;
        }
        j = j + 1;
    }
    j
}

/// Passing over names marked as deleted leaves the created names as they are.
proof fn lemma_created_skip(
    known: NameMap<String>,
    keys: Seq<Seq<char>>,
    values: Seq<Option<Action<LoadedScript>>>,
    start: int,
    end: int,
)
    requires
        0 <= start <= end <= values.len(),
        created_names(known, keys, values, start),
        forall|p: int| start <= p < end ==> values[p] is None,
    ensures
        created_names(known, keys, values, end),
{
    assert forall|x: Seq<char>| #[trigger]
        known.contains_key(x) <==> exists|i: int|
            0 <= i < end && i < keys.len() && #[trigger] keys[i] == x && values[i] is Some by {
        if exists|i: int| 0 <= i < end && i < keys.len() && #[trigger] keys[i] == x && values[i] is Some {
            let i = choose|i: int|
                0 <= i < end && i < keys.len() && #[trigger] keys[i] == x && values[i] is Some;
            assert(keys[i] == x);
        }
        if known.contains_key(x) {
            let i = choose|i: int|
                0 <= i < start && i < keys.len() && #[trigger] keys[i] == x && values[i] is Some;
            assert(keys[i] == x);
        }
    }
}

} // verus!
