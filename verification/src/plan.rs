//! The decisions of a sync: what to do with each action, and which triggers
//! to set.
use vstd::prelude::*;

use crate::name_map::{string_eq, NameMap};
use crate::text::{
    lemma_name_lt_irreflexive, lemma_sorted_unique, lemma_views_push, name_lt, sort_names, sorted,
    views,
};
use crate::zitadel::{
    action_is_same, spec_action_is_same, Action, ActionCreate, ActionSearch, ActionUpdate,
    GetTriggersResFlowAction, LoadedScript,
};

verus! {

/// What a sync does with one object (an action or a target) defined by name.
#[derive(Debug, Clone, PartialEq, Eq)]
pub enum Plan<U, C> {
    /// Defined, and Zitadel has it as defined: nothing to do.
    Unchanged { id: String },
    /// Defined, and Zitadel has it otherwise: update it.
    Update { id: String, update: U },
    /// Defined, and Zitadel does not have it: create it.
    Create { create: C },
    /// Marked as deleted, and Zitadel has it: delete it.
    Delete { id: String },
    /// Marked as deleted, and Zitadel does not have it: nothing to do.
    Absent,
}

/// What a sync does with one action.
pub type ActionPlan = Plan<ActionUpdate, ActionCreate>;

/// What a sync does with the action named `name`, defined as `action`, of
/// which Zitadel reports `found`.
pub open spec fn spec_plan_action(
    name: String,
    action: Option<Action<LoadedScript>>,
    found: Option<ActionSearch>,
) -> ActionPlan {
    match action {
        None => match found {
            Some(s) => Plan::Delete { id: s.id },
            None => Plan::Absent,
        },
        Some(a) => match found {
            Some(s) => if spec_action_is_same(a, s) {
                Plan::Unchanged { id: s.id }
            } else {
                Plan::Update {
                    id: s.id,
                    update: ActionUpdate {
                        name: name,
                        timeout: a.timeout,
                        allowed_to_fail: a.allowed_to_fail,
                        script: a.script,
                    },
                }
            },
            None => Plan::Create {
                create: ActionCreate {
                    name: name,
                    timeout: a.timeout,
                    allowed_to_fail: a.allowed_to_fail,
                    script: a.script,
                },
            },
        },
    }
}

/// What a sync does with the action named `name`, defined as `action`, of
/// which Zitadel reports `found`.
pub fn plan_action(
    name: &String,
    action: &Option<Action<LoadedScript>>,
    found: &Option<ActionSearch>,
) -> (r: ActionPlan)
    ensures
        r == spec_plan_action(*name, *action, *found),
{
    match action {
        None => match found {
            Some(s) => Plan::Delete { id: s.id.clone() },
            None => Plan::Absent,
        },
        Some(a) => match found {
            Some(s) => if action_is_same(a, s) {
                Plan::Unchanged { id: s.id.clone() }
            } else {
                Plan::Update { id: s.id.clone(), update: ActionUpdate::new(name.clone(), a.copy()) }
            },
            None => Plan::Create { create: ActionCreate::new(name.clone(), a.copy()) },
        },
    }
}

/// The ids of the actions named `names` that `known` knows, in the order of
/// the names.
pub open spec fn resolved_ids(names: Seq<Seq<char>>, known: NameMap<String>) -> Seq<Seq<char>>
    decreases names.len(),
{
    if names.len() == 0 {
        Seq::empty()
    } else {
        let rest = resolved_ids(names.drop_last(), known);
        if known.contains_key(names.last()) {
            rest.push(known.value_of(names.last())@)
        } else {
            rest
        }
    }
}

/// The ids of the actions that a trigger reported by Zitadel runs.
pub open spec fn trigger_action_ids(t: GetTriggersResFlowAction) -> Seq<Seq<char>> {
    t.actions@.map_values(|a: ActionSearch| a.id@)
}

/// Zitadel reports the trigger `trigger_type` (the first report of it counts)
/// running the actions `ids`, counted with repetition, in any order.
pub open spec fn trigger_is_current(
    existing: Seq<GetTriggersResFlowAction>,
    trigger_type: Seq<char>,
    ids: Seq<Seq<char>>,
) -> bool {
    exists|i: int|
        0 <= i < existing.len() && #[trigger] existing[i].trigger_type.id@ == trigger_type && (
        forall|j: int| 0 <= j < i ==> existing[j].trigger_type.id@ != trigger_type)
            && trigger_action_ids(existing[i]).to_multiset() == ids.to_multiset()
}

/// The ids, sorted, of the actions named `names` that `known` knows.
pub fn sorted_ids(names: &Vec<String>, known: &NameMap<String>) -> (r: Vec<String>)
    requires
        known.wf(),
    ensures
        sorted(views(r@)),
        views(r@).to_multiset() == resolved_ids(views(names@), *known).to_multiset(),
{
    let n = names.len();
    let mut ids: Vec<String> = Vec::new();
    let mut k: usize = 0;
    proof {
        assert(views(names@).take(0) =~= Seq::<Seq<char>>::empty());
        assert(views(ids@) =~= resolved_ids(views(names@).take(0), *known));
    }
    while k < n
        invariant
            known.wf(),
            n == names@.len(),
            k <= n,
            views(ids@) == resolved_ids(views(names@).take(k as int), *known),
        decreases n - k,
    {
        let ghost old_ids = ids@;
        proof {
            assert(views(names@).take(k + 1).drop_last() =~= views(names@).take(k as int));
            assert(views(names@).take(k + 1).last() == names@[k as int]@);
        }
        match known.get(names[k].as_str()) {
            Some(id) => {
                ids.push(id.clone());
                proof {
                    lemma_views_push(old_ids, *id);
                }
            },
            None => {},
        }
        k = k + 1;
    }
    proof {
        assert(views(names@).take(n as int) =~= views(names@));
    }
    sort_names(&mut ids);
    ids
}

/// Whether two lists of names are equal.
pub fn names_equal(a: &Vec<String>, b: &Vec<String>) -> (r: bool)
    ensures
        r == (views(a@) == views(b@)),
{
    if a.len() != b.len() {
        proof {
            assert(views(a@).len() != views(b@).len());
        }
        return false;
    }
    let mut i: usize = 0;
    while i < a.len()
        invariant
            a@.len() == b@.len(),
            i <= a@.len(),
            forall|j: int| 0 <= j < i ==> a@[j]@ == b@[j]@,
        decreases a@.len() - i,
    {
        if !string_eq(&a[i], &b[i]) {
            proof {
                assert(views(a@)[i as int] != views(b@)[i as int]);
            }
            return false;
        }
        i = i + 1;
    }
    assert(views(a@) =~= views(b@));
    true
}

/// The ids of the actions that a trigger reported by Zitadel runs.
fn action_ids_of(t: &GetTriggersResFlowAction) -> (r: Vec<String>)
    ensures
        views(r@) == trigger_action_ids(*t),
{
    let n = t.actions.len();
    let mut r: Vec<String> = Vec::new();
    let mut i: usize = 0;
    while i < n
        invariant
            n == t.actions@.len(),
            i <= n,
            views(r@) == trigger_action_ids(*t).take(i as int),
        decreases n - i,
    {
        let ghost old_r = r@;
        r.push(t.actions[i].id.clone());
        proof {
            lemma_views_push(old_r, t.actions@[i as int].id);
            assert(views(r@) =~= trigger_action_ids(*t).take(i + 1));
        }
        i = i + 1;
    }
    assert(trigger_action_ids(*t).take(n as int) =~= trigger_action_ids(*t));
    r
}

/// The actions to set on the trigger `trigger_type`, which is to run the
/// actions named `action_names`: `None` when Zitadel already runs exactly
/// those actions on it, otherwise their ids, sorted. Names that `known` does
/// not know are left out.
pub fn plan_trigger(
    trigger_type: &String,
    action_names: &Vec<String>,
    known: &NameMap<String>,
    existing: &Vec<GetTriggersResFlowAction>,
) -> (r: Option<Vec<String>>)
    requires
        known.wf(),
    ensures
        match r {
            None => trigger_is_current(
                existing@,
                trigger_type@,
                resolved_ids(views(action_names@), *known),
            ),
            Some(ids) => {
                &&& !trigger_is_current(
                    existing@,
                    trigger_type@,
                    resolved_ids(views(action_names@), *known),
                )
                &&& sorted(views(ids@))
                &&& views(ids@).to_multiset() == resolved_ids(
                    views(action_names@),
                    *known,
                ).to_multiset()
            },
        },
{
    let ids = sorted_ids(action_names, known);
    let ghost want = resolved_ids(views(action_names@), *known);
    let n = existing.len();
    let mut i: usize = 0;
    while i < n
        invariant
            n == existing@.len(),
            i <= n,
            forall|j: int| 0 <= j < i ==> existing@[j].trigger_type.id@ != trigger_type@,
            want == resolved_ids(views(action_names@), *known),
            sorted(views(ids@)),
            views(ids@).to_multiset() == want.to_multiset(),
        decreases n - i,
    {
        if string_eq(&existing[i].trigger_type.id, trigger_type) {
            let mut theirs = action_ids_of(&existing[i]);
            let ghost theirs_unsorted = views(theirs@);
            sort_names(&mut theirs);
            if names_equal(&theirs, &ids) {
                proof {
                    assert(trigger_action_ids(existing@[i as int]).to_multiset() == want.to_multiset());
                    assert(existing@[i as int].trigger_type.id@ == trigger_type@);
                }
                return None;
            } else {
                proof {
                    assert forall|p: int|
                        0 <= p < existing@.len() && #[trigger] existing@[p].trigger_type.id@
                            == trigger_type@ && (forall|j: int|
                            0 <= j < p ==> existing@[j].trigger_type.id@ != trigger_type@)
                        implies trigger_action_ids(existing@[p]).to_multiset()
                        != want.to_multiset() by {
                        if p < i {
                        } else if p > i {
                            assert(existing@[i as int].trigger_type.id@ == trigger_type@);
                        } else {
                            if trigger_action_ids(existing@[p]).to_multiset() == want.to_multiset() {
                                lemma_sorted_unique(views(theirs@), views(ids@));
                            }
                        }
                    }
                }
                return Some(ids);
            }
        }
        i = i + 1;
    }
    Some(ids)
}

/// A plan that leaves the object with an id: Zitadel has it and keeps it.
pub open spec fn plan_keeps<U, C>(p: Plan<U, C>) -> bool {
    p is Unchanged || p is Update
}

/// The id of the object that a plan is about, where Zitadel has it.
pub open spec fn plan_id<U, C>(p: Plan<U, C>) -> String
    recommends
        p is Unchanged || p is Update || p is Delete,
{
    match p {
        Plan::Unchanged { id } => id,
        Plan::Update { id, .. } => id,
        Plan::Delete { id } => id,
        _ => vstd::pervasive::arbitrary(),
    }
}

/// The first position from `i` on whose plan makes a call while creating and
/// updating actions.
pub open spec fn next_upsert_index<U, C>(plans: Seq<Plan<U, C>>, i: int) -> int
    decreases plans.len() - i,
{
    if i >= plans.len() {
        plans.len() as int
    } else if plans[i] is Update || plans[i] is Create {
        i
    } else {
        next_upsert_index(plans, i + 1)
    }
}

/// The ids of the objects to delete, in the order of their names.
pub open spec fn delete_ids<U, C>(plans: Seq<Plan<U, C>>) -> Seq<Seq<char>>
    decreases plans.len(),
{
    if plans.len() == 0 {
        Seq::empty()
    } else {
        let rest = delete_ids(plans.drop_last());
        match plans.last() {
            Plan::Delete { id } => rest.push(id@),
            _ => rest,
        }
    }
}

/// `known` maps the names `keys` to the ids of the actions: those that Zitadel
/// has and keeps, and those at positions before `created` that were created.
pub open spec fn known_ids<U, C>(
    known: NameMap<String>,
    keys: Seq<Seq<char>>,
    plans: Seq<Plan<U, C>>,
    created: int,
) -> bool {
    &&& known.wf()
    &&& forall|x: Seq<char>| #[trigger]
        known.contains_key(x) <==> exists|i: int|
            0 <= i < keys.len() && #[trigger] keys[i] == x && (plan_keeps(plans[i]) || (
            plans[i] is Create && i < created))
    &&& forall|i: int|
        0 <= i < keys.len() && plan_keeps(plans[i]) ==> known.value_of(#[trigger] keys[i])
            == plan_id(plans[i])
}

/// The ids of the objects to delete, in order.
pub(crate) fn delete_ids_of<U, C>(plans: &Vec<Plan<U, C>>) -> (r: Vec<String>)
    ensures
        views(r@) == delete_ids(plans@),
{
    let n = plans.len();
    let mut r: Vec<String> = Vec::new();
    let mut i: usize = 0;
    proof {
        assert(plans@.take(0) =~= Seq::<Plan<U, C>>::empty());
        assert(views(r@) =~= delete_ids(plans@.take(0)));
    }
    while i < n
        invariant
            n == plans@.len(),
            i <= n,
            views(r@) == delete_ids(plans@.take(i as int)),
        decreases n - i,
    {
        let ghost old_r = r@;
        proof {
            assert(plans@.take(i + 1).drop_last() =~= plans@.take(i as int));
            assert(plans@.take(i + 1).last() == plans@[i as int]);
        }
        match &plans[i] {
            Plan::Delete { id } => {
                r.push(id.clone());
                proof {
                    lemma_views_push(old_r, *id);
                }
            },
            _ => {},
        }
        i = i + 1;
    }
    proof {
        assert(plans@.take(n as int) =~= plans@);
    }
    r
}

/// The first position from `start` on whose plan creates or updates an
/// object, or the number of plans if there is none.
pub(crate) fn next_upsert_from<U, C>(plans: &Vec<Plan<U, C>>, start: usize) -> (j: usize)
    requires
        start <= plans@.len(),
    ensures
        j == next_upsert_index(plans@, start as int),
        start <= j <= plans@.len(),
        j < plans@.len() ==> (plans@[j as int] is Update || plans@[j as int] is Create),
        forall|p: int| start <= p < j ==> !(#[trigger] plans@[p] is Create) && !(plans@[p] is Update),
{
    let n = plans.len();
    let mut j = start;
    while j < n
        invariant
            n == plans@.len(),
            start <= j <= n,
            next_upsert_index(plans@, start as int) == next_upsert_index(plans@, j as int),
            forall|p: int| start <= p < j ==> !(#[trigger] plans@[p] is Create) && !(plans@[p] is Update),
        decreases n - j,
    {
        match &plans[j] {
            Plan::Update { .. } => {
                return j;
            },
            Plan::Create { .. } => {
                return j;
            },
            _ => {},
        }
        j = j + 1;
    }
    j
}

/// Positions of distinct names hold distinct names.
pub(crate) proof fn lemma_distinct(keys: Seq<Seq<char>>, i: int, j: int)
    requires
        crate::text::strictly_sorted(keys),
        0 <= i < keys.len(),
        0 <= j < keys.len(),
        i != j,
    ensures
        keys[i] != keys[j],
{
    if i < j {
        assert(name_lt(keys[i], keys[j]));
    } else {
        assert(name_lt(keys[j], keys[i]));
    }
    lemma_name_lt_irreflexive(keys[i]);
}

/// Building the known ids: one more plan considered.
pub(crate) proof fn lemma_known_step<U, C>(
    old_known: NameMap<String>,
    known: NameMap<String>,
    keys: Seq<Seq<char>>,
    plans: Seq<Plan<U, C>>,
    i: int,
    kept: bool,
)
    requires
        crate::text::strictly_sorted(keys),
        0 <= i < keys.len(),
        plans.len() == i + 1,
        kept == plan_keeps(plans[i]),
        old_known.wf(),
        known.wf(),
        kept ==> known.to_map() == old_known.to_map().insert(keys[i], plan_id(plans[i])),
        !kept ==> known == old_known,
        forall|x: Seq<char>| #[trigger]
            old_known.contains_key(x) <==> exists|p: int|
                0 <= p < i && #[trigger] keys[p] == x && plan_keeps(plans[p]),
        forall|p: int|
            0 <= p < i && plan_keeps(plans[p]) ==> old_known.value_of(#[trigger] keys[p])
                == plan_id(plans[p]),
    ensures
        forall|x: Seq<char>| #[trigger]
            known.contains_key(x) <==> exists|p: int|
                0 <= p < i + 1 && #[trigger] keys[p] == x && plan_keeps(plans[p]),
        forall|p: int|
            0 <= p < i + 1 && plan_keeps(plans[p]) ==> known.value_of(#[trigger] keys[p])
                == plan_id(plans[p]),
{
    assert forall|x: Seq<char>| #[trigger]
        known.contains_key(x) <==> exists|p: int|
            0 <= p < i + 1 && #[trigger] keys[p] == x && plan_keeps(plans[p]) by {
        if kept {
            assert(known.to_map().contains_key(x) == known.contains_key(x));
            assert(old_known.to_map().contains_key(x) == old_known.contains_key(x));
        }
        if exists|p: int| 0 <= p < i + 1 && #[trigger] keys[p] == x && plan_keeps(plans[p]) {
            let p = choose|p: int| 0 <= p < i + 1 && #[trigger] keys[p] == x && plan_keeps(
                plans[p],
            );
            if p < i {
                assert(old_known.contains_key(x));
            }
        }
        if old_known.contains_key(x) {
            let p = choose|p: int| 0 <= p < i && #[trigger] keys[p] == x && plan_keeps(plans[p]);
            assert(keys[p] == x);
        }
        if kept && x == keys[i] {
            assert(keys[i] == x);
        }
    }
    assert forall|p: int| 0 <= p < i + 1 && plan_keeps(plans[p]) implies known.value_of(
        #[trigger] keys[p],
    ) == plan_id(plans[p]) by {
        if kept {
            assert(known.to_map().contains_key(keys[p]));
            assert(known.to_map()[keys[p]] == known.value_of(keys[p]));
            if p < i {
                lemma_distinct(keys, p, i);
                assert(old_known.contains_key(keys[p]));
                assert(old_known.to_map()[keys[p]] == old_known.value_of(keys[p]));
            }
        }
    }
}

/// Passing over plans that create nothing leaves the known ids as they are.
pub(crate) proof fn lemma_known_skip<U, C>(
    known: NameMap<String>,
    keys: Seq<Seq<char>>,
    plans: Seq<Plan<U, C>>,
    start: int,
    end: int,
)
    requires
        0 <= start <= end <= plans.len(),
        plans.len() == keys.len(),
        known_ids(known, keys, plans, start),
        forall|p: int| start <= p < end ==> !(plans[p] is Create),
    ensures
        known_ids(known, keys, plans, end),
{
    assert forall|x: Seq<char>| #[trigger]
        known.contains_key(x) <==> exists|i: int|
            0 <= i < keys.len() && #[trigger] keys[i] == x && (plan_keeps(plans[i]) || (
            plans[i] is Create && i < end)) by {
        if exists|i: int|
            0 <= i < keys.len() && #[trigger] keys[i] == x && (plan_keeps(plans[i]) || (
            plans[i] is Create && i < end)) {
            let i = choose|i: int|
                0 <= i < keys.len() && #[trigger] keys[i] == x && (plan_keeps(plans[i]) || (
                plans[i] is Create && i < end));
            assert(keys[i] == x);
        }
        if known.contains_key(x) {
            let i = choose|i: int|
                0 <= i < keys.len() && #[trigger] keys[i] == x && (plan_keeps(plans[i]) || (
                plans[i] is Create && i < start));
            assert(keys[i] == x);
        }
    }
}

/// Recording a created action extends the known ids by its name.
pub(crate) proof fn lemma_known_created<U, C>(
    old_known: NameMap<String>,
    known: NameMap<String>,
    keys: Seq<Seq<char>>,
    plans: Seq<Plan<U, C>>,
    c: int,
)
    requires
        crate::text::strictly_sorted(keys),
        0 <= c < keys.len(),
        plans.len() == keys.len(),
        plans[c] is Create,
        known_ids(old_known, keys, plans, c),
        known.wf(),
        exists|id: String| known.to_map() == old_known.to_map().insert(keys[c], id),
    ensures
        known_ids(known, keys, plans, c + 1),
{
    let id = choose|id: String| known.to_map() == old_known.to_map().insert(keys[c], id);
    assert forall|x: Seq<char>| #[trigger]
        known.contains_key(x) <==> exists|i: int|
            0 <= i < keys.len() && #[trigger] keys[i] == x && (plan_keeps(plans[i]) || (
            plans[i] is Create && i < c + 1)) by {
        assert(known.to_map().contains_key(x) == known.contains_key(x));
        assert(old_known.to_map().contains_key(x) == old_known.contains_key(x));
        if exists|i: int|
            0 <= i < keys.len() && #[trigger] keys[i] == x && (plan_keeps(plans[i]) || (
            plans[i] is Create && i < c + 1)) {
            let i = choose|i: int|
                0 <= i < keys.len() && #[trigger] keys[i] == x && (plan_keeps(plans[i]) || (
                plans[i] is Create && i < c + 1));
            if i != c {
                assert(keys[i] == x);
                assert(old_known.contains_key(x));
            }
        }
        if old_known.contains_key(x) {
            let i = choose|i: int|
                0 <= i < keys.len() && #[trigger] keys[i] == x && (plan_keeps(plans[i]) || (
                plans[i] is Create && i < c));
            assert(keys[i] == x);
        }
        if x == keys[c] {
            assert(keys[c] == x);
        }
    }
    assert forall|i: int| 0 <= i < keys.len() && plan_keeps(plans[i]) implies known.value_of(
        #[trigger] keys[i],
    ) == plan_id(plans[i]) by {
        lemma_distinct(keys, i, c);
        assert(old_known.contains_key(keys[i]));
        assert(known.to_map().contains_key(keys[i]));
        assert(known.to_map()[keys[i]] == known.value_of(keys[i]));
        assert(old_known.to_map()[keys[i]] == old_known.value_of(keys[i]));
    }
}

/// Two maps of known ids agree when a second sync keeps, under the ids the
/// first one knew, exactly what the first one kept or created.
pub proof fn lemma_known_same<U, C>(
    k1: NameMap<String>,
    k2: NameMap<String>,
    keys: Seq<Seq<char>>,
    p1: Seq<Plan<U, C>>,
    p2: Seq<Plan<U, C>>,
    created2: int,
)
    requires
        p1.len() == keys.len(),
        p2.len() == keys.len(),
        known_ids(k1, keys, p1, keys.len() as int),
        known_ids(k2, keys, p2, created2),
        forall|i: int| 0 <= i < keys.len() ==> !(#[trigger] p2[i] is Create),
        forall|i: int|
            0 <= i < keys.len() ==> (plan_keeps(#[trigger] p2[i]) <==> (plan_keeps(p1[i])
                || p1[i] is Create)),
        forall|i: int|
            0 <= i < keys.len() && plan_keeps(#[trigger] p2[i]) ==> plan_id(p2[i]) == k1.value_of(
                keys[i],
            ),
    ensures
        k1.to_map() == k2.to_map(),
{
    assert forall|x: Seq<char>| k1.contains_key(x) == k2.contains_key(x) by {
        if k1.contains_key(x) {
            let i = choose|i: int|
                0 <= i < keys.len() && #[trigger] keys[i] == x && (plan_keeps(p1[i]) || (
                p1[i] is Create && i < keys.len()));
            assert(keys[i] == x);
            assert(plan_keeps(p2[i]));
        }
        if k2.contains_key(x) {
            let i = choose|i: int|
                0 <= i < keys.len() && #[trigger] keys[i] == x && (plan_keeps(p2[i]) || (
                p2[i] is Create && i < created2));
            assert(keys[i] == x);
            assert(plan_keeps(p2[i]));
        }
    }
    assert forall|x: Seq<char>| k2.contains_key(x) implies k1.value_of(x) == k2.value_of(x) by {
        let i = choose|i: int|
            0 <= i < keys.len() && #[trigger] keys[i] == x && (plan_keeps(p2[i]) || (
            p2[i] is Create && i < created2));
        assert(keys[i] == x);
        assert(plan_keeps(p2[i]));
    }
    assert(k1.to_map() =~= k2.to_map());
}

/// The ids resolved from names depend on the known ids only through their
/// map.
pub proof fn lemma_resolved_ids_same(names: Seq<Seq<char>>, k1: NameMap<String>, k2: NameMap<String>)
    requires
        k1.to_map() == k2.to_map(),
    ensures
        resolved_ids(names, k1) == resolved_ids(names, k2),
    decreases names.len(),
{
    if names.len() > 0 {
        lemma_resolved_ids_same(names.drop_last(), k1, k2);
        let x = names.last();
        assert(k1.to_map().contains_key(x) == k1.contains_key(x));
        assert(k2.to_map().contains_key(x) == k2.contains_key(x));
        if k1.contains_key(x) {
            assert(k1.to_map()[x] == k1.value_of(x));
            assert(k2.to_map()[x] == k2.value_of(x));
        }
    }
}

/// Plans that neither create, update nor delete make no call.
pub proof fn lemma_no_writes<U, C>(plans: Seq<Plan<U, C>>, i: int)
    requires
        0 <= i <= plans.len(),
        forall|p: int| 0 <= p < plans.len() ==> #[trigger] plans[p] is Unchanged || plans[p] is Absent,
    ensures
        next_upsert_index(plans, i) == plans.len(),
        delete_ids(plans) == Seq::<Seq<char>>::empty(),
    decreases plans.len() - i,
{
    if i < plans.len() {
        lemma_no_writes(plans, i + 1);
    } else {
        lemma_no_deletes(plans);
    }
}

/// Plans that never delete leave nothing to delete.
proof fn lemma_no_deletes<U, C>(plans: Seq<Plan<U, C>>)
    requires
        forall|p: int| 0 <= p < plans.len() ==> #[trigger] plans[p] is Unchanged || plans[p] is Absent,
    ensures
        delete_ids(plans) == Seq::<Seq<char>>::empty(),
    decreases plans.len(),
{
    if plans.len() > 0 {
        let rest = plans.drop_last();
        assert forall|p: int| 0 <= p < rest.len() implies #[trigger] rest[p] is Unchanged
            || rest[p] is Absent by {
            assert(rest[p] == plans[p]);
        }
        lemma_no_deletes(rest);
        assert(plans.last() == plans[plans.len() - 1]);
    }
}

} // verus!
