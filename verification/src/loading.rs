//! Completing v1 action definitions with the scripts kept in files.
//!
//! An action defined without a script, and an action that a flow names but
//! `actions.yaml` does not define, take their script from `{name}.js`. Reading
//! those files is left to the caller: [`scripts_to_load`] says which files are
//! read, in which order, and [`complete_actions`] puts the scripts read in
//! place.
use vstd::prelude::*;

use crate::name_map::NameMap;
use crate::text::{lemma_name_lt_irreflexive, lemma_views_push, name_lt, views};
use crate::zitadel::{copy_opt_string, Action, LoadedScript, OptionallyLoadedScript};

verus! {

/// Full set of action definitions (`actions.yaml`); an action defined as
/// `None` is to be deleted.
pub type Actions<Script> = NameMap<Option<Action<Script>>>;

/// Full set of flow definitions (`flows.yaml`): for each flow type, for each
/// trigger type, the names of the actions to run.
pub type Flows = NameMap<NameMap<Vec<String>>>;

/// Why action definitions cannot be completed.
#[derive(Debug, Clone, PartialEq, Eq)]
pub enum LoadActionsV1Error {
    /// The action is marked as `null` (deleted) but a flow uses it.
    DeletedActionInFlow { action_name: String },
}

/// The names that the triggers `triggers` run, trigger after trigger.
pub open spec fn trigger_names(triggers: Seq<Vec<String>>) -> Seq<Seq<char>>
    decreases triggers.len(),
{
    if triggers.len() == 0 {
        Seq::empty()
    } else {
        trigger_names(triggers.drop_last()) + views(triggers.last()@)
    }
}

/// The names that the flows `flows` run, flow after flow.
pub open spec fn flows_names(flows: Seq<NameMap<Vec<String>>>) -> Seq<Seq<char>>
    decreases flows.len(),
{
    if flows.len() == 0 {
        Seq::empty()
    } else {
        flows_names(flows.drop_last()) + trigger_names(flows.last().values())
    }
}

/// Every action name that `flows` uses, in the order of flow types, then of
/// trigger types, then as listed.
pub open spec fn flow_action_names(flows: Flows) -> Seq<Seq<char>> {
    flows_names(flows.values())
}

/// Whether the definition is an action whose script is still to be read.
pub open spec fn misses_script(v: Option<Action<OptionallyLoadedScript>>) -> bool {
    v matches Some(a) && a.script is None
}

/// The names of the actions in `keys`/`values` whose scripts are still to be
/// read, in order.
pub open spec fn missing_scripts(
    keys: Seq<Seq<char>>,
    values: Seq<Option<Action<OptionallyLoadedScript>>>,
) -> Seq<Seq<char>>
    decreases keys.len(),
{
    if keys.len() == 0 || values.len() != keys.len() {
        Seq::empty()
    } else {
        let rest = missing_scripts(keys.drop_last(), values.drop_last());
        if misses_script(values.last()) {
            rest.push(keys.last())
        } else {
            rest
        }
    }
}

/// For each name, whether it is defined as deleted.
pub open spec fn deletion_marks<S>(actions: NameMap<Option<Action<S>>>) -> Map<Seq<char>, bool> {
    Map::new(|k: Seq<char>| actions.contains_key(k), |k: Seq<char>| actions.value_of(k) is None)
}

/// Walking the names that flows use: the names that no definition covers, in
/// the order in which their scripts are read (each once), and the first name
/// that is defined as deleted, if the walk stops at one.
pub open spec fn scan_flow_names(names: Seq<Seq<char>>, marks: Map<Seq<char>, bool>) -> (
    Seq<Seq<char>>,
    Option<Seq<char>>,
)
    decreases names.len(),
{
    if names.len() == 0 {
        (Seq::empty(), None)
    } else {
        let n = names[0];
        if marks.contains_key(n) {
            if marks[n] {
                (Seq::empty(), Some(n))
            } else {
                scan_flow_names(names.drop_first(), marks)
            }
        } else {
            let r = scan_flow_names(names.drop_first(), marks.insert(n, false));
            (seq![n] + r.0, r.1)
        }
    }
}

/// The scan of the names that `flows` uses against `actions`.
pub open spec fn flow_scan(actions: Actions<OptionallyLoadedScript>, flows: Flows) -> (
    Seq<Seq<char>>,
    Option<Seq<char>>,
) {
    scan_flow_names(flow_action_names(flows), deletion_marks(actions))
}

/// The names whose scripts are read, in the order in which they are read.
pub open spec fn spec_scripts_to_load(actions: Actions<OptionallyLoadedScript>, flows: Flows) -> Seq<
    Seq<char>,
> {
    missing_scripts(actions.keys(), actions.values()) + flow_scan(actions, flows).0
}

/// How many of the first `i` definitions still miss their script.
pub open spec fn missing_before(values: Seq<Option<Action<OptionallyLoadedScript>>>, i: int) -> int
    decreases i,
{
    if i <= 0 {
        0
    } else if misses_script(values[i - 1]) {
        missing_before(values, i - 1) + 1
    } else {
        missing_before(values, i - 1)
    }
}

/// The definition `v` with its script read as `script` where it missed one.
pub open spec fn with_script(v: Option<Action<OptionallyLoadedScript>>, script: String) -> Option<
    Action<LoadedScript>,
> {
    match v {
        None => None,
        Some(a) => Some(
            Action {
                timeout: a.timeout,
                allowed_to_fail: a.allowed_to_fail,
                script: match a.script {
                    Some(s) => s,
                    None => script,
                },
            },
        ),
    }
}

/// The definition given to an action that a flow names but no definition
/// covers.
pub open spec fn flow_only_action(script: String) -> Option<Action<LoadedScript>> {
    Some(Action { timeout: None, allowed_to_fail: false, script: script })
}

/// Every action name that `flows` uses, in the order of flow types, then of
/// trigger types, then as listed.
pub fn flow_action_names_of(flows: &Flows) -> (r: Vec<String>)
    ensures
        views(r@) == flow_action_names(*flows),
{
    let mut r: Vec<String> = Vec::new();
    let nf = flows.len();
    let mut f: usize = 0;
    while f < nf
        invariant
            nf == flows.values().len(),
            f <= nf,
            views(r@) == flows_names(flows.values().take(f as int)),
        decreases nf - f,
    {
        let triggers = flows.value_at(f);
        let nt = triggers.len();
        let mut t: usize = 0;
        proof {
            assert(trigger_names(triggers.values().take(0)) =~= Seq::<Seq<char>>::empty());
            assert(views(r@) =~= flows_names(flows.values().take(f as int)) + trigger_names(
                triggers.values().take(0),
            ));
        }
        while t < nt
            invariant
                nf == flows.values().len(),
                f < nf,
                *triggers == flows.values()[f as int],
                nt == triggers.values().len(),
                t <= nt,
                views(r@) == flows_names(flows.values().take(f as int)) + trigger_names(
                    triggers.values().take(t as int),
                ),
            decreases nt - t,
        {
            let list = triggers.value_at(t);
            let nl = list.len();
            let mut k: usize = 0;
            let ghost base = views(r@);
            proof {
                assert(views(list@).take(0) =~= Seq::<Seq<char>>::empty());
                assert(views(r@) =~= base + views(list@).take(0));
            }
            while k < nl
                invariant
                    nl == list@.len(),
                    k <= nl,
                    views(r@) == base + views(list@).take(k as int),
                decreases nl - k,
            {
                let ghost old_r = r@;
                r.push(list[k].clone());
                proof {
                    assert(r@ == old_r.push(list@[k as int]));
                    lemma_views_push(old_r, list@[k as int]);
                    assert(views(list@).take(k + 1) =~= views(list@).take(k as int).push(
                        list@[k as int]@,
                    ));
                    assert(views(r@) =~= base + views(list@).take(k + 1));
                }
                k = k + 1;
            }
            proof {
                let tv = triggers.values();
                assert(tv.take(t + 1).drop_last() =~= tv.take(t as int));
                assert(tv.take(t + 1).last() == list);
                assert(views(list@).take(nl as int) =~= views(list@));
                assert(views(r@) =~= flows_names(flows.values().take(f as int)) + trigger_names(
                    tv.take(t + 1),
                ));
            }
            t = t + 1;
        }
        proof {
            let fv = flows.values();
            assert(fv.take(f + 1).drop_last() =~= fv.take(f as int));
            assert(fv.take(f + 1).last() == triggers);
            assert(triggers.values().take(nt as int) =~= triggers.values());
        }
        f = f + 1;
    }
    proof {
        assert(flows.values().take(nf as int) =~= flows.values());
    }
    r
}

/// The number of definitions that miss their script never decreases along the
/// definitions, and the names missing scripts are counted by it.
pub proof fn lemma_missing_before(
    keys: Seq<Seq<char>>,
    values: Seq<Option<Action<OptionallyLoadedScript>>>,
    i: int,
)
    requires
        keys.len() == values.len(),
        0 <= i <= keys.len(),
    ensures
        missing_scripts(keys.take(i), values.take(i)).len() == missing_before(values, i),
        forall|j: int| 0 <= j <= i ==> missing_before(values, j) <= missing_before(values, i),
        0 <= missing_before(values, i) <= i,
    decreases i,
{
    if i > 0 {
        lemma_missing_before(keys, values, i - 1);
        assert(keys.take(i).drop_last() =~= keys.take(i - 1));
        assert(values.take(i).drop_last() =~= values.take(i - 1));
    } else {
        assert(keys.take(0).len() == 0);
    }
}

/// Putting one more definition in a map marks its name as deleted exactly
/// when the definition is `None`.
pub proof fn lemma_marks_insert<S>(
    before: NameMap<Option<Action<S>>>,
    after: NameMap<Option<Action<S>>>,
    k: Seq<char>,
    v: Option<Action<S>>,
)
    requires
        after.to_map() == before.to_map().insert(k, v),
    ensures
        deletion_marks(after) == deletion_marks(before).insert(k, v is None),
{
    assert forall|x: Seq<char>| after.contains_key(x) == (before.contains_key(x) || x == k) by {
        assert(after.to_map().contains_key(x) == after.contains_key(x));
        assert(before.to_map().contains_key(x) == before.contains_key(x));
    }
    assert forall|x: Seq<char>| after.contains_key(x) implies after.value_of(x) == (if x == k {
        v
    } else {
        before.value_of(x)
    }) by {
        assert(after.to_map()[x] == after.value_of(x));
        if x != k {
            assert(before.to_map().contains_key(x));
            assert(before.to_map()[x] == before.value_of(x));
        }
    }
    assert(deletion_marks(after) =~= deletion_marks(before).insert(k, v is None));
}

/// Marking one more name of a sorted list extends the map of marks over the
/// first names of the list by that name.
proof fn lemma_marks_step(
    keys: Seq<Seq<char>>,
    i: int,
    m: Map<Seq<char>, bool>,
    f: spec_fn(Seq<char>) -> bool,
)
    requires
        0 <= i < keys.len(),
        m == Map::new(|k: Seq<char>| keys.take(i).contains(k), f),
    ensures
        m.insert(keys[i], f(keys[i])) == Map::new(|k: Seq<char>| keys.take(i + 1).contains(k), f),
{
    let expect = Map::new(|k: Seq<char>| keys.take(i + 1).contains(k), f);
    assert forall|k: Seq<char>| keys.take(i + 1).contains(k) == (keys.take(i).contains(k) || k
        == keys[i]) by {
        if keys.take(i + 1).contains(k) && k != keys[i] {
            let j = choose|j: int| 0 <= j < i + 1 && #[trigger] keys.take(i + 1)[j] == k;
            assert(keys.take(i)[j] == k);
        }
        if k == keys[i] {
            assert(keys.take(i + 1)[i] == k);
        }
        if keys.take(i).contains(k) {
            let j = choose|j: int| 0 <= j < i && #[trigger] keys.take(i)[j] == k;
            assert(keys.take(i + 1)[j] == k);
        }
    }
    let got = m.insert(keys[i], f(keys[i]));
    assert forall|k: Seq<char>| #[trigger] got.dom().contains(k) == expect.dom().contains(k) by {
        assert(m.dom().contains(k) == keys.take(i).contains(k));
        assert(expect.dom().contains(k) == keys.take(i + 1).contains(k));
    }
    assert(got.dom() =~= expect.dom());
    assert forall|k: Seq<char>| #[trigger] expect.contains_key(k) implies got[k] == expect[k] by {
        if k != keys[i] {
            assert(m.contains_key(k));
        }
    }
    assert(got =~= expect);
}

/// An entry that stands for a definition that is deleted or not.
fn deletion_mark(deleted: bool) -> (r: Option<Action<OptionallyLoadedScript>>)
    ensures
        (r is None) == deleted,
{
    if deleted {
        None
    } else {
        Some(Action { timeout: None, allowed_to_fail: false, script: None })
    }
}

/// The names whose scripts are read, in the order in which they are read:
/// first the defined actions without a script, in the order of their names,
/// then the names that flows use and no definition covers, as the flows use
/// them, each once, up to the first name defined as deleted.
pub fn scripts_to_load(actions: &Actions<OptionallyLoadedScript>, flows: &Flows) -> (r: Vec<
    String,
>)
    requires
        actions.wf(),
    ensures
        views(r@) == spec_scripts_to_load(*actions, *flows),
{
    let n = actions.len();
    let ghost keys = actions.keys();
    let ghost values = actions.values();
    let mut r: Vec<String> = Vec::new();
    let mut marks: NameMap<Option<Action<OptionallyLoadedScript>>> = NameMap::new();
    let mut i: usize = 0;
    proof {
        assert(keys.take(0) =~= Seq::<Seq<char>>::empty());
        assert(views(r@) =~= missing_scripts(keys.take(0), values.take(0)));
        assert(deletion_marks(marks) =~= Map::<Seq<char>, bool>::empty());
    }
    while i < n
        invariant
            actions.wf(),
            keys == actions.keys(),
            values == actions.values(),
            n == keys.len(),
            i <= n,
            views(r@) == missing_scripts(keys.take(i as int), values.take(i as int)),
            marks.wf(),
            deletion_marks(marks) == Map::new(
                |k: Seq<char>| keys.take(i as int).contains(k),
                |k: Seq<char>| actions.value_of(k) is None,
            ),
        decreases n - i,
    {
        let key = actions.key_at(i);
        let value = actions.value_at(i);
        let ghost old_r = r@;
        let ghost before = marks;
        let mark = deletion_mark(value.is_none());
        let ghost mark_v = mark;
        marks.insert(key.clone(), mark);
        match value {
            Some(a) => {
                if a.script.is_none() {
                    r.push(key.clone());
                }
            },
            None => {},
        }
        proof {
            assert(keys.take(i + 1).drop_last() =~= keys.take(i as int));
            assert(values.take(i + 1).drop_last() =~= values.take(i as int));
            assert(views(r@) =~= missing_scripts(keys.take(i + 1), values.take(i + 1)));
            lemma_marks_insert(before, marks, key@, mark_v);
            actions.lemma_value_at(i as int);
            lemma_marks_step(
                keys,
                i as int,
                deletion_marks(before),
                |k: Seq<char>| actions.value_of(k) is None,
            );
        }
        i = i + 1;
    }
    proof {
        assert(keys.take(n as int) =~= keys);
        assert(values.take(n as int) =~= values);
        assert(deletion_marks(marks) =~= deletion_marks(*actions));
    }
    let ghost missing = views(r@);
    let names = flow_action_names_of(flows);
    let ghost all = views(names@);
    let ghost m0 = deletion_marks(*actions);
    let nn = names.len();
    let mut k: usize = 0;
    let mut stopped = false;
    let ghost mut acc: Seq<Seq<char>> = Seq::empty();
    proof {
        assert(all.skip(0) =~= all);
        assert(acc + scan_flow_names(all.skip(0), deletion_marks(marks)).0 =~= scan_flow_names(
            all,
            m0,
        ).0);
    }
    while k < nn && !stopped
        invariant
            nn == names@.len(),
            all == views(names@),
            k <= nn,
            marks.wf(),
            views(r@) == missing + acc,
            stopped ==> scan_flow_names(all, m0).0 == acc,
            !stopped ==> scan_flow_names(all, m0).0 == acc + scan_flow_names(
                all.skip(k as int),
                deletion_marks(marks),
            ).0,
            !stopped ==> scan_flow_names(all, m0).1 == scan_flow_names(
                all.skip(k as int),
                deletion_marks(marks),
            ).1,
        decreases nn - k,
    {
        let name = &names[k];
        let ghost tail = all.skip(k as int);
        let ghost cur = deletion_marks(marks);
        proof {
            assert(tail[0] == name@);
            assert(tail.drop_first() =~= all.skip(k + 1));
        }
        match marks.get(name.as_str()) {
            Some(entry) => {
                proof {
                    assert(cur.contains_key(name@));
                    assert(cur[name@] == (marks.value_of(name@) is None));
                }
                if entry.is_none() {
                    stopped = true;
                }
            },
            None => {
                let ghost before = marks;
                let ghost old_r = r@;
                r.push(name.clone());
                let mark = deletion_mark(false);
                let ghost mark_v = mark;
                marks.insert(name.clone(), mark);
                proof {
                    lemma_marks_insert(before, marks, name@, mark_v);
                    assert(!cur.contains_key(name@));
                    lemma_views_push(old_r, *name);
                    acc = acc.push(name@);
                    assert(views(r@) =~= missing + acc);
                    assert(scan_flow_names(tail, cur).0 =~= seq![name@] + scan_flow_names(all.skip(k + 1), deletion_marks(marks)).0);
                }
            },
        }
        k = k + 1;
    }
    proof {
        if !stopped {
            assert(all.skip(nn as int) =~= Seq::<Seq<char>>::empty());
            assert(acc + Seq::<Seq<char>>::empty() =~= acc);
        }
    }
    r
}

/// `m` holds the definitions `actions` completed with `scripts`, the scripts
/// read for [`spec_scripts_to_load`], in that order: each definition with its
/// script read where it had none, and each name that only flows use as an
/// action with that script, no timeout, and not allowed to fail.
pub open spec fn completed_with(
    m: Actions<LoadedScript>,
    actions: Actions<OptionallyLoadedScript>,
    flows: Flows,
    scripts: Seq<String>,
) -> bool {
    let miss = missing_scripts(actions.keys(), actions.values()).len();
    let reads = flow_scan(actions, flows).0;
    &&& forall|x: Seq<char>| #[trigger]
        m.to_map().contains_key(x) <==> (actions.contains_key(x) || reads.contains(x))
    &&& forall|i: int|
        0 <= i < actions.keys().len() ==> #[trigger] m.to_map()[actions.keys()[i]] == with_script(
            actions.values()[i],
            scripts[missing_before(actions.values(), i)],
        )
    &&& forall|j: int|
        0 <= j < reads.len() ==> #[trigger] m.to_map()[reads[j]] == flow_only_action(
            scripts[miss + j],
        )
}

/// Completes the definitions `actions` with `scripts`, the scripts read for
/// the names that [`scripts_to_load`] gives, in that order. Fails when a flow
/// uses an action defined as deleted.
pub fn complete_actions(
    actions: &Actions<OptionallyLoadedScript>,
    flows: &Flows,
    scripts: &Vec<String>,
) -> (r: Result<Actions<LoadedScript>, LoadActionsV1Error>)
    requires
        actions.wf(),
        scripts@.len() == spec_scripts_to_load(*actions, *flows).len(),
    ensures
        match r {
            Ok(m) => {
                &&& flow_scan(*actions, *flows).1 is None
                &&& m.wf()
                &&& completed_with(m, *actions, *flows, scripts@)
            },
            Err(LoadActionsV1Error::DeletedActionInFlow { action_name }) => flow_scan(
                *actions,
                *flows,
            ).1 == Some(action_name@),
        },
{
    let n = actions.len();
    let ghost keys = actions.keys();
    let ghost values = actions.values();
    let ghost miss = missing_scripts(keys, values).len();
    proof {
        lemma_missing_before(keys, values, n as int);
        assert(keys.take(n as int) =~= keys);
        assert(values.take(n as int) =~= values);
    }
    let mut out: Actions<LoadedScript> = NameMap::new();
    let mut next: usize = 0;
    let mut i: usize = 0;
    while i < n
        invariant
            actions.wf(),
            keys == actions.keys(),
            values == actions.values(),
            n == keys.len(),
            miss == missing_scripts(keys, values).len(),
            miss == missing_before(values, n as int),
            forall|j: int| 0 <= j <= n ==> missing_before(values, j) <= missing_before(values, n as int),
            scripts@.len() >= miss,
            i <= n,
            out.wf(),
            next == missing_before(values, i as int),
            forall|x: Seq<char>| #[trigger]
                out.to_map().contains_key(x) <==> keys.take(i as int).contains(x),
            forall|p: int|
                0 <= p < i ==> #[trigger] out.to_map()[keys[p]] == with_script(
                    values[p],
                    scripts@[missing_before(values, p)],
                ),
        decreases n - i,
    {
        let key = actions.key_at(i);
        let value = actions.value_at(i);
        let loaded = match value {
            None => None,
            Some(a) => {
                let script = match &a.script {
                    Some(s) => s.clone(),
                    None => {
                        proof {
                            assert(missing_before(values, i + 1) == next + 1);
                        }
                        let s = scripts[next].clone();
                        assert(next < scripts.len());
                        next = next + 1;
                        s
                    },
                };
                Some(
                    Action {
                        timeout: copy_opt_string(&a.timeout),
                        allowed_to_fail: a.allowed_to_fail,
                        script,
                    },
                )
            },
        };
        let ghost before = out.to_map();
        out.insert(key.clone(), loaded);
        proof {
            assert(loaded == with_script(values[i as int], scripts@[missing_before(values, i as int)]));
            assert forall|x: Seq<char>| #[trigger]
                out.to_map().contains_key(x) <==> keys.take(i + 1).contains(x) by {
                if keys.take(i + 1).contains(x) {
                    let j = choose|j: int| 0 <= j < i + 1 && #[trigger] keys.take(i + 1)[j] == x;
                    if j < i {
                        assert(keys.take(i as int)[j] == x);
                    }
                }
                if keys.take(i as int).contains(x) {
                    let j = choose|j: int| 0 <= j < i && #[trigger] keys.take(i as int)[j] == x;
                    assert(keys.take(i + 1)[j] == x);
                }
                if x == key@ {
                    assert(keys.take(i + 1)[i as int] == x);
                }
            }
            assert forall|p: int| 0 <= p < i + 1 implies #[trigger] out.to_map()[keys[p]]
                == with_script(values[p], scripts@[missing_before(values, p)]) by {
                if p < i {
                    assert(name_lt(keys[p], keys[i as int]));
                    lemma_name_lt_irreflexive(keys[p]);
                }
            }
        }
        i = i + 1;
    }
    proof {
        assert(keys.take(n as int) =~= keys);
        assert(deletion_marks(out) =~= deletion_marks(*actions)) by {
            assert forall|x: Seq<char>| out.contains_key(x) == actions.contains_key(x) by {
                assert(out.to_map().contains_key(x) == out.contains_key(x));
            }
            assert forall|x: Seq<char>| #[trigger] out.contains_key(x) implies (out.value_of(x) is None)
                == (actions.value_of(x) is None) by {
                assert(out.to_map().contains_key(x));
                let p = choose|p: int| 0 <= p < n && keys[p] == x;
                actions.lemma_value_at(p);
                assert(out.to_map()[keys[p]] == out.value_of(x));
            }
        }
    }
    let names = flow_action_names_of(flows);
    let ghost all = views(names@);
    let ghost m0 = deletion_marks(*actions);
    let nn = names.len();
    let mut k: usize = 0;
    let ghost mut acc: Seq<Seq<char>> = Seq::empty();
    proof {
        assert(all.skip(0) =~= all);
        assert(acc + scan_flow_names(all.skip(0), deletion_marks(out)).0 =~= scan_flow_names(
            all,
            m0,
        ).0);
    }
    while k < nn
        invariant
            actions.wf(),
            keys == actions.keys(),
            values == actions.values(),
            n == keys.len(),
            miss == missing_scripts(keys, values).len(),
            scripts@.len() == miss + flow_scan(*actions, *flows).0.len(),
            nn == names@.len(),
            all == views(names@),
            all == flow_action_names(*flows),
            m0 == deletion_marks(*actions),
            k <= nn,
            out.wf(),
            next == miss + acc.len(),
            scan_flow_names(all, m0).0 == acc + scan_flow_names(
                all.skip(k as int),
                deletion_marks(out),
            ).0,
            scan_flow_names(all, m0).1 == scan_flow_names(
                all.skip(k as int),
                deletion_marks(out),
            ).1,
            forall|x: Seq<char>| #[trigger]
                out.to_map().contains_key(x) <==> (actions.contains_key(x) || acc.contains(x)),
            forall|p: int|
                0 <= p < n ==> #[trigger] out.to_map()[keys[p]] == with_script(
                    values[p],
                    scripts@[missing_before(values, p)],
                ),
            forall|j: int|
                0 <= j < acc.len() ==> #[trigger] out.to_map()[acc[j]] == flow_only_action(
                    scripts@[miss + j],
                ),
        decreases nn - k,
    {
        let name = &names[k];
        let ghost tail = all.skip(k as int);
        let ghost cur = deletion_marks(out);
        proof {
            assert(tail[0] == name@);
            assert(tail.drop_first() =~= all.skip(k + 1));
        }
        match out.get(name.as_str()) {
            Some(entry) => {
                proof {
                    assert(cur.contains_key(name@));
                    assert(cur[name@] == (out.value_of(name@) is None));
                }
                if entry.is_none() {
                    return Err(LoadActionsV1Error::DeletedActionInFlow { action_name: name.clone() });
                }
            },
            None => {
                proof {
                    assert(!cur.contains_key(name@));
                    assert(scan_flow_names(tail, cur).0 =~= seq![name@] + scan_flow_names(
                        all.skip(k + 1),
                        cur.insert(name@, false),
                    ).0);
                    assert(!out.to_map().contains_key(name@)) by {
                        assert(out.to_map().contains_key(name@) == out.contains_key(name@));
                    }
                }
                let script = scripts[next].clone();
                let loaded = Some(Action { timeout: None, allowed_to_fail: false, script });
                let ghost before = out;
                let ghost loaded_v = loaded;
                out.insert(name.clone(), loaded);
                assert(next < scripts.len());
                next = next + 1;
                proof {
                    lemma_marks_insert(before, out, name@, loaded_v);
                    assert forall|j: int| 0 <= j < acc.len() implies acc[j] != name@ by {
                        assert(acc.contains(acc[j]));
                    }
                    assert forall|p: int| 0 <= p < n implies keys[p] != name@ by {
                        assert(actions.contains_key(keys[p]));
                    }
                    let old_acc = acc;
                    acc = acc.push(name@);
                    assert forall|x: Seq<char>| #[trigger] acc.contains(x) <==> (old_acc.contains(x)
                        || x == name@) by {
                        if acc.contains(x) {
                            let j = choose|j: int| 0 <= j < acc.len() && acc[j] == x;
                            if j < old_acc.len() {
                                assert(old_acc[j] == x);
                            }
                        }
                        if old_acc.contains(x) {
                            let j = choose|j: int| 0 <= j < old_acc.len() && old_acc[j] == x;
                            assert(acc[j] == x);
                        }
                        if x == name@ {
                            assert(acc[old_acc.len() as int] == x);
                        }
                    }
                    assert forall|j: int| 0 <= j < acc.len() implies #[trigger] out.to_map()[acc[j]]
                        == flow_only_action(scripts@[miss + j]) by {
                        if j < old_acc.len() {
                            assert(acc[j] == old_acc[j]);
                        }
                    }
                }
            },
        }
        k = k + 1;
    }
    proof {
        assert(all.skip(nn as int) =~= Seq::<Seq<char>>::empty());
        assert(acc + Seq::<Seq<char>>::empty() =~= acc);
    }
    Ok(out)
}

} // verus!
