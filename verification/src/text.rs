//! Ordering of names.
//!
//! Names (of actions, flows, triggers, targets) are kept and compared in the
//! order in which Rust orders `String`s: lexicographically, character by
//! character, by code point (the byte order of UTF-8 is the code point order).
use vstd::prelude::*;

verus! {

/// `a` comes strictly before `b`.
pub open spec fn name_lt(a: Seq<char>, b: Seq<char>) -> bool
    decreases a.len(),
{
    if a.len() == 0 {
        b.len() > 0
    } else if b.len() == 0 {
        false
    } else if a[0] != b[0] {
        (a[0] as int) < (b[0] as int)
    } else {
        name_lt(a.drop_first(), b.drop_first())
    }
}

/// `a` comes before `b` or equals it.
pub open spec fn name_le(a: Seq<char>, b: Seq<char>) -> bool {
    a == b || name_lt(a, b)
}

/// Every name of `s` comes strictly before the next one.
pub open spec fn strictly_sorted(s: Seq<Seq<char>>) -> bool {
    forall|i: int, j: int| 0 <= i < j < s.len() ==> name_lt(#[trigger] s[i], #[trigger] s[j])
}

/// Every name of `s` comes before the next one or equals it.
pub open spec fn sorted(s: Seq<Seq<char>>) -> bool {
    forall|i: int, j: int| 0 <= i < j < s.len() ==> name_le(#[trigger] s[i], #[trigger] s[j])
}

/// No name comes strictly before itself.
pub proof fn lemma_name_lt_irreflexive(a: Seq<char>)
    ensures
        !name_lt(a, a),
    decreases a.len(),
{
    if a.len() > 0 {
        lemma_name_lt_irreflexive(a.drop_first());
    }
}

/// Of two different names, one comes strictly before the other, and never both.
pub proof fn lemma_name_lt_total(a: Seq<char>, b: Seq<char>)
    ensures
        a != b ==> (name_lt(a, b) || name_lt(b, a)),
        !(name_lt(a, b) && name_lt(b, a)),
    decreases a.len(),
{
    if a.len() > 0 && b.len() > 0 && a[0] == b[0] {
        lemma_name_lt_total(a.drop_first(), b.drop_first());
        if a != b {
            assert(a.drop_first() != b.drop_first()) by {
                if a.drop_first() == b.drop_first() {
                    assert(a =~= seq![a[0]] + a.drop_first());
                    assert(b =~= seq![b[0]] + b.drop_first());
                }
            }
        }
    } else if a.len() > 0 && b.len() > 0 {
        if a[0] != b[0] {
            assert((a[0] as int) != (b[0] as int));
        }
    } else if a.len() == 0 && b.len() == 0 {
        assert(a =~= b);
    }
}

/// Coming strictly before is transitive.
pub proof fn lemma_name_lt_transitive(a: Seq<char>, b: Seq<char>, c: Seq<char>)
    requires
        name_lt(a, b),
        name_lt(b, c),
    ensures
        name_lt(a, c),
    decreases a.len(),
{
    if a.len() > 0 && b.len() > 0 && c.len() > 0 {
        if a[0] == b[0] && b[0] == c[0] {
            lemma_name_lt_transitive(a.drop_first(), b.drop_first(), c.drop_first());
        }
    }
}

/// Coming before or equal, then strictly before, is strictly before.
pub proof fn lemma_name_le_lt(a: Seq<char>, b: Seq<char>, c: Seq<char>)
    requires
        name_le(a, b),
        name_lt(b, c),
    ensures
        name_lt(a, c),
{
    if a != b {
        lemma_name_lt_transitive(a, b, c);
    }
}

/// Coming strictly before, then before or equal, is strictly before.
pub proof fn lemma_name_lt_le(a: Seq<char>, b: Seq<char>, c: Seq<char>)
    requires
        name_lt(a, b),
        name_le(b, c),
    ensures
        name_lt(a, c),
{
    if b != c {
        lemma_name_lt_transitive(a, b, c);
    }
}

/// Coming before or equal is transitive.
pub proof fn lemma_name_le_transitive(a: Seq<char>, b: Seq<char>, c: Seq<char>)
    requires
        name_le(a, b),
        name_le(b, c),
    ensures
        name_le(a, c),
{
    if a != b && b != c {
        lemma_name_lt_transitive(a, b, c);
    }
}

/// Two names that each come before or equal the other are equal.
pub proof fn lemma_name_le_antisymmetric(a: Seq<char>, b: Seq<char>)
    requires
        name_le(a, b),
        name_le(b, a),
    ensures
        a == b,
{
    lemma_name_lt_total(a, b);
}

/// A sorted sequence of names is determined by its multiset of names.
pub proof fn lemma_sorted_unique(a: Seq<Seq<char>>, b: Seq<Seq<char>>)
    requires
        sorted(a),
        sorted(b),
        a.to_multiset() == b.to_multiset(),
    ensures
        a == b,
    decreases a.len(),
{
    broadcast use vstd::seq_lib::group_to_multiset_ensures;

    assert(a.len() == a.to_multiset().len());
    assert(b.len() == b.to_multiset().len());
    if a.len() == 0 {
        assert(a =~= b);
    } else {
        assert(b.to_multiset().count(a[0]) > 0) by {
            assert(a.contains(a[0]));
        }
        assert(a.to_multiset().count(b[0]) > 0) by {
            assert(b.contains(b[0]));
        }
        let j = choose|j: int| 0 <= j < b.len() && b[j] == a[0];
        let i = choose|i: int| 0 <= i < a.len() && a[i] == b[0];
        assert(name_le(b[0], a[0])) by {
            if j > 0 {
                assert(name_le(b[0], b[j]));
            }
        }
        assert(name_le(a[0], b[0])) by {
            if i > 0 {
                assert(name_le(a[0], a[i]));
            }
        }
        lemma_name_le_antisymmetric(a[0], b[0]);
        assert(a.remove(0) =~= a.drop_first());
        assert(b.remove(0) =~= b.drop_first());
        assert(a.remove(0).to_multiset() =~= a.to_multiset().remove(a[0]));
        assert(b.remove(0).to_multiset() =~= b.to_multiset().remove(b[0]));
        assert(sorted(a.drop_first())) by {
            assert forall|p: int, q: int| 0 <= p < q < a.drop_first().len() implies name_le(
                #[trigger] a.drop_first()[p],
                #[trigger] a.drop_first()[q],
            ) by {
                assert(a.drop_first()[p] == a[p + 1]);
                assert(a.drop_first()[q] == a[q + 1]);
            }
        }
        assert(sorted(b.drop_first())) by {
            assert forall|p: int, q: int| 0 <= p < q < b.drop_first().len() implies name_le(
                #[trigger] b.drop_first()[p],
                #[trigger] b.drop_first()[q],
            ) by {
                assert(b.drop_first()[p] == b[p + 1]);
                assert(b.drop_first()[q] == b[q + 1]);
            }
        }
        lemma_sorted_unique(a.drop_first(), b.drop_first());
        assert(a =~= b) by {
            assert forall|k: int| 0 <= k < a.len() implies a[k] == b[k] by {
                if k > 0 {
                    assert(a[k] == a.drop_first()[k - 1]);
                    assert(b[k] == b.drop_first()[k - 1]);
                }
            }
        }
    }
}

/// The characters of `s`, in order.
pub fn chars_of(s: &str) -> (v: Vec<char>)
    ensures
        v@ == s@,
{
    let mut v: Vec<char> = Vec::new();
    for c in it: s.chars()
        invariant
            it.seq() == s@,
            v@ == it.seq().take(it.index() as int),
    {
        v.push(c);
        assert(v@ =~= it.seq().take(it.index() as int + 1));
    }
    assert(v@ =~= s@);
    v
}

/// Whether the characters `a[from..]` come strictly before `b[from..]`,
/// given that the first `from` characters of both agree.
fn chars_lt_from(a: &Vec<char>, b: &Vec<char>, from: usize) -> (r: bool)
    requires
        from <= a.len(),
        from <= b.len(),
    ensures
        r == name_lt(a@.skip(from as int), b@.skip(from as int)),
    decreases a.len() - from,
{
    if from == a.len() {
        b.len() > from
    } else if from == b.len() {
        false
    } else {
        let x = a[from];
        let y = b[from];
        proof {
            assert(a@.skip(from as int)[0] == x);
            assert(b@.skip(from as int)[0] == y);
            assert(a@.skip(from as int).drop_first() =~= a@.skip(from + 1));
            assert(b@.skip(from as int).drop_first() =~= b@.skip(from + 1));
        }
        if x != y {
            x < y
        } else {
            chars_lt_from(a, b, from + 1)
        }
    }
}

/// Whether `a` comes strictly before `b`.
pub fn name_less(a: &str, b: &str) -> (r: bool)
    ensures
        r == name_lt(a@, b@),
{
    let ca = chars_of(a);
    let cb = chars_of(b);
    assert(ca@.skip(0) =~= ca@);
    assert(cb@.skip(0) =~= cb@);
    chars_lt_from(&ca, &cb, 0)
}

/// The views of a sequence of strings.
pub open spec fn views(s: Seq<String>) -> Seq<Seq<char>> {
    s.map_values(|x: String| x@)
}

/// The views of a sequence with one more string.
pub proof fn lemma_views_push(s: Seq<String>, x: String)
    ensures
        views(s.push(x)) == views(s).push(x@),
{
    assert(views(s.push(x)) =~= views(s).push(x@));
}

/// A copy of a list of strings.
pub fn copy_strings(v: &Vec<String>) -> (r: Vec<String>)
    ensures
        r@ == v@,
{
    let n = v.len();
    let mut r: Vec<String> = Vec::new();
    let mut i: usize = 0;
    while i < n
        invariant
            n == v@.len(),
            i <= n,
            r@ == v@.take(i as int),
        decreases n - i,
    {
        r.push(v[i].clone());
        assert(r@ =~= v@.take(i + 1));
        i = i + 1;
    }
    assert(v@.take(n as int) =~= v@);
    r
}

/// Sorts `names` into the order of names (equal names stay together).
pub fn sort_names(names: &mut Vec<String>)
    ensures
        views(final(names)@).to_multiset() == views(old(names)@).to_multiset(),
        sorted(views(final(names)@)),
{
    let n = names.len();
    let ghost orig = views(names@);
    let mut out: Vec<String> = Vec::new();
    let mut k: usize = 0;
    proof {
        assert(views(out@) =~= orig.take(0));
    }
    while k < n
        invariant
            n == names@.len(),
            orig == views(names@),
            k <= n,
            views(out@).to_multiset() == orig.take(k as int).to_multiset(),
            sorted(views(out@)),
        decreases n - k,
    {
        let x = names[k].clone();
        let mut p: usize = 0;
        while p < out.len() && !name_less(x.as_str(), out[p].as_str())
            invariant
                p <= out@.len(),
                forall|q: int| 0 <= q < p ==> !name_lt(x@, #[trigger] out@[q]@),
            decreases out@.len() - p,
        {
            p = p + 1;
        }
        let ghost before = views(out@);
        proof {
            assert forall|q: int| 0 <= q < p implies name_le(#[trigger] before[q], x@) by {
                lemma_name_lt_total(x@, out@[q]@);
            }
            if p < out@.len() {
                assert forall|q: int| p <= q < before.len() implies name_lt(
                    x@,
                    #[trigger] before[q],
                ) by {
                    if q > p {
                        lemma_name_lt_le(x@, before[p as int], before[q]);
                    }
                }
            }
        }
        out.insert(p, x);
        proof {
            let after = views(out@);
            assert(after =~= before.insert(p as int, names@[k as int]@));
            assert(before =~= before.take(p as int) + before.skip(p as int));
            assert(after =~= before.take(p as int).push(names@[k as int]@) + before.skip(p as int));
            vstd::seq_lib::lemma_multiset_commutative(before.take(p as int), before.skip(p as int));
            vstd::seq_lib::lemma_multiset_commutative(
                before.take(p as int).push(names@[k as int]@),
                before.skip(p as int),
            );
            broadcast use vstd::seq_lib::group_to_multiset_ensures;
            assert(orig.take(k + 1) =~= orig.take(k as int).push(orig[k as int]));
            assert forall|i: int, j: int| 0 <= i < j < after.len() implies name_le(
                #[trigger] after[i],
                #[trigger] after[j],
            ) by {
                if j < p {
                } else if j == p {
                    assert(after[i] == before[i]);
                } else if i < p {
                    assert(after[j] == before[j - 1]);
                    if j - 1 >= p {
                        lemma_name_le_lt(before[i], x@, before[j - 1]);
                    }
                } else if i == p {
                    assert(after[j] == before[j - 1]);
                } else {
                    assert(after[i] == before[i - 1]);
                    assert(after[j] == before[j - 1]);
                }
            }
        }
        k = k + 1;
    }
    proof {
        assert(orig.take(n as int) =~= orig);
    }
    *names = out;
}

} // verus!
