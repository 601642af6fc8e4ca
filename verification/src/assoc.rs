//! Association lists keyed by strings.
//!
//! Both halves of the relay keep small string-keyed tables whose insertion
//! order matters (session member lists are ordered by first join). The tables
//! are held as vectors of pairs with pairwise-distinct keys; this module
//! gives the specification-level lookup, update and removal operations on
//! such sequences, the lemmas that characterise them positionally, and the
//! executable scans the state machines share.

use vstd::prelude::*;

verus! {

/// All keys of the association sequence are pairwise distinct.
pub open spec fn keys_distinct<V>(s: Seq<(Seq<char>, V)>) -> bool {
    forall|i: int, j: int| 0 <= i < j < s.len() ==> s[i].0 != s[j].0
}

/// The value bound to `k`, scanning from the front.
pub open spec fn assoc_lookup<V>(s: Seq<(Seq<char>, V)>, k: Seq<char>) -> Option<V>
    decreases s.len(),
{
    if s.len() == 0 {
        None
    } else if s[0].0 == k {
        Some(s[0].1)
    } else {
        assoc_lookup(s.drop_first(), k)
    }
}

/// Binds `k` to `v`: replaces the first entry with key `k`, or appends one.
pub open spec fn assoc_update<V>(s: Seq<(Seq<char>, V)>, k: Seq<char>, v: V) -> Seq<(Seq<char>, V)>
    decreases s.len(),
{
    if s.len() == 0 {
        seq![(k, v)]
    } else if s[0].0 == k {
        seq![(k, v)] + s.drop_first()
    } else {
        seq![s[0]] + assoc_update(s.drop_first(), k, v)
    }
}

/// Removes the first entry with key `k`, if any.
pub open spec fn assoc_remove<V>(s: Seq<(Seq<char>, V)>, k: Seq<char>) -> Seq<(Seq<char>, V)>
    decreases s.len(),
{
    if s.len() == 0 {
        s
    } else if s[0].0 == k {
        s.drop_first()
    } else {
        seq![s[0]] + assoc_remove(s.drop_first(), k)
    }
}

/// A lookup that hits at index `i` returns that entry's value.
pub proof fn lemma_lookup_at<V>(s: Seq<(Seq<char>, V)>, k: Seq<char>, i: int)
    requires
        0 <= i < s.len(),
        s[i].0 == k,
        forall|j: int| 0 <= j < i ==> s[j].0 != k,
    ensures
        assoc_lookup(s, k) == Some(s[i].1),
    decreases i,
{
    if i > 0 {
        lemma_lookup_at(s.drop_first(), k, i - 1);
    }
}

/// A key that no entry carries is not bound.
pub proof fn lemma_lookup_absent<V>(s: Seq<(Seq<char>, V)>, k: Seq<char>)
    requires
        forall|j: int| 0 <= j < s.len() ==> s[j].0 != k,
    ensures
        assoc_lookup(s, k) is None,
    decreases s.len(),
{
    if s.len() > 0 {
        lemma_lookup_absent(s.drop_first(), k);
    }
}

/// Updating a key that sits at index `i` rewrites exactly that entry.
pub proof fn lemma_update_at<V>(s: Seq<(Seq<char>, V)>, k: Seq<char>, v: V, i: int)
    requires
        0 <= i < s.len(),
        s[i].0 == k,
        forall|j: int| 0 <= j < i ==> s[j].0 != k,
    ensures
        assoc_update(s, k, v) =~= s.update(i, (k, v)),
    decreases i,
{
    if i > 0 {
        lemma_update_at(s.drop_first(), k, v, i - 1);
    }
}

/// Updating an unbound key appends a fresh entry.
pub proof fn lemma_update_absent<V>(s: Seq<(Seq<char>, V)>, k: Seq<char>, v: V)
    requires
        forall|j: int| 0 <= j < s.len() ==> s[j].0 != k,
    ensures
        assoc_update(s, k, v) =~= s.push((k, v)),
    decreases s.len(),
{
    if s.len() > 0 {
        lemma_update_absent(s.drop_first(), k, v);
    }
}

/// Removing a key that sits at index `i` deletes exactly that entry.
pub proof fn lemma_remove_at<V>(s: Seq<(Seq<char>, V)>, k: Seq<char>, i: int)
    requires
        0 <= i < s.len(),
        s[i].0 == k,
        forall|j: int| 0 <= j < i ==> s[j].0 != k,
    ensures
        assoc_remove(s, k) =~= s.remove(i),
    decreases i,
{
    if i > 0 {
        lemma_remove_at(s.drop_first(), k, i - 1);
    }
}

/// Removing an unbound key leaves the sequence as it was.
pub proof fn lemma_remove_absent<V>(s: Seq<(Seq<char>, V)>, k: Seq<char>)
    requires
        forall|j: int| 0 <= j < s.len() ==> s[j].0 != k,
    ensures
        assoc_remove(s, k) =~= s,
    decreases s.len(),
{
    if s.len() > 0 {
        lemma_remove_absent(s.drop_first(), k);
    }
}

/// A lookup either fails, and no entry carries the key, or returns the value
/// of the first entry carrying it.
pub proof fn lemma_lookup_cases<V>(s: Seq<(Seq<char>, V)>, k: Seq<char>)
    ensures
        match assoc_lookup(s, k) {
            None => forall|j: int| 0 <= j < s.len() ==> s[j].0 != k,
            Some(v) => exists|i: int|
                0 <= i < s.len() && s[i] == (k, v) && (forall|j: int|
                    0 <= j < i ==> s[j].0 != k),
        },
    decreases s.len(),
{
    if s.len() > 0 && s[0].0 != k {
        lemma_lookup_cases(s.drop_first(), k);
        match assoc_lookup(s, k) {
            None => {
                assert(forall|j: int| 1 <= j < s.len() ==> s[j] == s.drop_first()[j - 1]);
            },
            Some(v) => {
                let i0 = choose|i: int|
                    0 <= i < s.drop_first().len() && s.drop_first()[i] == (k, v) && (forall|j: int|
                        0 <= j < i ==> s.drop_first()[j].0 != k);
                assert(forall|j: int| 1 <= j < s.len() ==> s[j] == s.drop_first()[j - 1]);
                assert(s[i0 + 1] == (k, v));
            },
        }
    }
}

/// How an update reads back: the updated key is bound to the new value, every
/// other key is bound as before.
pub proof fn lemma_lookup_update<V>(s: Seq<(Seq<char>, V)>, k: Seq<char>, v: V, k2: Seq<char>)
    ensures
        assoc_lookup(assoc_update(s, k, v), k2) == if k2 == k {
            Some(v)
        } else {
            assoc_lookup(s, k2)
        },
    decreases s.len(),
{
    let u = assoc_update(s, k, v);
    if s.len() == 0 {
        assert(u == seq![(k, v)]);
        assert(u[0] == (k, v));
        assert(u.drop_first() =~= Seq::<(Seq<char>, V)>::empty());
        assert(assoc_lookup(Seq::<(Seq<char>, V)>::empty(), k2) is None);
    } else if s[0].0 == k {
        assert(u == seq![(k, v)] + s.drop_first());
        assert(u[0] == (k, v));
        assert(u.drop_first() =~= s.drop_first());
    } else {
        lemma_lookup_update(s.drop_first(), k, v, k2);
        assert(u == seq![s[0]] + assoc_update(s.drop_first(), k, v));
        assert(u[0] == s[0]);
        assert(u.drop_first() =~= assoc_update(s.drop_first(), k, v));
    }
}

/// How a removal reads back, over distinct keys: the removed key is unbound,
/// every other key is bound as before.
pub proof fn lemma_lookup_remove<V>(s: Seq<(Seq<char>, V)>, k: Seq<char>, k2: Seq<char>)
    requires
        keys_distinct(s),
    ensures
        assoc_lookup(assoc_remove(s, k), k2) == if k2 == k {
            None
        } else {
            assoc_lookup(s, k2)
        },
    decreases s.len(),
{
    let u = assoc_remove(s, k);
    if s.len() == 0 {
    } else if s[0].0 == k {
        assert(u == s.drop_first());
        if k2 == k {
            assert(forall|j: int| 0 <= j < u.len() ==> u[j] == s[j + 1]);
            lemma_lookup_absent(u, k);
        }
    } else {
        assert(forall|j: int| 0 <= j < s.drop_first().len() ==> s.drop_first()[j] == s[j + 1]);
        lemma_lookup_remove(s.drop_first(), k, k2);
        assert(u == seq![s[0]] + assoc_remove(s.drop_first(), k));
        assert(u[0] == s[0]);
        assert(u.drop_first() =~= assoc_remove(s.drop_first(), k));
    }
}

/// An update keeps the keys pairwise distinct.
pub proof fn lemma_update_keys_distinct<V>(s: Seq<(Seq<char>, V)>, k: Seq<char>, v: V)
    requires
        keys_distinct(s),
    ensures
        keys_distinct(assoc_update(s, k, v)),
{
    lemma_lookup_cases(s, k);
    match assoc_lookup(s, k) {
        None => {
            lemma_update_absent(s, k, v);
        },
        Some(w) => {
            let i = choose|i: int|
                0 <= i < s.len() && s[i] == (k, w) && (forall|j: int| 0 <= j < i ==> s[j].0 != k);
            lemma_update_at(s, k, v, i);
        },
    }
}

/// A removal keeps the keys pairwise distinct.
pub proof fn lemma_remove_keys_distinct<V>(s: Seq<(Seq<char>, V)>, k: Seq<char>)
    requires
        keys_distinct(s),
    ensures
        keys_distinct(assoc_remove(s, k)),
{
    lemma_lookup_cases(s, k);
    match assoc_lookup(s, k) {
        None => {
            lemma_remove_absent(s, k);
        },
        Some(w) => {
            let i = choose|i: int|
                0 <= i < s.len() && s[i] == (k, w) && (forall|j: int| 0 <= j < i ==> s[j].0 != k);
            lemma_remove_at(s, k, i);
            assert(keys_distinct(s.remove(i))) by {
                assert(forall|j: int|
                    0 <= j < s.remove(i).len() ==> s.remove(i)[j] == if j < i {
                        s[j]
                    } else {
                        s[j + 1]
                    });
            }
        },
    }
}

/// Every element of a filtered sequence comes from the original.
pub proof fn lemma_filter_subset<A>(s: Seq<A>, pred: spec_fn(A) -> bool)
    ensures
        forall|i: int| 0 <= i < s.filter(pred).len() ==> s.contains(#[trigger] s.filter(pred)[i]),
    decreases s.len(),
{
    reveal(Seq::filter);
    if s.len() > 0 {
        lemma_filter_subset(s.drop_last(), pred);
        let subf = s.drop_last().filter(pred);
        assert forall|i: int| 0 <= i < s.filter(pred).len() implies s.contains(
            #[trigger] s.filter(pred)[i],
        ) by {
            if i < subf.len() {
                assert(s.drop_last().contains(subf[i]));
                let j = choose|j: int| 0 <= j < s.drop_last().len() && s.drop_last()[j] == subf[i];
                assert(s[j] == subf[i]);
            } else {
                assert(s.filter(pred)[i] == s.last());
                assert(s[s.len() - 1] == s.last());
            }
        }
    }
}

/// Filtering a sequence of pairwise-distinct elements keeps them distinct.
pub proof fn lemma_filter_distinct<A>(s: Seq<A>, pred: spec_fn(A) -> bool)
    requires
        forall|i: int, j: int| 0 <= i < j < s.len() ==> s[i] != s[j],
    ensures
        forall|i: int, j: int|
            0 <= i < j < s.filter(pred).len() ==> s.filter(pred)[i] != s.filter(pred)[j],
    decreases s.len(),
{
    reveal(Seq::filter);
    if s.len() > 0 {
        assert(forall|i: int, j: int|
            0 <= i < j < s.drop_last().len() ==> s.drop_last()[i] != s.drop_last()[j]);
        lemma_filter_distinct(s.drop_last(), pred);
        let subf = s.drop_last().filter(pred);
        if pred(s.last()) {
            lemma_filter_subset(s.drop_last(), pred);
            assert forall|i: int, j: int|
                0 <= i < j < s.filter(pred).len() implies s.filter(pred)[i] != s.filter(
                pred,
            )[j] by {
                if j == subf.len() {
                    assert(s.drop_last().contains(subf[i]));
                    let x = choose|x: int|
                        0 <= x < s.drop_last().len() && s.drop_last()[x] == subf[i];
                    assert(s[x] == subf[i]);
                    assert(s[x] != s.last());
                }
            }
        }
    }
}

/// Finds the entry keyed by `k`, returning its index.
pub fn find_key<V: DeepView>(v: &Vec<(String, V)>, k: &String) -> (r: Option<usize>)
    ensures
        match r {
            Some(i) => i < v@.len() && v@[i as int].0@ == k@ && forall|j: int|
                0 <= j < i ==> v@[j].0@ != k@,
            None => forall|j: int| 0 <= j < v@.len() ==> v@[j].0@ != k@,
        },
{
    let n = v.len();
    let mut i: usize = 0;
    while i < n
        invariant
            i <= n,
            n == v@.len(),
            forall|j: int| 0 <= j < i ==> v@[j].0@ != k@,
        decreases n - i,
    {
        if String::eq(&v[i].0, k) {
            return Some(i);
        }
        i = i + 1;
    }
    None
}

/// Whether the string sequence `v` holds the value of `x`.
pub fn contains_string(v: &Vec<String>, x: &String) -> (r: bool)
    ensures
        r == v.deep_view().contains(x@),
{
    let n = v.len();
    let mut i: usize = 0;
    while i < n
        invariant
            i <= n,
            n == v@.len(),
            forall|j: int| 0 <= j < i ==> v@[j]@ != x@,
        decreases n - i,
    {
        if String::eq(&v[i], x) {
            assert(v.deep_view()[i as int] == x@);
            return true;
        }
        i = i + 1;
    }
    assert(forall|j: int| 0 <= j < v.deep_view().len() ==> v.deep_view()[j] != x@);
    false
}

/// Holds of the strings that differ from `x`.
pub open spec fn differs_from(x: Seq<char>) -> spec_fn(Seq<char>) -> bool {
    |m: Seq<char>| m != x
}

/// Copies `v` without the occurrences of `x`, keeping the order.
pub fn remove_string(v: &Vec<String>, x: &String) -> (r: Vec<String>)
    ensures
        r.deep_view() == v.deep_view().filter(differs_from(x@)),
{
    let ghost pred = differs_from(x@);
    let n = v.len();
    let mut out: Vec<String> = Vec::new();
    let mut i: usize = 0;
    proof {
        assert(v.deep_view().take(0) =~= Seq::<Seq<char>>::empty());
        reveal(Seq::filter);
    }
    while i < n
        invariant
            i <= n,
            n == v@.len(),
            out.deep_view() == v.deep_view().take(i as int).filter(pred),
            pred == differs_from(x@),
        decreases n - i,
    {
        proof {
            assert(v.deep_view().take(i + 1) =~= v.deep_view().take(i as int).push(
                v.deep_view()[i as int],
            ));
            lemma_filter_push(v.deep_view().take(i as int), pred, v.deep_view()[i as int]);
        }
        if !String::eq(&v[i], x) {
            out.push(v[i].clone());
            assert(out.deep_view() =~= v.deep_view().take(i + 1).filter(pred));
        } else {
            assert(out.deep_view() =~= v.deep_view().take(i + 1).filter(pred));
        }
        i = i + 1;
    }
    proof {
        assert(v.deep_view().take(n as int) =~= v.deep_view());
    }
    out
}

/// Filtering past a pushed element keeps it iff the predicate holds of it.
pub proof fn lemma_filter_push<A>(s: Seq<A>, pred: spec_fn(A) -> bool, x: A)
    ensures
        s.push(x).filter(pred) == if pred(x) {
            s.filter(pred).push(x)
        } else {
            s.filter(pred)
        },
{
    reveal(Seq::filter);
    assert(s.push(x).drop_last() =~= s);
}

} // verus!
