//! Sequences searched by a predicate, and lists of key/value pairs.
use vstd::prelude::*;

verus! {

/// The index of the first element of `s` that satisfies `p`, or `-1` where none does.
pub open spec fn first_index<A>(s: Seq<A>, p: spec_fn(A) -> bool) -> int
    decreases s.len(),
{
    if s.len() == 0 {
        -1
    } else {
        let i = first_index(s.drop_last(), p);
        if i >= 0 {
            i
        } else if p(s.last()) {
            s.len() - 1
        } else {
            -1
        }
    }
}

/// `first_index` is the least index whose element satisfies `p`, and `-1`
/// exactly when no element does.
pub proof fn lemma_first_index<A>(s: Seq<A>, p: spec_fn(A) -> bool)
    ensures
        -1 <= first_index(s, p) < s.len(),
        first_index(s, p) == -1 ==> forall|j: int| 0 <= j < s.len() ==> !p(#[trigger] s[j]),
        first_index(s, p) >= 0 ==> p(s[first_index(s, p)]),
        forall|j: int| 0 <= j < first_index(s, p) ==> !p(#[trigger] s[j]),
    decreases s.len(),
{
    if s.len() > 0 {
        let d = s.drop_last();
        lemma_first_index(d, p);
        let i = first_index(d, p);
        assert forall|j: int| 0 <= j < s.len() && j < first_index(s, p) implies !p(#[trigger] s[j]) by {
            assert(s[j] == d[j]);
        }
        if first_index(s, p) == -1 {
            assert forall|j: int| 0 <= j < s.len() implies !p(#[trigger] s[j]) by {
                if j < s.len() - 1 {
                    assert(s[j] == d[j]);
                }
            }
        }
        if i >= 0 {
            assert(s[i] == d[i]);
        }
    }
}

/// Where every element before `k` fails `p` and `s[k]` satisfies it, `k` is the
/// first index.
pub proof fn lemma_first_index_is<A>(s: Seq<A>, p: spec_fn(A) -> bool, k: int)
    requires
        0 <= k < s.len(),
        p(s[k]),
        forall|j: int| 0 <= j < k ==> !p(#[trigger] s[j]),
    ensures
        first_index(s, p) == k,
{
    lemma_first_index(s, p);
}

/// Where no element satisfies `p`, the first index is `-1`.
pub proof fn lemma_first_index_none<A>(s: Seq<A>, p: spec_fn(A) -> bool)
    requires
        forall|j: int| 0 <= j < s.len() ==> !p(#[trigger] s[j]),
    ensures
        first_index(s, p) == -1,
{
    lemma_first_index(s, p);
}

/// The predicate "the pair's key is `k`".
pub open spec fn has_key<K, V>(k: K) -> spec_fn((K, V)) -> bool {
    |e: (K, V)| e.0 == k
}

/// The position of key `k` in the list of pairs `s`, or `-1`.
pub open spec fn key_index<K, V>(s: Seq<(K, V)>, k: K) -> int {
    first_index(s, has_key::<K, V>(k))
}

/// The list `s` with the value of key `k` set to `v`: the first pair with that
/// key is replaced, or the pair is appended where there is none.
pub open spec fn assoc_insert<K, V>(s: Seq<(K, V)>, k: K, v: V) -> Seq<(K, V)> {
    let i = key_index(s, k);
    if i >= 0 {
        s.update(i, (k, v))
    } else {
        s.push((k, v))
    }
}

/// The list `s` without the first pair whose key is `k`.
pub open spec fn assoc_remove<K, V>(s: Seq<(K, V)>, k: K) -> Seq<(K, V)> {
    let i = key_index(s, k);
    if i >= 0 {
        s.remove(i)
    } else {
        s
    }
}

/// The value of the first pair whose key is `k`, if any.
pub open spec fn assoc_get<K, V>(s: Seq<(K, V)>, k: K) -> Option<V> {
    let i = key_index(s, k);
    if i >= 0 {
        Some(s[i].1)
    } else {
        None
    }
}

/// No key occurs twice in `s`.
pub open spec fn keys_distinct<K, V>(s: Seq<(K, V)>) -> bool {
    forall|i: int, j: int| 0 <= i < s.len() && 0 <= j < s.len() && i != j ==> s[i].0 != s[j].0
}

/// Inserting keeps the keys distinct.
pub proof fn lemma_assoc_insert_distinct<K, V>(s: Seq<(K, V)>, k: K, v: V)
    requires
        keys_distinct(s),
    ensures
        keys_distinct(assoc_insert(s, k, v)),
{
    lemma_first_index(s, has_key::<K, V>(k));
    let r = assoc_insert(s, k, v);
    if key_index(s, k) < 0 {
        assert forall|i: int, j: int|
            0 <= i < r.len() && 0 <= j < r.len() && i != j implies r[i].0 != r[j].0 by {
            if i == s.len() {
                assert(!has_key::<K, V>(k)(s[j]));
            } else if j == s.len() {
                assert(!has_key::<K, V>(k)(s[i]));
            }
        }
    }
}

/// Removing keeps the keys distinct.
pub proof fn lemma_assoc_remove_distinct<K, V>(s: Seq<(K, V)>, k: K)
    requires
        keys_distinct(s),
    ensures
        keys_distinct(assoc_remove(s, k)),
{
    lemma_first_index(s, has_key::<K, V>(k));
    let i = key_index(s, k);
    if i >= 0 {
        let r = s.remove(i);
        assert forall|a: int, b: int|
            0 <= a < r.len() && 0 <= b < r.len() && a != b implies r[a].0 != r[b].0 by {
            let a2 = if a < i { a } else { a + 1 };
            let b2 = if b < i { b } else { b + 1 };
            assert(r[a] == s[a2]);
            assert(r[b] == s[b2]);
        }
    }
}

/// After `assoc_insert(s, k, v)`, `k` maps to `v`.
pub proof fn lemma_assoc_insert_get<K, V>(s: Seq<(K, V)>, k: K, v: V)
    ensures
        assoc_get(assoc_insert(s, k, v), k) == Some(v),
{
    let p = has_key::<K, V>(k);
    lemma_first_index(s, p);
    let r = assoc_insert(s, k, v);
    let i = key_index(s, k);
    if i >= 0 {
        assert forall|j: int| 0 <= j < i implies !p(#[trigger] r[j]) by {
            assert(r[j] == s[j]);
        }
        lemma_first_index_is(r, p, i);
    } else {
        assert forall|j: int| 0 <= j < s.len() implies !p(#[trigger] r[j]) by {
            assert(r[j] == s[j]);
        }
        lemma_first_index_is(r, p, s.len() as int);
    }
}

/// Sets the value of key `k` to `v` in the list of pairs `list`.
pub fn assoc_insert_exec<V: DeepView>(list: &mut Vec<(String, V)>, k: String, v: V)
    ensures
        final(list).deep_view() == assoc_insert(old(list).deep_view(), k@, v.deep_view()),
{
    let ghost s = list.deep_view();
    let ghost p = has_key::<Seq<char>, V::V>(k@);
    let mut i: usize = 0;
    while i < list.len()
        invariant
            i <= list@.len(),
            s == list.deep_view(),
            s == old(list).deep_view(),
            p == has_key::<Seq<char>, V::V>(k@),
            forall|j: int| 0 <= j < i ==> !p(#[trigger] s[j]),
        decreases list@.len() - i,
    {
        if list[i].0 == k {
            proof {
                lemma_first_index_is(s, p, i as int);
            }
            let ghost kv = k@;
            let ghost vv = v.deep_view();
            list.set(i, (k, v));
            proof {
                assert(list.deep_view() =~= s.update(i as int, (kv, vv)));
            }
            return;
        }
        i += 1;
    }
    proof {
        lemma_first_index_none(s, p);
    }
    let ghost kv = k@;
    let ghost vv = v.deep_view();
    list.push((k, v));
    proof {
        assert(list.deep_view() =~= s.push((kv, vv)));
    }
}

/// Removes the first pair with key `k` from `list` and returns its value.
pub fn assoc_remove_exec<V: DeepView>(list: &mut Vec<(String, V)>, k: &String) -> (r: Option<V>)
    ensures
        final(list).deep_view() == assoc_remove(old(list).deep_view(), k@),
        r.deep_view() == assoc_get(old(list).deep_view(), k@),
{
    let ghost s = list.deep_view();
    let ghost p = has_key::<Seq<char>, V::V>(k@);
    let mut i: usize = 0;
    while i < list.len()
        invariant
            i <= list@.len(),
            s == list.deep_view(),
            s == old(list).deep_view(),
            p == has_key::<Seq<char>, V::V>(k@),
            forall|j: int| 0 <= j < i ==> !p(#[trigger] s[j]),
        decreases list@.len() - i,
    {
        if list[i].0 == *k {
            proof {
                lemma_first_index_is(s, p, i as int);
            }
            let (_, v) = list.remove(i);
            proof {
                assert(list.deep_view() =~= s.remove(i as int));
            }
            return Some(v);
        }
        i += 1;
    }
    proof {
        lemma_first_index_none(s, p);
    }
    None
}

/// The set `s` (a sequence without repeats) with `x` added at the end where it
/// is not there yet.
pub open spec fn set_insert<A>(s: Seq<A>, x: A) -> Seq<A> {
    if s.contains(x) {
        s
    } else {
        s.push(x)
    }
}

/// The set `s` with the elements of `xs` added in turn.
pub open spec fn set_insert_all<A>(s: Seq<A>, xs: Seq<A>) -> Seq<A>
    decreases xs.len(),
{
    if xs.len() == 0 {
        s
    } else {
        set_insert(set_insert_all(s, xs.drop_last()), xs.last())
    }
}

/// After adding `x`, the set holds what it held, and `x`.
pub proof fn lemma_set_insert_contains<A>(s: Seq<A>, x: A)
    ensures
        set_insert(s, x).contains(x),
        forall|a: A| s.contains(a) ==> set_insert(s, x).contains(a),
        forall|a: A| set_insert(s, x).contains(a) ==> s.contains(a) || a == x,
{
    if !s.contains(x) {
        assert(s.push(x)[s.len() as int] == x);
        assert forall|a: A| s.contains(a) implies set_insert(s, x).contains(a) by {
            let k = choose|k: int| 0 <= k < s.len() && s[k] == a;
            assert(s.push(x)[k] == a);
        }
        assert forall|a: A| set_insert(s, x).contains(a) implies s.contains(a) || a == x by {
            let k = choose|k: int| 0 <= k < s.len() + 1 && s.push(x)[k] == a;
            if k < s.len() {
                assert(s[k] == a);
            }
        }
    }
}

/// Adding to a set keeps its elements distinct.
pub proof fn lemma_set_insert_all_distinct<A>(s: Seq<A>, xs: Seq<A>)
    requires
        s.no_duplicates(),
    ensures
        set_insert_all(s, xs).no_duplicates(),
    decreases xs.len(),
{
    if xs.len() > 0 {
        lemma_set_insert_all_distinct(s, xs.drop_last());
        let r = set_insert_all(s, xs.drop_last());
        let x = xs.last();
        if !r.contains(x) {
            let t = r.push(x);
            assert forall|i: int, j: int| 0 <= i < t.len() && 0 <= j < t.len() && i != j implies t[i] != t[j] by {
                if i == r.len() {
                    assert(r[j] == t[j]);
                } else if j == r.len() {
                    assert(r[i] == t[i]);
                }
            }
        }
    }
}

/// After adding `xs`, the set holds what it held and every element of `xs`,
/// and nothing else.
pub proof fn lemma_set_insert_all_contains<A>(s: Seq<A>, xs: Seq<A>)
    ensures
        forall|a: A| s.contains(a) ==> set_insert_all(s, xs).contains(a),
        forall|a: A| xs.contains(a) ==> set_insert_all(s, xs).contains(a),
        forall|a: A| set_insert_all(s, xs).contains(a) ==> s.contains(a) || xs.contains(a),
    decreases xs.len(),
{
    if xs.len() > 0 {
        let d = xs.drop_last();
        lemma_set_insert_all_contains(s, d);
        let r = set_insert_all(s, d);
        let x = xs.last();
        lemma_set_insert_contains(r, x);
        assert forall|a: A| xs.contains(a) implies set_insert_all(s, xs).contains(a) by {
            let k = choose|k: int| 0 <= k < xs.len() && xs[k] == a;
            if k < xs.len() - 1 {
                assert(d[k] == a);
                assert(d.contains(a));
            }
        }
        assert forall|a: A| set_insert_all(s, xs).contains(a) implies s.contains(a) || xs.contains(a) by {
            if r.contains(a) {
                if d.contains(a) {
                    let k = choose|k: int| 0 <= k < d.len() && d[k] == a;
                    assert(xs[k] == a);
                }
            } else {
                assert(xs[xs.len() - 1] == a);
            }
        }
    }
}

/// Whether `list` holds `x`.
pub fn contains_exec(list: &Vec<String>, x: &String) -> (r: bool)
    ensures
        r == list.deep_view().contains(x@),
{
    let mut i: usize = 0;
    while i < list.len()
        invariant
            i <= list@.len(),
            forall|j: int| 0 <= j < i ==> list.deep_view()[j] != x@,
        decreases list@.len() - i,
    {
        if list[i] == *x {
            assert(list.deep_view()[i as int] == x@);
            return true;
        }
        i += 1;
    }
    false
}

/// The set `s` without `x`.
pub open spec fn set_remove<A>(s: Seq<A>, x: A) -> Seq<A>
    decreases s.len(),
{
    if s.len() == 0 {
        s
    } else {
        let r = set_remove(s.drop_last(), x);
        if s.last() == x {
            r
        } else {
            r.push(s.last())
        }
    }
}

/// After removing `x`, the set holds what it held but `x`, and its elements
/// stay distinct.
pub proof fn lemma_set_remove<A>(s: Seq<A>, x: A)
    ensures
        forall|a: A| set_remove(s, x).contains(a) <==> s.contains(a) && a != x,
        s.no_duplicates() ==> set_remove(s, x).no_duplicates(),
    decreases s.len(),
{
    if s.len() > 0 {
        let d = s.drop_last();
        lemma_set_remove(d, x);
        let r = set_remove(d, x);
        let l = s.last();
        assert forall|a: A| set_remove(s, x).contains(a) <==> s.contains(a) && a != x by {
            if s.contains(a) && a != x && a != l {
                let k = choose|k: int| 0 <= k < s.len() && s[k] == a;
                assert(d[k] == a);
            }
            if d.contains(a) {
                let k = choose|k: int| 0 <= k < d.len() && d[k] == a;
                assert(s[k] == a);
            }
            if l != x {
                assert(r.push(l)[r.len() as int] == l);
                if r.push(l).contains(a) && a != l {
                    let k = choose|k: int| 0 <= k < r.len() + 1 && r.push(l)[k] == a;
                    assert(r[k] == a);
                }
                if r.contains(a) {
                    let k = choose|k: int| 0 <= k < r.len() && r[k] == a;
                    assert(r.push(l)[k] == a);
                }
            }
            assert(s[s.len() - 1] == l);
        }
        if s.no_duplicates() && l != x {
            assert(d.no_duplicates()) by {
                assert forall|i: int, j: int| 0 <= i < d.len() && 0 <= j < d.len() && i != j implies d[i] != d[j] by {
                    assert(d[i] == s[i] && d[j] == s[j]);
                }
            }
            assert(!d.contains(l)) by {
                if d.contains(l) {
                    let k = choose|k: int| 0 <= k < d.len() && d[k] == l;
                    assert(s[k] == s[s.len() - 1]);
                }
            }
            assert(!r.contains(l));
            let t = r.push(l);
            assert forall|i: int, j: int| 0 <= i < t.len() && 0 <= j < t.len() && i != j implies t[i] != t[j] by {
                if i == r.len() {
                    assert(r.contains(t[j]));
                } else if j == r.len() {
                    assert(r.contains(t[i]));
                }
            }
        } else if s.no_duplicates() {
            assert forall|i: int, j: int| 0 <= i < d.len() && 0 <= j < d.len() && i != j implies d[i] != d[j] by {
                assert(d[i] == s[i] && d[j] == s[j]);
            }
        }
    }
}

/// Removes `x` from the set `list`.
pub fn set_remove_exec(list: &mut Vec<String>, x: &String)
    ensures
        final(list).deep_view() == set_remove(old(list).deep_view(), x@),
{
    let ghost s = list.deep_view();
    let mut kept: Vec<String> = Vec::new();
    let mut i: usize = 0;
    proof {
        assert(s.take(0) =~= Seq::<Seq<char>>::empty());
    }
    while i < list.len()
        invariant
            i <= list@.len(),
            s == list.deep_view(),
            kept.deep_view() == set_remove(s.take(i as int), x@),
        decreases list@.len() - i,
    {
        proof {
            assert(s.take(i + 1).drop_last() =~= s.take(i as int));
            assert(s.take(i + 1).last() == s[i as int]);
        }
        if list[i] != *x {
            let ghost before = kept.deep_view();
            kept.push(list[i].clone());
            proof {
                assert(kept.deep_view() =~= before.push(s[i as int]));
            }
        }
        i += 1;
    }
    proof {
        assert(s.take(list@.len() as int) =~= s);
    }
    *list = kept;
}

/// Adds `x` to the set `list`.
pub fn set_insert_exec(list: &mut Vec<String>, x: String)
    ensures
        final(list).deep_view() == set_insert(old(list).deep_view(), x@),
{
    if !contains_exec(list, &x) {
        let ghost before = list.deep_view();
        let ghost xv = x@;
        list.push(x);
        assert(list.deep_view() =~= before.push(xv));
    }
}

/// Adds the elements of `xs`, in turn, to the set `list`.
pub fn set_insert_all_exec(list: &mut Vec<String>, xs: Vec<String>)
    ensures
        final(list).deep_view() == set_insert_all(old(list).deep_view(), xs.deep_view()),
{
    let ghost s0 = list.deep_view();
    let ghost xv = xs.deep_view();
    let mut i: usize = 0;
    proof {
        assert(xv.take(0) =~= Seq::<Seq<char>>::empty());
    }
    while i < xs.len()
        invariant
            i <= xs@.len(),
            xv == xs.deep_view(),
            list.deep_view() == set_insert_all(s0, xv.take(i as int)),
        decreases xs@.len() - i,
    {
        proof {
            assert(xv.take(i + 1).drop_last() =~= xv.take(i as int));
        }
        set_insert_exec(list, xs[i].clone());
        i += 1;
    }
    proof {
        assert(xv.take(xs@.len() as int) =~= xv);
    }
}

/// The value of the first pair with key `k` in `list`, if any.
pub fn assoc_get_exec<'a, V: DeepView>(list: &'a Vec<(String, V)>, k: &String) -> (r: Option<&'a V>)
    ensures
        match r {
            Some(v) => assoc_get(list.deep_view(), k@) == Some(v.deep_view()),
            None => assoc_get(list.deep_view(), k@) is None,
        },
{
    let ghost s = list.deep_view();
    let ghost p = has_key::<Seq<char>, V::V>(k@);
    let mut i: usize = 0;
    while i < list.len()
        invariant
            i <= list@.len(),
            s == list.deep_view(),
            p == has_key::<Seq<char>, V::V>(k@),
            forall|j: int| 0 <= j < i ==> !p(#[trigger] s[j]),
        decreases list@.len() - i,
    {
        if list[i].0 == *k {
            proof {
                lemma_first_index_is(s, p, i as int);
            }
            return Some(&list[i].1);
        }
        i += 1;
    }
    proof {
        lemma_first_index_none(s, p);
    }
    None
}

} // verus!
