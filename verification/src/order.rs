//! The order of strings by code point (the order of `String`'s `Ord`,
//! since UTF-8 keeps code point order) and sequences of entries with
//! unique keys, the model of the sorted maps and sets of the library.

use vstd::prelude::*;

verus! {

/// `a` comes strictly before `b` in code point order.
pub open spec fn seq_lt(a: Seq<char>, b: Seq<char>) -> bool
    decreases a.len(),
{
    if a.len() == 0 {
        b.len() > 0
    } else if b.len() == 0 {
        false
    } else if a[0] != b[0] {
        (a[0] as int) < (b[0] as int)
    } else {
        seq_lt(a.drop_first(), b.drop_first())
    }
}

/// No string comes before itself.
pub proof fn lemma_lt_irreflexive(a: Seq<char>)
    ensures
        !seq_lt(a, a),
    decreases a.len(),
{
    if a.len() > 0 {
        lemma_lt_irreflexive(a.drop_first());
    }
}

/// Two different strings are ordered one way or the other.
pub proof fn lemma_lt_total(a: Seq<char>, b: Seq<char>)
    ensures
        a != b ==> seq_lt(a, b) || seq_lt(b, a),
        !(seq_lt(a, b) && seq_lt(b, a)),
    decreases a.len(),
{
    if a.len() > 0 && b.len() > 0 && a[0] == b[0] {
        lemma_lt_total(a.drop_first(), b.drop_first());
        if a.drop_first() == b.drop_first() {
            assert(a =~= seq![a[0]] + a.drop_first());
            assert(b =~= seq![b[0]] + b.drop_first());
        }
    } else if a.len() == 0 && b.len() == 0 {
        assert(a =~= b);
    }
}

/// The order is transitive.
pub proof fn lemma_lt_transitive(a: Seq<char>, b: Seq<char>, c: Seq<char>)
    requires
        seq_lt(a, b),
        seq_lt(b, c),
    ensures
        seq_lt(a, c),
    decreases a.len(),
{
    if a.len() > 0 && b.len() > 0 && c.len() > 0 && a[0] == b[0] && b[0] == c[0] {
        lemma_lt_transitive(a.drop_first(), b.drop_first(), c.drop_first());
    }
}

/// Whether `a` comes strictly before `b` in code point order.
pub fn lt_chars(a: &[char], b: &[char]) -> (r: bool)
    ensures
        r == seq_lt(a@, b@),
{
    let mut i: usize = 0;
    assert(a@.skip(0) =~= a@ && b@.skip(0) =~= b@);
    while i < a.len() && i < b.len()
        invariant
            i <= a@.len(),
            i <= b@.len(),
            a@.subrange(0, i as int) == b@.subrange(0, i as int),
            seq_lt(a@, b@) == seq_lt(a@.skip(i as int), b@.skip(i as int)),
        decreases a.len() - i,
    {
        let x = a[i];
        let y = b[i];
        if x != y {
            proof {
                assert(a@.skip(i as int)[0] == x);
                assert(b@.skip(i as int)[0] == y);
            }
            return x < y;
        }
        proof {
            assert(a@.skip(i as int).drop_first() =~= a@.skip(i + 1));
            assert(b@.skip(i as int).drop_first() =~= b@.skip(i + 1));
            assert(a@.subrange(0, i + 1) =~= a@.subrange(0, i as int).push(x));
            assert(b@.subrange(0, i + 1) =~= b@.subrange(0, i as int).push(y));
        }
        i += 1;
    }
    proof {
        assert(a@.skip(i as int).len() == a@.len() - i);
        assert(b@.skip(i as int).len() == b@.len() - i);
    }
    i < b.len()
}

/// The keys of `s` come in strictly increasing order.
pub open spec fn keys_sorted<V>(s: Seq<(Seq<char>, V)>) -> bool {
    forall|i: int, j: int| 0 <= i < j < s.len() ==> seq_lt(#[trigger] s[i].0, #[trigger] s[j].0)
}

/// No two entries of `s` share a key.
pub open spec fn keys_unique<V>(s: Seq<(Seq<char>, V)>) -> bool {
    forall|i: int, j: int| 0 <= i < s.len() && 0 <= j < s.len() && i != j ==> (#[trigger] s[i]).0
        != (#[trigger] s[j]).0
}

/// Whether some entry of `s` has key `k`.
pub open spec fn has_key<V>(s: Seq<(Seq<char>, V)>, k: Seq<char>) -> bool {
    exists|i: int| 0 <= i < s.len() && (#[trigger] s[i]).0 == k
}

/// The value stored under `k`, if any.
pub open spec fn find<V>(s: Seq<(Seq<char>, V)>, k: Seq<char>) -> Option<V> {
    if has_key(s, k) {
        Some(s[choose|i: int| 0 <= i < s.len() && (#[trigger] s[i]).0 == k].1)
    } else {
        None
    }
}

/// Sorted keys are unique.
pub proof fn lemma_sorted_unique<V>(s: Seq<(Seq<char>, V)>)
    requires
        keys_sorted(s),
    ensures
        keys_unique(s),
{
    assert forall|i: int, j: int| 0 <= i < s.len() && 0 <= j < s.len() && i != j implies (
    #[trigger] s[i]).0 != (#[trigger] s[j]).0 by {
        if i < j {
            lemma_lt_irreflexive(s[i].0);
        } else {
            lemma_lt_irreflexive(s[j].0);
        }
    }
}

/// With unique keys, the value under the key of entry `i` is that entry's.
pub proof fn lemma_find_at<V>(s: Seq<(Seq<char>, V)>, i: int)
    requires
        keys_unique(s),
        0 <= i < s.len(),
    ensures
        find(s, s[i].0) == Some(s[i].1),
{
    assert(has_key(s, s[i].0));
    let j = choose|j: int| 0 <= j < s.len() && (#[trigger] s[j]).0 == s[i].0;
    assert(j == i);
}

/// The first index whose key does not come before `k` (or the length).
pub open spec fn lower_bound<V>(s: Seq<(Seq<char>, V)>, k: Seq<char>, p: int) -> bool {
    &&& 0 <= p <= s.len()
    &&& forall|i: int| 0 <= i < p ==> seq_lt(#[trigger] s[i].0, k)
    &&& p < s.len() ==> !seq_lt(s[p].0, k)
}

/// Inserting `e` at a lower bound of its key, when the key is absent, keeps
/// the keys sorted.
pub proof fn lemma_insert_sorted<V>(s: Seq<(Seq<char>, V)>, e: (Seq<char>, V), p: int)
    requires
        keys_sorted(s),
        lower_bound(s, e.0, p),
        p < s.len() ==> s[p].0 != e.0,
    ensures
        keys_sorted(s.insert(p, e)),
{
    let t = s.insert(p, e);
    if p < s.len() {
        lemma_lt_total(s[p].0, e.0);
    }
    assert forall|i: int, j: int| 0 <= i < j < t.len() implies seq_lt(
        #[trigger] t[i].0,
        #[trigger] t[j].0,
    ) by {
        if j == p {
            assert(t[i] == s[i]);
        } else if i == p {
            assert(t[j] == s[j - 1]);
            if j - 1 > p {
                lemma_lt_transitive(e.0, s[p].0, s[j - 1].0);
            }
        } else if j < p {
            assert(t[i] == s[i] && t[j] == s[j]);
        } else if i < p {
            assert(t[i] == s[i] && t[j] == s[j - 1]);
        } else {
            assert(t[i] == s[i - 1] && t[j] == s[j - 1]);
        }
    }
}

/// After inserting an entry with a new key, each key maps to what it did,
/// and the new key to the new value.
pub proof fn lemma_find_insert<V>(s: Seq<(Seq<char>, V)>, e: (Seq<char>, V), p: int, k: Seq<char>)
    requires
        keys_unique(s),
        keys_unique(s.insert(p, e)),
        0 <= p <= s.len(),
    ensures
        find(s.insert(p, e), k) == if k == e.0 {
            Some(e.1)
        } else {
            find(s, k)
        },
{
    let t = s.insert(p, e);
    if k == e.0 {
        assert(t[p] == e);
        lemma_find_at(t, p);
    } else if has_key(s, k) {
        let i = choose|i: int| 0 <= i < s.len() && (#[trigger] s[i]).0 == k;
        lemma_find_at(s, i);
        if i < p {
            assert(t[i] == s[i]);
            lemma_find_at(t, i);
        } else {
            assert(t[i + 1] == s[i]);
            lemma_find_at(t, i + 1);
        }
    } else {
        assert forall|i: int| 0 <= i < t.len() implies (#[trigger] t[i]).0 != k by {
            if i < p {
                assert(t[i] == s[i]);
            } else if i > p {
                assert(t[i] == s[i - 1]);
            }
        }
    }
}

/// After replacing entry `p` by one with the same key, each key maps to
/// what it did, and that key to the new value.
pub proof fn lemma_find_update<V>(s: Seq<(Seq<char>, V)>, e: (Seq<char>, V), p: int, k: Seq<char>)
    requires
        keys_unique(s),
        0 <= p < s.len(),
        s[p].0 == e.0,
    ensures
        keys_unique(s.update(p, e)),
        find(s.update(p, e), k) == if k == e.0 {
            Some(e.1)
        } else {
            find(s, k)
        },
{
    let t = s.update(p, e);
    assert forall|i: int, j: int| 0 <= i < t.len() && 0 <= j < t.len() && i != j implies (
    #[trigger] t[i]).0 != (#[trigger] t[j]).0 by {
        assert(t[i].0 == s[i].0 && t[j].0 == s[j].0);
    }
    if k == e.0 {
        lemma_find_at(t, p);
    } else if has_key(s, k) {
        let i = choose|i: int| 0 <= i < s.len() && (#[trigger] s[i]).0 == k;
        lemma_find_at(s, i);
        assert(t[i] == s[i]);
        lemma_find_at(t, i);
    } else {
        assert forall|i: int| 0 <= i < t.len() implies (#[trigger] t[i]).0 != k by {
            assert(t[i].0 == s[i].0);
        }
    }
}

/// After removing entry `p`, its key is gone and every other key maps to
/// what it did.
pub proof fn lemma_find_remove<V>(s: Seq<(Seq<char>, V)>, p: int)
    requires
        keys_unique(s),
        0 <= p < s.len(),
    ensures
        keys_unique(s.remove(p)),
        forall|k: Seq<char>| #[trigger] find(s.remove(p), k) == if k == s[p].0 {
            None
        } else {
            find(s, k)
        },
{
    let t = s.remove(p);
    assert forall|a: int, b: int| 0 <= a < t.len() && 0 <= b < t.len() && a != b implies (
    #[trigger] t[a]).0 != (#[trigger] t[b]).0 by {
        let a2 = if a < p { a } else { a + 1 };
        let b2 = if b < p { b } else { b + 1 };
        assert(t[a] == s[a2] && t[b] == s[b2]);
    }
    assert forall|k: Seq<char>| #[trigger] find(t, k) == if k == s[p].0 {
        None
    } else {
        find(s, k)
    } by {
        if k == s[p].0 {
            assert forall|i: int| 0 <= i < t.len() implies (#[trigger] t[i]).0 != k by {
                let i2 = if i < p { i } else { i + 1 };
                assert(t[i] == s[i2]);
            }
        } else if has_key(s, k) {
            let i = choose|i: int| 0 <= i < s.len() && (#[trigger] s[i]).0 == k;
            lemma_find_at(s, i);
            if i < p {
                assert(t[i] == s[i]);
                lemma_find_at(t, i);
            } else {
                assert(t[i - 1] == s[i]);
                lemma_find_at(t, i - 1);
            }
        } else {
            assert forall|i: int| 0 <= i < t.len() implies (#[trigger] t[i]).0 != k by {
                let i2 = if i < p { i } else { i + 1 };
                assert(t[i] == s[i2]);
            }
        }
    }
}

// ---------------------------------------------------------------------------
// Sorted sets of strings
// ---------------------------------------------------------------------------

/// The views of a sequence of strings.
pub open spec fn views_of(v: Seq<String>) -> Seq<Seq<char>> {
    v.map_values(|s: String| s@)
}

/// The strings come in strictly increasing order.
pub open spec fn strs_sorted(s: Seq<Seq<char>>) -> bool {
    forall|i: int, j: int| 0 <= i < j < s.len() ==> seq_lt(#[trigger] s[i], #[trigger] s[j])
}

/// A strictly sorted sequence is the sorted listing of its set: two sorted
/// sequences with the same elements are equal.
pub proof fn lemma_sorted_listing_unique(a: Seq<Seq<char>>, b: Seq<Seq<char>>)
    requires
        strs_sorted(a),
        strs_sorted(b),
        a.to_set() == b.to_set(),
    ensures
        a == b,
    decreases a.len() + b.len(),
{
    if a.len() == 0 {
        if b.len() > 0 {
            assert(b.to_set().contains(b[0]));
            assert(!a.to_set().contains(b[0]));
        }
        assert(a =~= b);
    } else if b.len() == 0 {
        assert(a.to_set().contains(a[0]));
    } else {
        let x = a.last();
        let y = b.last();
        assert(a.to_set().contains(x));
        assert(b.to_set().contains(y));
        let i = choose|i: int| 0 <= i < b.len() && b[i] == x;
        let j = choose|j: int| 0 <= j < a.len() && a[j] == y;
        if x != y {
            if i < b.len() - 1 {
                assert(seq_lt(b[i], y));
            }
            if j < a.len() - 1 {
                assert(seq_lt(a[j], x));
            }
            lemma_lt_total(x, y);
            assert(false);
        }
        let a2 = a.drop_last();
        let b2 = b.drop_last();
        assert forall|e: Seq<char>| a2.to_set().contains(e) implies b2.to_set().contains(e) by {
            let k = choose|k: int| 0 <= k < a2.len() && a2[k] == e;
            assert(seq_lt(a[k], x));
            lemma_lt_irreflexive(x);
            assert(b.to_set().contains(e));
            let m = choose|m: int| 0 <= m < b.len() && b[m] == e;
            if m == b.len() - 1 {
                assert(false);
            }
            assert(b2[m] == e);
        }
        assert forall|e: Seq<char>| b2.to_set().contains(e) implies a2.to_set().contains(e) by {
            let k = choose|k: int| 0 <= k < b2.len() && b2[k] == e;
            assert(seq_lt(b[k], y));
            lemma_lt_irreflexive(y);
            assert(a.to_set().contains(e));
            let m = choose|m: int| 0 <= m < a.len() && a[m] == e;
            if m == a.len() - 1 {
                assert(false);
            }
            assert(a2[m] == e);
        }
        assert(a2.to_set() =~= b2.to_set());
        lemma_sorted_listing_unique(a2, b2);
        assert(a =~= a2.push(x));
        assert(b =~= b2.push(y));
    }
}

/// Whether `x` is among the strings of `v`.
pub fn contains_str(v: &Vec<String>, x: &str) -> (r: bool)
    ensures
        r == views_of(v@).contains(x@),
{
    let ghost vs = views_of(v@);
    let mut i: usize = 0;
    while i < v.len()
        invariant
            i <= v@.len(),
            vs == views_of(v@),
            forall|j: int| 0 <= j < i ==> vs[j] != x@,
        decreases v.len() - i,
    {
        if crate::text::str_eq(v[i].as_str(), x) {
            assert(vs[i as int] == x@);
            return true;
        }
        i += 1;
    }
    false
}

/// Adds `x` to a sorted set of strings kept as a sorted vector.
pub fn insert_str_sorted(v: &mut Vec<String>, x: String)
    requires
        strs_sorted(views_of(old(v)@)),
    ensures
        strs_sorted(views_of(final(v)@)),
        views_of(final(v)@).to_set() == views_of(old(v)@).to_set().insert(x@),
{
    let ghost old_vs = views_of(v@);
    let p = lower_bound_str(v, &x);
    if p < v.len() && crate::text::str_eq(v[p].as_str(), x.as_str()) {
        assert(old_vs.to_set().insert(x@) =~= old_vs.to_set()) by {
            assert(old_vs[p as int] == x@);
        }
        return;
    }
    let ghost xv = x@;
    v.insert(p, x);
    proof {
        let nv = views_of(v@);
        assert(nv =~= old_vs.insert(p as int, xv));
        if p < old_vs.len() {
            lemma_lt_total(old_vs[p as int], xv);
        }
        assert forall|i: int, j: int| 0 <= i < j < nv.len() implies seq_lt(
            #[trigger] nv[i],
            #[trigger] nv[j],
        ) by {
            if j == p {
                assert(nv[i] == old_vs[i]);
            } else if i == p as int {
                assert(nv[j] == old_vs[j - 1]);
                if j - 1 > p {
                    lemma_lt_transitive(xv, old_vs[p as int], old_vs[j - 1]);
                }
            } else if j < p {
                assert(nv[i] == old_vs[i] && nv[j] == old_vs[j]);
            } else if i < p {
                assert(nv[i] == old_vs[i] && nv[j] == old_vs[j - 1]);
            } else {
                assert(nv[i] == old_vs[i - 1] && nv[j] == old_vs[j - 1]);
            }
        }
        assert forall|e: Seq<char>| nv.to_set().contains(e) <==> old_vs.to_set().insert(
            xv,
        ).contains(e) by {
            if nv.to_set().contains(e) {
                let k = choose|k: int| 0 <= k < nv.len() && nv[k] == e;
                if k < p {
                    assert(old_vs[k] == e);
                } else if k > p {
                    assert(old_vs[k - 1] == e);
                }
            }
            if old_vs.to_set().contains(e) {
                let k = choose|k: int| 0 <= k < old_vs.len() && old_vs[k] == e;
                if k < p {
                    assert(nv[k] == e);
                } else {
                    assert(nv[k + 1] == e);
                }
            }
            if e == xv {
                assert(nv[p as int] == e);
            }
        }
        assert(nv.to_set() =~= old_vs.to_set().insert(xv));
    }
}

/// Removes `x` from a sorted set of strings kept as a sorted vector.
pub fn remove_str_sorted(v: &mut Vec<String>, x: &str)
    requires
        strs_sorted(views_of(old(v)@)),
    ensures
        strs_sorted(views_of(final(v)@)),
        views_of(final(v)@).to_set() == views_of(old(v)@).to_set().remove(x@),
{
    let ghost old_vs = views_of(v@);
    let mut i: usize = 0;
    while i < v.len()
        invariant
            i <= v@.len(),
            v@ == old(v)@,
            old_vs == views_of(v@),
            strs_sorted(old_vs),
            forall|j: int| 0 <= j < i ==> old_vs[j] != x@,
        decreases v.len() - i,
    {
        if crate::text::str_eq(v[i].as_str(), x) {
            let ghost k = i as int;
            v.remove(i);
            proof {
                let nv = views_of(v@);
                assert(nv =~= old_vs.remove(k));
                assert forall|a: int, b: int| 0 <= a < b < nv.len() implies seq_lt(
                    #[trigger] nv[a],
                    #[trigger] nv[b],
                ) by {
                    if a >= k {
                        assert(nv[a] == old_vs[a + 1] && nv[b] == old_vs[b + 1]);
                    } else if b >= k {
                        assert(nv[a] == old_vs[a] && nv[b] == old_vs[b + 1]);
                    } else {
                        assert(nv[a] == old_vs[a] && nv[b] == old_vs[b]);
                    }
                }
                assert forall|e: Seq<char>| nv.to_set().contains(e) <==> old_vs.to_set().remove(
                    x@,
                ).contains(e) by {
                    if nv.to_set().contains(e) {
                        let m = choose|m: int| 0 <= m < nv.len() && nv[m] == e;
                        if m < k {
                            assert(old_vs[m] == e);
                            assert(seq_lt(old_vs[m], old_vs[k]));
                            lemma_lt_irreflexive(e);
                        } else {
                            assert(old_vs[m + 1] == e);
                            assert(seq_lt(old_vs[k], old_vs[m + 1]));
                            lemma_lt_irreflexive(e);
                        }
                    }
                    if old_vs.to_set().remove(x@).contains(e) {
                        let m = choose|m: int| 0 <= m < old_vs.len() && old_vs[m] == e;
                        if m < k {
                            assert(nv[m] == e);
                        } else if m > k {
                            assert(nv[m - 1] == e);
                        }
                    }
                }
                assert(nv.to_set() =~= old_vs.to_set().remove(x@));
            }
            return;
        }
        i += 1;
    }
    assert(old_vs.to_set().remove(x@) =~= old_vs.to_set());
}

fn lower_bound_str(v: &Vec<String>, x: &String) -> (p: usize)
    ensures
        p <= v@.len(),
        forall|i: int| 0 <= i < p ==> seq_lt(#[trigger] views_of(v@)[i], x@),
        p < v@.len() ==> !seq_lt(views_of(v@)[p as int], x@),
{
    let ghost vs = views_of(v@);
    let b = chars_of_string(x);
    let mut p: usize = 0;
    while p < v.len()
        invariant
            p <= v@.len(),
            vs == views_of(v@),
            b@ == x@,
            forall|i: int| 0 <= i < p ==> seq_lt(#[trigger] vs[i], x@),
        decreases v.len() - p,
    {
        let a = chars_of_string(&v[p]);
        if !lt_chars(a.as_slice(), b.as_slice()) {
            return p;
        }
        p += 1;
    }
    p
}

/// The strings come in non-decreasing order.
pub open spec fn strs_ordered(s: Seq<Seq<char>>) -> bool {
    forall|i: int, j: int| 0 <= i < j < s.len() ==> !seq_lt(#[trigger] s[j], #[trigger] s[i])
}

proof fn lemma_insert_multiset(s: Seq<Seq<char>>, p: int, x: Seq<char>)
    requires
        0 <= p <= s.len(),
    ensures
        s.insert(p, x).to_multiset() =~= s.to_multiset().insert(x),
{
    broadcast use vstd::seq_lib::group_to_multiset_ensures;

    let t = s.insert(p, x);
    t.to_multiset_ensures();
    assert(t.remove(p) =~= s);
    assert(t[p] == x);
    assert(t.to_multiset().count(x) > 0) by {
        assert(t.contains(x));
    }
    assert(s.to_multiset() =~= t.to_multiset().remove(x));
    assert(t.to_multiset() =~= t.to_multiset().remove(x).insert(x));
}

/// The strings of `v` in order (`sort` on strings).
pub fn sort_strings(v: &Vec<String>) -> (r: Vec<String>)
    ensures
        strs_ordered(views_of(r@)),
        views_of(r@).to_multiset() == views_of(v@).to_multiset(),
{
    broadcast use vstd::seq_lib::group_to_multiset_ensures;

    let mut r: Vec<String> = Vec::new();
    let mut i: usize = 0;
    assert(views_of(r@).to_multiset() =~= views_of(v@).take(0).to_multiset()) by {
        assert(views_of(r@) =~= views_of(v@).take(0));
    }
    while i < v.len()
        invariant
            i <= v@.len(),
            strs_ordered(views_of(r@)),
            views_of(r@).to_multiset() == views_of(v@).take(i as int).to_multiset(),
        decreases v.len() - i,
    {
        let x = v[i].clone();
        let ghost old_r = views_of(r@);
        let p = upper_bound_pos(&r, &x);
        let ghost xv = x@;
        r.insert(p, x);
        proof {
            let nv = views_of(r@);
            assert(nv =~= old_r.insert(p as int, xv));
            assert forall|a: int, b: int| 0 <= a < b < nv.len() implies !seq_lt(#[trigger] nv[b], #[trigger] nv[a]) by {
                if b == p {
                    assert(nv[a] == old_r[a]);
                } else if a == p {
                    assert(nv[b] == old_r[b - 1]);
                    if seq_lt(old_r[b - 1], xv) {
                        if b - 1 == p {
                            lemma_lt_total(xv, old_r[p as int]);
                        } else {
                            lemma_lt_transitive(old_r[b - 1], xv, old_r[p as int]);
                        }
                    }
                } else if b < p {
                    assert(nv[a] == old_r[a] && nv[b] == old_r[b]);
                } else if a < p {
                    assert(nv[a] == old_r[a] && nv[b] == old_r[b - 1]);
                } else {
                    assert(nv[a] == old_r[a - 1] && nv[b] == old_r[b - 1]);
                }
            }
            lemma_insert_multiset(old_r, p as int, xv);
            assert(xv == views_of(v@)[i as int]);
            assert(views_of(v@).take(i + 1) =~= views_of(v@).take(i as int).push(xv));
            views_of(v@).take(i as int).to_multiset_ensures();
            assert(views_of(v@).take(i as int).push(xv).to_multiset() =~= views_of(v@).take(
                i as int,
            ).to_multiset().insert(xv));
            assert(views_of(r@).to_multiset() =~= views_of(v@).take(i + 1).to_multiset());
        }
        i += 1;
    }
    assert(views_of(v@).take(v@.len() as int) =~= views_of(v@));
    r
}

fn upper_bound_pos(r: &Vec<String>, x: &String) -> (p: usize)
    ensures
        p <= r@.len(),
        forall|k: int| 0 <= k < p ==> !seq_lt(x@, #[trigger] views_of(r@)[k]),
        p < r@.len() ==> seq_lt(x@, views_of(r@)[p as int]),
{
    let ghost vs = views_of(r@);
    let xc = chars_of_string(x);
    let mut p: usize = 0;
    while p < r.len()
        invariant
            p <= r@.len(),
            vs == views_of(r@),
            xc@ == x@,
            forall|k: int| 0 <= k < p ==> !seq_lt(x@, #[trigger] vs[k]),
        decreases r.len() - p,
    {
        let rc = chars_of_string(&r[p]);
        if lt_chars(xc.as_slice(), rc.as_slice()) {
            return p;
        }
        p += 1;
    }
    p
}

fn chars_of_string(s: &String) -> (r: Vec<char>)
    ensures
        r@ == s@,
{
    crate::text::chars_of(s.as_str())
}

} // verus!
