//! Small facts about sequences that several modules share.

use vstd::prelude::*;

verus! {

/// The views of the items of `v`, in order.
pub open spec fn views<T: View>(v: Seq<T>) -> Seq<T::V> {
    Seq::new(v.len(), |i: int| v[i]@)
}

/// The views of `s` with `x` pushed are the views of `s` with the view of `x`
/// pushed.
pub proof fn lemma_views_push<T: View>(s: Seq<T>, x: T)
    ensures
        views(s.push(x)) == views(s).push(x@),
{
    assert(views(s.push(x)) =~= views(s).push(x@));
}

/// The place of the first `x` in `s`, or the length of `s` if it holds none.
pub open spec fn first_index<T>(s: Seq<T>, x: T) -> int
    decreases s.len(),
{
    if s.len() == 0 || s[0] == x {
        0
    } else {
        1 + first_index(s.drop_first(), x)
    }
}

/// `first_index` is in range, points at an `x` where it points at anything,
/// and passes no `x` on its way.
pub proof fn lemma_first_index<T>(s: Seq<T>, x: T)
    ensures
        0 <= first_index(s, x) <= s.len(),
        first_index(s, x) < s.len() ==> s[first_index(s, x)] == x,
        forall|k: int| 0 <= k < first_index(s, x) ==> s[k] != x,
        s.contains(x) <==> first_index(s, x) < s.len(),
    decreases s.len(),
{
    if !(s.len() == 0 || s[0] == x) {
        let t = s.drop_first();
        lemma_first_index(t, x);
        assert forall|k: int| 0 <= k < first_index(s, x) implies s[k] != x by {
            if k > 0 {
                assert(s[k] == t[k - 1]);
            }
        }
        if first_index(s, x) < s.len() {
            assert(s[first_index(s, x)] == t[first_index(t, x)]);
        }
    }
    if s.contains(x) {
        let k = choose|k: int| 0 <= k < s.len() && s[k] == x;
        assert(first_index(s, x) <= k);
    }
}

/// The place that a forward search stops at is `first_index`.
pub proof fn lemma_first_index_is<T>(s: Seq<T>, x: T, j: int)
    requires
        0 <= j <= s.len(),
        forall|k: int| 0 <= k < j ==> s[k] != x,
        j == s.len() || s[j] == x,
    ensures
        first_index(s, x) == j,
{
    lemma_first_index(s, x);
    let f = first_index(s, x);
    if f < j {
        assert(s[f] == x);
    } else if f > j {
        assert(s[j] == x);
    }
}

/// What `s` holds once `v` is pushed.
pub proof fn lemma_push_contains<T>(s: Seq<T>, v: T, x: T)
    ensures
        s.push(v).contains(x) <==> s.contains(x) || x == v,
{
    let t = s.push(v);
    if s.contains(x) {
        let k = choose|k: int| 0 <= k < s.len() && s[k] == x;
        assert(t[k] == x);
    }
    if x == v {
        assert(t[s.len() as int] == x);
    }
    if t.contains(x) {
        let k = choose|k: int| 0 <= k < t.len() && t[k] == x;
        if k < s.len() {
            assert(s[k] == x);
        }
    }
}

/// Pushing an item that `s` lacks keeps `s` free of duplicates.
pub proof fn lemma_push_no_duplicates<T>(s: Seq<T>, v: T)
    requires
        s.no_duplicates(),
        !s.contains(v),
    ensures
        s.push(v).no_duplicates(),
{
    let t = s.push(v);
    assert forall|i: int, j: int| 0 <= i < t.len() && 0 <= j < t.len() && i != j implies t[i]
        != t[j] by {
        if i < s.len() && j < s.len() {
        } else if i < s.len() {
            assert(s.contains(s[i]));
        } else {
            assert(s.contains(s[j]));
        }
    }
}

/// What a duplicate-free `s` holds once the item at `i` is removed.
pub proof fn lemma_remove_contains<T>(s: Seq<T>, i: int, x: T)
    requires
        s.no_duplicates(),
        0 <= i < s.len(),
    ensures
        s.remove(i).no_duplicates(),
        s.remove(i).contains(x) <==> s.contains(x) && x != s[i],
{
    let t = s.remove(i);
    assert forall|a: int, b: int| 0 <= a < t.len() && 0 <= b < t.len() && a != b implies t[a]
        != t[b] by {
        let a2 = if a < i { a } else { a + 1 };
        let b2 = if b < i { b } else { b + 1 };
        assert(t[a] == s[a2] && t[b] == s[b2]);
    }
    if t.contains(x) {
        let k = choose|k: int| 0 <= k < t.len() && t[k] == x;
        let k2 = if k < i { k } else { k + 1 };
        assert(s[k2] == x);
    }
    if s.contains(x) && x != s[i] {
        let k = choose|k: int| 0 <= k < s.len() && s[k] == x;
        let k2 = if k < i { k } else { k - 1 };
        assert(t[k2] == x);
    }
}

/// Inserting an item that `s` lacks keeps `s` free of duplicates.
pub proof fn lemma_insert_no_duplicates<T>(s: Seq<T>, i: int, v: T)
    requires
        s.no_duplicates(),
        !s.contains(v),
        0 <= i <= s.len(),
    ensures
        s.insert(i, v).no_duplicates(),
{
    let t = s.insert(i, v);
    assert forall|a: int, b: int| 0 <= a < t.len() && 0 <= b < t.len() && a != b implies t[a]
        != t[b] by {
        let a2 = if a < i { a } else { a - 1 };
        let b2 = if b < i { b } else { b - 1 };
        if a != i {
            assert(t[a] == s[a2]);
            assert(s.contains(s[a2]));
        }
        if b != i {
            assert(t[b] == s[b2]);
            assert(s.contains(s[b2]));
        }
    }
}

} // verus!
