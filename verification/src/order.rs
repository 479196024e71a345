//! Stable sorting, as insertion one by one.
use vstd::prelude::*;

verus! {

/// `x` put into `s` behind every item that may stand before it.
pub open spec fn insert<T>(s: Seq<T>, x: T, le: spec_fn(T, T) -> bool) -> Seq<T>
    decreases s.len(),
{
    if s.len() == 0 || le(s.last(), x) {
        s.push(x)
    } else {
        insert(s.drop_last(), x, le).push(s.last())
    }
}

/// The items of `s` in the order `le`, equal ones as they came.
pub open spec fn sorted<T>(s: Seq<T>, le: spec_fn(T, T) -> bool) -> Seq<T>
    decreases s.len(),
{
    if s.len() == 0 {
        s
    } else {
        insert(sorted(s.drop_last(), le), s.last(), le)
    }
}

/// A total order, equal items allowed.
pub open spec fn total<T>(le: spec_fn(T, T) -> bool) -> bool {
    &&& forall|a: T, b: T| #[trigger] le(a, b) || le(b, a)
    &&& forall|a: T, b: T, c: T| #[trigger] le(a, b) && #[trigger] le(b, c) ==> le(a, c)
}

pub open spec fn in_order<T>(s: Seq<T>, le: spec_fn(T, T) -> bool) -> bool {
    forall|i: int, j: int| 0 <= i < j < s.len() ==> le(#[trigger] s[i], #[trigger] s[j])
}

pub proof fn insert_keeps<T>(s: Seq<T>, x: T, le: spec_fn(T, T) -> bool)
    ensures
        insert(s, x, le).len() == s.len() + 1,
        insert(s, x, le).to_multiset() == s.to_multiset().insert(x),
    decreases s.len(),
{
    broadcast use vstd::seq_lib::group_to_multiset_ensures;

    if s.len() == 0 || le(s.last(), x) {
    } else {
        insert_keeps(s.drop_last(), x, le);
        assert(s =~= s.drop_last().push(s.last()));
        let a = insert(s.drop_last(), x, le);
        assert(a.push(s.last()).to_multiset() =~= a.to_multiset().insert(s.last()));
        assert(s.to_multiset() =~= s.drop_last().to_multiset().insert(s.last()));
        assert(insert(s, x, le).to_multiset() =~= s.to_multiset().insert(x));
    }
}

proof fn insert_members<T>(s: Seq<T>, x: T, le: spec_fn(T, T) -> bool)
    ensures
        insert(s, x, le).len() == s.len() + 1,
        forall|i: int|
            0 <= i <= s.len() ==> (#[trigger] insert(s, x, le)[i] == x || s.contains(
                insert(s, x, le)[i],
            )),
    decreases s.len(),
{
    let r = insert(s, x, le);
    if s.len() == 0 || le(s.last(), x) {
        assert forall|i: int| 0 <= i <= s.len() implies (#[trigger] r[i] == x || s.contains(r[i])) by {
            if i < s.len() {
                assert(r[i] == s[i]);
            }
        }
    } else {
        insert_members(s.drop_last(), x, le);
        let a = insert(s.drop_last(), x, le);
        assert forall|i: int| 0 <= i <= s.len() implies (#[trigger] r[i] == x || s.contains(r[i])) by {
            if i < s.len() {
                assert(r[i] == a[i]);
                if a[i] != x {
                    let k = choose|k: int| 0 <= k < s.drop_last().len() && s.drop_last()[k] == a[i];
                    assert(s[k] == a[i]);
                }
            } else {
                assert(r[i] == s[s.len() - 1]);
            }
        }
    }
}

pub proof fn insert_in_order<T>(s: Seq<T>, x: T, le: spec_fn(T, T) -> bool)
    requires
        total(le),
        in_order(s, le),
    ensures
        in_order(insert(s, x, le), le),
    decreases s.len(),
{
    let r = insert(s, x, le);
    if s.len() == 0 || le(s.last(), x) {
        assert forall|i: int, j: int| 0 <= i < j < r.len() implies le(#[trigger] r[i], #[trigger] r[j]) by {
            if j == s.len() && i < s.len() - 1 {
                assert(le(s[i], s[s.len() - 1]));
            }
        }
    } else {
        let t = s.drop_last();
        assert forall|i: int, j: int| 0 <= i < j < t.len() implies le(#[trigger] t[i], #[trigger] t[j]) by {
            assert(le(s[i], s[j]));
        }
        insert_in_order(t, x, le);
        insert_members(t, x, le);
        let a = insert(t, x, le);
        assert(le(s.last(), x) || le(x, s.last()));
        assert forall|i: int, j: int| 0 <= i < j < r.len() implies le(#[trigger] r[i], #[trigger] r[j]) by {
            if j < a.len() {
                assert(le(a[i], a[j]));
            } else {
                assert(r[i] == a[i]);
                if a[i] != x {
                    let k = choose|k: int| 0 <= k < t.len() && t[k] == a[i];
                    assert(le(s[k], s[s.len() - 1]));
                }
            }
        }
    }
}

/// A stable sort loses and adds nothing, and puts the items in order.
pub proof fn sorted_is_a_sort<T>(s: Seq<T>, le: spec_fn(T, T) -> bool)
    ensures
        sorted(s, le).len() == s.len(),
        sorted(s, le).to_multiset() == s.to_multiset(),
        total(le) ==> in_order(sorted(s, le), le),
    decreases s.len(),
{
    broadcast use vstd::seq_lib::group_to_multiset_ensures;

    if s.len() > 0 {
        let t = sorted(s.drop_last(), le);
        sorted_is_a_sort(s.drop_last(), le);
        insert_keeps(t, s.last(), le);
        assert(s =~= s.drop_last().push(s.last()));
        assert(s.to_multiset() =~= s.drop_last().to_multiset().insert(s.last()));
        if total(le) {
            insert_in_order(t, s.last(), le);
        }
    }
}

/// Where an insertion puts `x`: before the items from `k` on, which may
/// not stand before it, and behind the item before `k`, which may.
pub proof fn insert_at<T>(s: Seq<T>, x: T, le: spec_fn(T, T) -> bool, k: int)
    requires
        0 <= k <= s.len(),
        forall|i: int| k <= i < s.len() ==> !le(#[trigger] s[i], x),
        k > 0 ==> le(s[k - 1], x),
    ensures
        insert(s, x, le) == s.insert(k, x),
    decreases s.len(),
{
    if s.len() == 0 || le(s.last(), x) {
        if s.len() > 0 && k < s.len() {
            assert(!le(s[s.len() - 1], x));
        }
        assert(s.push(x) =~= s.insert(k, x));
    } else {
        assert(k < s.len()) by {
            if k == s.len() {
                assert(le(s[k - 1], x));
            }
        }
        assert forall|i: int| k <= i < s.drop_last().len() implies !le(
            #[trigger] s.drop_last()[i],
            x,
        ) by {
            assert(!le(s[i], x));
        }
        insert_at(s.drop_last(), x, le, k);
        assert(s.drop_last().insert(k, x).push(s.last()) =~= s.insert(k, x));
    }
}

} // verus!
