//! A small dictionary: pairs with increasing keys.
use crate::text;
use vstd::prelude::*;

verus! {

pub open spec fn pairs<T: View>(v: Seq<(String, T)>) -> Seq<(Seq<char>, T::V)> {
    v.map_values(|p: (String, T)| (p.0@, p.1@))
}

pub open spec fn keys<V>(s: Seq<(Seq<char>, V)>) -> Seq<Seq<char>> {
    s.map_values(|p: (Seq<char>, V)| p.0)
}

/// Each key stands once, behind every smaller one.
pub open spec fn ordered<V>(s: Seq<(Seq<char>, V)>) -> bool {
    text::increasing(keys(s))
}

/// The value under a key.
pub open spec fn get<V>(s: Seq<(Seq<char>, V)>, k: Seq<char>) -> Option<V>
    decreases s.len(),
{
    if s.len() == 0 {
        None
    } else if s[0].0 == k {
        Some(s[0].1)
    } else {
        get(s.drop_first(), k)
    }
}

/// The pairs with a key set to a value.
pub open spec fn put<V>(s: Seq<(Seq<char>, V)>, k: Seq<char>, v: V) -> Seq<(Seq<char>, V)>
    decreases s.len(),
{
    if s.len() == 0 || text::lt(s.last().0, k) {
        s.push((k, v))
    } else if s.last().0 == k {
        s.drop_last().push((k, v))
    } else {
        put(s.drop_last(), k, v).push(s.last())
    }
}

proof fn put_keys<V>(s: Seq<(Seq<char>, V)>, k: Seq<char>, v: V)
    ensures
        keys(put(s, k, v)) == text::put(keys(s), k),
    decreases s.len(),
{
    let d = keys(s);
    if s.len() == 0 || text::lt(s.last().0, k) {
        assert(keys(s.push((k, v))) =~= d.push(k));
    } else if s.last().0 == k {
        assert(keys(s.drop_last().push((k, v))) =~= d);
    } else {
        put_keys(s.drop_last(), k, v);
        assert(keys(s.drop_last()) =~= d.drop_last());
        assert(keys(put(s.drop_last(), k, v).push(s.last())) =~= text::put(
            d.drop_last(),
            k,
        ).push(d.last()));
    }
}

/// Setting a key keeps the order.
pub proof fn put_ordered<V>(s: Seq<(Seq<char>, V)>, k: Seq<char>, v: V)
    requires
        ordered(s),
    ensures
        ordered(put(s, k, v)),
{
    put_keys(s, k, v);
    text::put_keeps(keys(s), k);
}

proof fn put_insert<V>(s: Seq<(Seq<char>, V)>, k: Seq<char>, v: V, i: int)
    requires
        0 <= i <= s.len(),
        i > 0 ==> text::lt(s[i - 1].0, k),
        forall|j: int| i <= j < s.len() ==> !text::lt((#[trigger] s[j]).0, k) && s[j].0 != k,
    ensures
        put(s, k, v) == s.insert(i, (k, v)),
    decreases s.len(),
{
    if i < s.len() {
        assert(s.last() == s[s.len() - 1]);
        put_insert(s.drop_last(), k, v, i);
        assert(s.drop_last().insert(i, (k, v)).push(s.last()) =~= s.insert(i, (k, v)));
    } else {
        assert(s.insert(i, (k, v)) =~= s.push((k, v)));
    }
}

proof fn put_replace<V>(s: Seq<(Seq<char>, V)>, k: Seq<char>, v: V, i: int)
    requires
        0 <= i < s.len(),
        s[i].0 == k,
        !text::lt(k, k),
        forall|j: int| i < j < s.len() ==> !text::lt((#[trigger] s[j]).0, k) && s[j].0 != k,
    ensures
        put(s, k, v) == s.update(i, (k, v)),
    decreases s.len(),
{
    if i < s.len() - 1 {
        assert(s.last() == s[s.len() - 1]);
        put_replace(s.drop_last(), k, v, i);
        assert(s.drop_last().update(i, (k, v)).push(s.last()) =~= s.update(i, (k, v)));
    } else {
        assert(s.drop_last().push((k, v)) =~= s.update(i, (k, v)));
    }
}

/// The value under a key.
pub fn find<'a, T: View>(v: &'a Vec<(String, T)>, k: &str) -> (r: Option<&'a T>)
    ensures
        match r {
            Some(x) => get(pairs(v@), k@) == Some(x@),
            None => get(pairs(v@), k@) is None,
        },
{
    let ghost d = pairs(v@);
    let mut i: usize = 0;
    assert(d.skip(0) =~= d);
    while i < v.len()
        invariant
            d == pairs(v@),
            i <= v@.len(),
            get(d, k@) == get(d.skip(i as int), k@),
        decreases v.len() - i,
    {
        assert(d.skip(i as int)[0] == (v@[i as int].0@, v@[i as int].1@));
        assert(d.skip(i as int).drop_first() =~= d.skip(i + 1));
        if text::eq(v[i].0.as_str(), k) {
            return Some(&v[i].1);
        }
        i = i + 1;
    }
    None
}

/// Sets a key.
pub fn insert<T: View>(v: &mut Vec<(String, T)>, k: String, x: T)
    requires
        ordered(pairs(old(v)@)),
    ensures
        pairs(final(v)@) == put(pairs(old(v)@), k@, x@),
        ordered(pairs(final(v)@)),
{
    let ghost d = pairs(v@);
    let ghost y = (k@, x@);
    proof {
        put_ordered(d, k@, x@);
        text::lt_total(k@, k@);
    }
    let mut i: usize = v.len();
    while i > 0 && !text::less(v[i - 1].0.as_str(), k.as_str())
        invariant
            d == pairs(v@),
            y == (k@, x@),
            !text::lt(k@, k@),
            i <= v@.len(),
            pairs(old(v)@) == d,
            ordered(put(d, k@, x@)),
            forall|j: int| i <= j < d.len() ==> !text::lt((#[trigger] d[j]).0, k@) && d[j].0 != k@,
        decreases i,
    {
        assert(d[i - 1].0 == v@[i - 1].0@);
        if text::eq(v[i - 1].0.as_str(), k.as_str()) {
            proof {
                put_replace(d, k@, x@, i - 1);
            }
            v.set(i - 1, (k, x));
            assert(pairs(v@) =~= d.update(i - 1, y));
            return;
        }
        i = i - 1;
    }
    proof {
        if i > 0 {
            assert(d[i - 1].0 == v@[i - 1].0@);
        }
        put_insert(d, k@, x@, i as int);
    }
    v.insert(i, (k, x));
    assert(pairs(v@) =~= d.insert(i as int, y));
}

} // verus!
