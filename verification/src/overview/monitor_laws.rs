//! What the monitors say together does not depend on their order.
use crate::order;
use crate::overview::monitoring;
use crate::overview::monitoring::{AlertIn, AlertView, MonitorIn, Stamp, When};
use vstd::prelude::*;

verus! {

proof fn same_members(a: Seq<MonitorIn>, b: Seq<MonitorIn>)
    requires
        a.to_multiset() == b.to_multiset(),
    ensures
        forall|m: MonitorIn| #[trigger] a.contains(m) ==> b.contains(m),
        forall|m: MonitorIn| #[trigger] b.contains(m) ==> a.contains(m),
{
    assert forall|m: MonitorIn| #[trigger] a.contains(m) == b.contains(m) by {
        vstd::seq_lib::to_multiset_contains(a, m);
        vstd::seq_lib::to_multiset_contains(b, m);
    }
}

proof fn states_carry_over(a: Seq<MonitorIn>, b: Seq<MonitorIn>, state: Seq<char>, now: i64)
    requires
        a.to_multiset() == b.to_multiset(),
    ensures
        monitoring::any_state(a, state) ==> monitoring::any_state(b, state),
        monitoring::any_overdue(a, now) ==> monitoring::any_overdue(b, now),
{
    same_members(a, b);
    if monitoring::any_state(a, state) {
        let i = choose|i: int|
            0 <= i < a.len() && monitoring::raw_state(#[trigger] a[i]) == state;
        assert(a.contains(a[i]));
        let k = choose|k: int| 0 <= k < b.len() && b[k] == a[i];
        assert(monitoring::raw_state(b[k]) == state);
    }
    if monitoring::any_overdue(a, now) {
        let i = choose|i: int| 0 <= i < a.len() && monitoring::is_overdue(#[trigger] a[i], now);
        assert(a.contains(a[i]));
        let k = choose|k: int| 0 <= k < b.len() && b[k] == a[i];
        assert(monitoring::is_overdue(b[k], now));
    }
}

proof fn latest_is_the_last(ms: Seq<MonitorIn>, f: spec_fn(MonitorIn) -> When)
    ensures
        match monitoring::latest(ms, f) {
            Some(t) => (exists|i: int| 0 <= i < ms.len() && f(#[trigger] ms[i]) == When::At(t))
                && forall|j: int|
                0 <= j < ms.len() && f(#[trigger] ms[j]) is At ==> !t.before(f(ms[j])->At_0),
            None => forall|j: int| 0 <= j < ms.len() ==> !(f(#[trigger] ms[j]) is At),
        },
    decreases ms.len(),
{
    if ms.len() > 0 {
        let rest = ms.drop_last();
        latest_is_the_last(rest, f);
        assert forall|j: int| 0 <= j < rest.len() implies rest[j] == ms[j] by {}
        let last = ms.len() - 1;
        match monitoring::latest(rest, f) {
            Some(b) => {
                let i = choose|i: int| 0 <= i < rest.len() && f(#[trigger] rest[i]) == When::At(b);
                assert(f(ms[i]) == When::At(b));
                assert(ms[last] == ms.last());
                let t = monitoring::latest(ms, f)->0;
                assert forall|j: int|
                    0 <= j < ms.len() && f(#[trigger] ms[j]) is At implies !t.before(
                    f(ms[j])->At_0,
                ) by {
                    if j < last {
                        assert(f(rest[j]) is At);
                    }
                }
            },
            None => {
                assert(ms[last] == ms.last());
                assert forall|j: int| 0 <= j < last implies !(f(#[trigger] ms[j]) is At) by {
                    assert(!(f(rest[j]) is At));
                }
            },
        }
    }
}

proof fn earliest_is_the_first(ms: Seq<MonitorIn>)
    ensures
        match monitoring::earliest_next(ms) {
            Some(t) => (exists|i: int|
                0 <= i < ms.len() && (#[trigger] ms[i]).next_check_at == When::At(t))
                && forall|j: int|
                0 <= j < ms.len() && (#[trigger] ms[j]).next_check_at is At
                    ==> !ms[j].next_check_at->At_0.before(t),
            None => forall|j: int| 0 <= j < ms.len() ==> !((#[trigger] ms[j]).next_check_at is At),
        },
    decreases ms.len(),
{
    if ms.len() > 0 {
        let rest = ms.drop_last();
        earliest_is_the_first(rest);
        assert forall|j: int| 0 <= j < rest.len() implies rest[j] == ms[j] by {}
        let last = ms.len() - 1;
        match monitoring::earliest_next(rest) {
            Some(b) => {
                let i = choose|i: int|
                    0 <= i < rest.len() && (#[trigger] rest[i]).next_check_at == When::At(b);
                assert(ms[i].next_check_at == When::At(b));
                assert(ms[last] == ms.last());
                let t = monitoring::earliest_next(ms)->0;
                assert forall|j: int|
                    0 <= j < ms.len() && (#[trigger] ms[j]).next_check_at is At
                        implies !ms[j].next_check_at->At_0.before(t) by {
                    if j < last {
                        assert(rest[j].next_check_at is At);
                    }
                }
            },
            None => {
                assert(ms[last] == ms.last());
                assert forall|j: int| 0 <= j < last implies !((#[trigger] ms[j]).next_check_at
                    is At) by {
                    assert(!(rest[j].next_check_at is At));
                }
            },
        }
    }
}

proof fn times_agree(a: Seq<MonitorIn>, b: Seq<MonitorIn>, f: spec_fn(MonitorIn) -> When)
    requires
        a.to_multiset() == b.to_multiset(),
    ensures
        monitoring::latest(a, f) == monitoring::latest(b, f),
        monitoring::earliest_next(a) == monitoring::earliest_next(b),
{
    same_members(a, b);
    latest_is_the_last(a, f);
    latest_is_the_last(b, f);
    earliest_is_the_first(a);
    earliest_is_the_first(b);
    let (x, y) = (monitoring::latest(a, f), monitoring::latest(b, f));
    if let Some(t) = x {
        let i = choose|i: int| 0 <= i < a.len() && f(#[trigger] a[i]) == When::At(t);
        assert(a.contains(a[i]));
        let k = choose|k: int| 0 <= k < b.len() && b[k] == a[i];
        assert(f(b[k]) == When::At(t));
    }
    if let Some(t) = y {
        let i = choose|i: int| 0 <= i < b.len() && f(#[trigger] b[i]) == When::At(t);
        assert(b.contains(b[i]));
        let k = choose|k: int| 0 <= k < a.len() && a[k] == b[i];
        assert(f(a[k]) == When::At(t));
    }
    let (x, y) = (monitoring::earliest_next(a), monitoring::earliest_next(b));
    if let Some(t) = x {
        let i = choose|i: int|
            0 <= i < a.len() && (#[trigger] a[i]).next_check_at == When::At(t);
        assert(a.contains(a[i]));
        let k = choose|k: int| 0 <= k < b.len() && b[k] == a[i];
        assert(b[k].next_check_at == When::At(t));
    }
    if let Some(t) = y {
        let i = choose|i: int|
            0 <= i < b.len() && (#[trigger] b[i]).next_check_at == When::At(t);
        assert(b.contains(b[i]));
        let k = choose|k: int| 0 <= k < a.len() && a[k] == b[i];
        assert(a[k].next_check_at == When::At(t));
    }
}

// ---------- open alerts ----------

spec fn open_in(v: Seq<AlertIn>) -> nat
    decreases v.len(),
{
    if v.len() == 0 {
        0
    } else {
        open_in(v.drop_last()) + (if v.last().open {
            1nat
        } else {
            0
        })
    }
}

spec fn opens(ms: Seq<MonitorIn>) -> nat
    decreases ms.len(),
{
    if ms.len() == 0 {
        0
    } else {
        opens(ms.drop_last()) + open_in(ms.last().alerts@)
    }
}

proof fn counts_add(a: Seq<AlertView>, b: Seq<AlertView>)
    ensures
        monitoring::open_count(a + b) == monitoring::open_count(a) + monitoring::open_count(b),
    decreases b.len(),
{
    if b.len() == 0 {
        assert(a + b =~= a);
    } else {
        counts_add(a, b.drop_last());
        assert((a + b).drop_last() =~= a + b.drop_last());
    }
}

proof fn one_monitor(ms: Seq<MonitorIn>, i: int, n: nat, now: i64)
    requires
        0 <= i < ms.len(),
        n <= ms[i].alerts@.len(),
    ensures
        monitoring::open_count(Seq::new(n, |k: int| monitoring::alert_out(ms, i, k, now)))
            == open_in(ms[i].alerts@.take(n as int)),
    decreases n,
{
    let s = Seq::new(n, |k: int| monitoring::alert_out(ms, i, k, now));
    let t = ms[i].alerts@.take(n as int);
    if n > 0 {
        one_monitor(ms, i, (n - 1) as nat, now);
        assert(s.drop_last() =~= Seq::new(
            (n - 1) as nat,
            |k: int| monitoring::alert_out(ms, i, k, now),
        ));
        assert(t.drop_last() =~= ms[i].alerts@.take(n - 1));
    }
}

proof fn all_monitors(ms: Seq<MonitorIn>, n: int, now: i64)
    requires
        0 <= n <= ms.len(),
    ensures
        monitoring::open_count(monitoring::alerts_upto(ms, n, now)) == opens(ms.take(n)),
    decreases n,
{
    if n > 0 {
        all_monitors(ms, n - 1, now);
        let m = ms[n - 1];
        let more = Seq::new(
            m.alerts@.len(),
            |k: int| monitoring::alert_out(ms, n - 1, k, now),
        );
        counts_add(monitoring::alerts_upto(ms, n - 1, now), more);
        one_monitor(ms, n - 1, m.alerts@.len(), now);
        assert(m.alerts@.take(m.alerts@.len() as int) =~= m.alerts@);
        assert(ms.take(n).drop_last() =~= ms.take(n - 1));
    }
}

proof fn insertion_counts(s: Seq<AlertView>, x: AlertView, le: spec_fn(AlertView, AlertView) -> bool)
    ensures
        monitoring::open_count(order::insert(s, x, le)) == monitoring::open_count(s) + (if x.open {
            1nat
        } else {
            0
        }),
    decreases s.len(),
{
    if s.len() == 0 || le(s.last(), x) {
        assert(s.push(x).drop_last() =~= s);
    } else {
        insertion_counts(s.drop_last(), x, le);
        let a = order::insert(s.drop_last(), x, le);
        assert(a.push(s.last()).drop_last() =~= a);
    }
}

proof fn sorting_counts(s: Seq<AlertView>, le: spec_fn(AlertView, AlertView) -> bool)
    ensures
        monitoring::open_count(order::sorted(s, le)) == monitoring::open_count(s),
    decreases s.len(),
{
    if s.len() > 0 {
        sorting_counts(s.drop_last(), le);
        insertion_counts(order::sorted(s.drop_last(), le), s.last(), le);
    }
}

proof fn opens_without(b: Seq<MonitorIn>, k: int)
    requires
        0 <= k < b.len(),
    ensures
        opens(b) == opens(b.remove(k)) + open_in(b[k].alerts@),
    decreases b.len(),
{
    if k == b.len() - 1 {
        assert(b.remove(k) =~= b.drop_last());
    } else {
        opens_without(b.drop_last(), k);
        assert(b.remove(k).drop_last() =~= b.drop_last().remove(k));
    }
}

proof fn opens_agree(a: Seq<MonitorIn>, b: Seq<MonitorIn>)
    requires
        a.to_multiset() == b.to_multiset(),
    ensures
        opens(a) == opens(b),
    decreases a.len(),
{
    vstd::seq_lib::to_multiset_len(a);
    vstd::seq_lib::to_multiset_len(b);
    if a.len() > 0 {
        same_members(a, b);
        let x = a.last();
        assert(a[a.len() - 1] == x);
        assert(a.contains(x));
        let k = choose|k: int| 0 <= k < b.len() && b[k] == x;
        opens_without(b, k);
        assert(a.remove(a.len() - 1) =~= a.drop_last());
        vstd::seq_lib::to_multiset_remove(a, a.len() - 1);
        vstd::seq_lib::to_multiset_remove(b, k);
        opens_agree(a.drop_last(), b.remove(k));
    }
}

/// The state, the times and the number of open alerts that the monitors
/// give together are the same in whatever order they come.
pub proof fn the_order_of_monitors_does_not_count(
    a: Seq<MonitorIn>,
    b: Seq<MonitorIn>,
    now: i64,
)
    requires
        a.to_multiset() == b.to_multiset(),
    ensures
        monitoring::overall(a, now) == monitoring::overall(b, now),
        monitoring::latest(a, monitoring::success_at()) == monitoring::latest(
            b,
            monitoring::success_at(),
        ),
        monitoring::latest(a, monitoring::check_at()) == monitoring::latest(
            b,
            monitoring::check_at(),
        ),
        monitoring::earliest_next(a) == monitoring::earliest_next(b),
        monitoring::open_count(
            order::sorted(
                monitoring::alerts_upto(a, a.len() as int, now),
                monitoring::by_seq(),
            ),
        ) == monitoring::open_count(
            order::sorted(
                monitoring::alerts_upto(b, b.len() as int, now),
                monitoring::by_seq(),
            ),
        ),
{
    states_carry_over(a, b, "degraded"@, now);
    states_carry_over(b, a, "degraded"@, now);
    states_carry_over(a, b, "stale"@, now);
    states_carry_over(b, a, "stale"@, now);
    states_carry_over(a, b, "active"@, now);
    states_carry_over(b, a, "active"@, now);
    times_agree(a, b, monitoring::success_at());
    times_agree(a, b, monitoring::check_at());
    all_monitors(a, a.len() as int, now);
    all_monitors(b, b.len() as int, now);
    assert(a.take(a.len() as int) =~= a);
    assert(b.take(b.len() as int) =~= b);
    sorting_counts(monitoring::alerts_upto(a, a.len() as int, now), monitoring::by_seq());
    sorting_counts(monitoring::alerts_upto(b, b.len() as int, now), monitoring::by_seq());
    opens_agree(a, b);
}

} // verus!
