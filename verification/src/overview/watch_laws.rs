//! What the monitors say together, told by each of them.
use crate::json;
use crate::json::JsonView;
use crate::overview::monitoring;
use crate::overview::monitoring::{AlertView, MonitorIn, Stamp, When};
use vstd::prelude::*;

verus! {

// ---------- the state ----------

/// The monitor says that it is in that state; one that says nothing is off.
pub open spec fn says(m: MonitorIn, state: Seq<char>) -> bool {
    match m.monitoring {
        Some(s) => s@ == state,
        None => state == "off"@,
    }
}

/// The monitor runs, but its next check is due or unknown, or it says it is
/// active and never succeeded.
pub open spec fn late(m: MonitorIn, now: i64) -> bool {
    let due = match m.next_check_at {
        When::At(t) => t.secs < now || (t.secs == now && t.nanos == 0),
        _ => true,
    };
    (says(m, "active"@) && (due || m.last_success_at is Null)) || (says(m, "degraded"@) && due)
}

proof fn late_is_overdue(m: MonitorIn, now: i64)
    ensures
        monitoring::is_overdue(m, now) == late(m, now),
{
    reveal_strlit("active");
    reveal_strlit("degraded");
    reveal_strlit("off");
    assert("active"@.len() == 6 && "degraded"@.len() == 8 && "off"@.len() == 3);
}

/// One degraded monitor makes the whole degraded; failing that, a stale or
/// late one makes it stale; failing that, an active one makes it active; and
/// without any it is stopped.
pub proof fn the_worst_monitor_decides(ms: Seq<MonitorIn>, now: i64)
    ensures
        ({
            let degraded = exists|i: int| 0 <= i < ms.len() && says(#[trigger] ms[i], "degraded"@);
            let stale = exists|i: int|
                0 <= i < ms.len() && (says(#[trigger] ms[i], "stale"@) || late(ms[i], now));
            let active = exists|i: int| 0 <= i < ms.len() && says(#[trigger] ms[i], "active"@);
            &&& degraded ==> monitoring::overall(ms, now) == "degraded"@
            &&& !degraded && stale ==> monitoring::overall(ms, now) == "stale"@
            &&& !degraded && !stale && active ==> monitoring::overall(ms, now) == "active"@
            &&& !degraded && !stale && !active ==> monitoring::overall(ms, now) == "stopped"@
        }),
{
    state_is_said(ms, "degraded"@);
    state_is_said(ms, "stale"@);
    state_is_said(ms, "active"@);
    reveal_strlit("active");
    reveal_strlit("degraded");
    reveal_strlit("stale");
    reveal_strlit("off");
    assert("active"@.len() == 6 && "degraded"@.len() == 8 && "off"@.len() == 3 && "stale"@.len()
        == 5);
    let stale = exists|i: int|
        0 <= i < ms.len() && (says(#[trigger] ms[i], "stale"@) || late(ms[i], now));
    if stale {
        let i = choose|i: int|
            0 <= i < ms.len() && (says(#[trigger] ms[i], "stale"@) || late(ms[i], now));
        late_is_overdue(ms[i], now);
        if late(ms[i], now) {
            assert(monitoring::is_overdue(ms[i], now));
        } else {
            assert(says(ms[i], "stale"@));
        }
    }
    if monitoring::any_state(ms, "stale"@) {
        let i = choose|i: int|
            0 <= i < ms.len() && monitoring::raw_state(#[trigger] ms[i]) == "stale"@;
        assert(says(ms[i], "stale"@));
    }
    if monitoring::any_overdue(ms, now) {
        let i = choose|i: int| 0 <= i < ms.len() && monitoring::is_overdue(#[trigger] ms[i], now);
        late_is_overdue(ms[i], now);
        assert(late(ms[i], now));
    }
}

proof fn state_is_said(ms: Seq<MonitorIn>, state: Seq<char>)
    ensures
        monitoring::any_state(ms, state) <==> exists|i: int|
            0 <= i < ms.len() && says(#[trigger] ms[i], state),
{
    if monitoring::any_state(ms, state) {
        let i = choose|i: int| 0 <= i < ms.len() && monitoring::raw_state(#[trigger] ms[i]) == state;
        assert(says(ms[i], state));
    }
    if exists|i: int| 0 <= i < ms.len() && says(#[trigger] ms[i], state) {
        let i = choose|i: int| 0 <= i < ms.len() && says(#[trigger] ms[i], state);
        assert(monitoring::raw_state(ms[i]) == state);
    }
}

// ---------- times ----------

/// No later than the other.
pub open spec fn no_later(a: Stamp, b: Stamp) -> bool {
    a.secs < b.secs || (a.secs == b.secs && a.nanos <= b.nanos)
}

/// Of the times that the monitors give, the latest is told.
pub proof fn the_latest_time_is_told(ms: Seq<MonitorIn>, f: spec_fn(MonitorIn) -> When)
    ensures
        monitoring::latest(ms, f) matches Some(t) ==> exists|i: int|
            0 <= i < ms.len() && f(#[trigger] ms[i]) == When::At(t),
        forall|i: int|
            0 <= i < ms.len() ==> (f(#[trigger] ms[i]) matches When::At(u) ==> monitoring::latest(
                ms,
                f,
            ) is Some && no_later(u, monitoring::latest(ms, f)->0)),
    decreases ms.len(),
{
    if ms.len() > 0 {
        let w = ms.drop_last();
        let last = ms.len() - 1;
        the_latest_time_is_told(w, f);
        assert(forall|i: int| 0 <= i < w.len() ==> #[trigger] ms[i] == w[i]);
        assert(ms[last] == ms.last());
        let (old, new) = (monitoring::latest(w, f), monitoring::latest(ms, f));
        if new is Some && new == old {
            let i = choose|i: int| 0 <= i < w.len() && f(#[trigger] w[i]) == When::At(old->0);
            assert(f(ms[i]) == When::At(new->0));
        }
    }
}

/// Of the checks that the monitors plan, the earliest is told.
pub proof fn the_earliest_check_is_told(ms: Seq<MonitorIn>)
    ensures
        monitoring::earliest_next(ms) matches Some(t) ==> exists|i: int|
            0 <= i < ms.len() && (#[trigger] ms[i]).next_check_at == When::At(t),
        forall|i: int|
            0 <= i < ms.len() ==> ((#[trigger] ms[i]).next_check_at matches When::At(u)
                ==> monitoring::earliest_next(ms) is Some && no_later(
                monitoring::earliest_next(ms)->0,
                u,
            )),
    decreases ms.len(),
{
    if ms.len() > 0 {
        let w = ms.drop_last();
        let last = ms.len() - 1;
        the_earliest_check_is_told(w);
        assert(forall|i: int| 0 <= i < w.len() ==> #[trigger] ms[i] == w[i]);
        assert(ms[last] == ms.last());
        let (old, new) = (monitoring::earliest_next(w), monitoring::earliest_next(ms));
        if new is Some && new == old {
            let i = choose|i: int|
                0 <= i < w.len() && (#[trigger] w[i]).next_check_at == When::At(old->0);
            assert(ms[i].next_check_at == When::At(new->0));
        }
    }
}

// ---------- alerts ----------

/// The alert stands for that one of that monitor.
pub open spec fn stands_for(a: AlertView, ms: Seq<MonitorIn>, i: int, k: int) -> bool {
    let x = ms[i].alerts@[k];
    &&& a.monitor == i && a.alert == k
    &&& a.open == x.open
    &&& x.seq matches Some(s) ==> a.seq == s
    &&& x.seq is None ==> a.seq == 0
}

/// Every alert of every monitor is told.
pub proof fn every_alert_is_told(ms: Seq<MonitorIn>, n: int, now: i64, i: int, k: int)
    requires
        0 <= i < n <= ms.len(),
        0 <= k < ms[i].alerts@.len(),
    ensures
        exists|p: int|
            0 <= p < monitoring::alerts_upto(ms, n, now).len() && stands_for(
                #[trigger] monitoring::alerts_upto(ms, n, now)[p],
                ms,
                i,
                k,
            ),
    decreases n,
{
    let before = monitoring::alerts_upto(ms, n - 1, now);
    let all = monitoring::alerts_upto(ms, n, now);
    if i < n - 1 {
        every_alert_is_told(ms, n - 1, now, i, k);
        let p = choose|p: int|
            0 <= p < before.len() && stands_for(#[trigger] before[p], ms, i, k);
        assert(all[p] == before[p]);
    } else {
        let p = before.len() + k;
        assert(all[p] == monitoring::alert_out(ms, i, k, now));
        assert(stands_for(all[p], ms, i, k));
    }
}

/// Each open alert counts once.
pub proof fn open_alerts_are_counted(v: Seq<AlertView>, a: AlertView)
    ensures
        monitoring::open_count(seq![]) == 0,
        monitoring::open_count(v.push(a)) == monitoring::open_count(v) + (if a.open {
            1nat
        } else {
            0
        }),
{
    assert(v.push(a).drop_last() =~= v);
}

/// What needs the operator's word goes to them, a draft to a review, and
/// everything else to whoever owns the monitor.
pub proof fn who_acts_on_an_alert(kind: Seq<char>, owner: Seq<char>)
    ensures
        ({
            let next = monitoring::action_of(kind, owner).1;
            &&& kind == "approval_menu"@ || kind == "attention"@ || kind == "turn_silent_end"@
                || kind == "turn_unknown"@ ==> next == "operator"@
            &&& kind == "draft_pending"@ ==> next == "review"@
            &&& kind != "approval_menu"@ && kind != "attention"@ && kind != "turn_silent_end"@
                && kind != "turn_unknown"@ && kind != "draft_pending"@ ==> next == owner
        }),
{
    reveal_strlit("approval_menu");
    reveal_strlit("attention");
    reveal_strlit("turn_silent_end");
    reveal_strlit("turn_unknown");
    reveal_strlit("draft_pending");
    assert("approval_menu"@.len() == 13 && "attention"@.len() == 9 && "turn_silent_end"@.len() == 15
        && "turn_unknown"@.len() == 12 && "draft_pending"@.len() == 13);
    assert("approval_menu"@[0] != "draft_pending"@[0]);
}

/// An alert is as old as the whole seconds since it was made, the half
/// rounded, and never less than nothing.
pub proof fn how_old_an_alert_is(t: Stamp, now: i64)
    requires
        i64::MIN <= now - t.secs - 1,
        now - t.secs <= i64::MAX,
    ensures
        t.nanos <= 500_000_000 && t.secs <= now ==> monitoring::alert_age(Some(t), now) == now
            - t.secs,
        t.nanos > 500_000_000 && t.secs < now ==> monitoring::alert_age(Some(t), now) == now - t.secs
            - 1,
        t.secs >= now ==> monitoring::alert_age(Some(t), now) == 0,
        monitoring::alert_age(None, now) == 0,
{
}

/// What a late monitor, one with an error, and one whose alerts could not be
/// read are reported for.
pub proof fn what_is_reported_of_a_monitor(m: MonitorIn, now: i64)
    ensures
        ({
            let e = monitoring::errors_of(m, now);
            let own = late(m, now) || (m.error@ is Str && m.error@->Str_0.len() > 0);
            &&& e.len() == (if own {
                1int
            } else {
                0
            }) + (if m.alerts_error is Some {
                1int
            } else {
                0
            })
            &&& forall|i: int| 0 <= i < e.len() ==> (#[trigger] e[i]).0 == m.id@
            &&& m.alerts_error matches Some(x) ==> e[e.len() - 1].1 == JsonView::Str(x@)
            &&& own && !(m.error@ is Null) ==> e[0].1 == m.error@
        }),
{
    late_is_overdue(m, now);
}

// ---------- what the daemon replies ----------

/// A text that says something.
pub open spec fn told(row: JsonView, k: Seq<char>) -> bool {
    json::field(row, k) matches Some(JsonView::Str(s)) && s.len() > 0
}

/// A whole number, no smaller than that.
pub open spec fn number(row: JsonView, k: Seq<char>, least: int) -> bool {
    json::field(row, k) matches Some(v) && json::integer(v) is Some && json::integer(v)->0 >= least
}

/// A row of the list is read exactly where it names its monitor, project,
/// owner and state, and holds its interval, coverage, delivery and counts.
pub proof fn what_monitor_is_read(row: JsonView)
    ensures
        monitoring::monitor_fault(row) is None <==> {
            &&& row is Obj
            &&& told(row, "id"@) && told(row, "project"@) && told(row, "owner"@)
            &&& json::field(row, "monitoring"@) == Some(JsonView::Str("active"@)) || json::field(
                row,
                "monitoring"@,
            ) == Some(JsonView::Str("degraded"@)) || json::field(row, "monitoring"@) == Some(
                JsonView::Str("off"@),
            )
            &&& number(row, "interval_secs"@, 1)
            &&& json::field(row, "coverage"@) is Some && json::field(row, "coverage"@)->0 is Arr
            &&& json::field(row, "delivery"@) is Some && json::field(row, "delivery"@)->0 is Obj
            &&& json::field(json::field(row, "delivery"@)->0, "configured"@) is Some
                && json::field(json::field(row, "delivery"@)->0, "configured"@)->0 is Bool
            &&& json::field(json::field(row, "delivery"@)->0, "state"@) is Some
                && json::field(json::field(row, "delivery"@)->0, "state"@)->0 is Str
            &&& number(row, "open_alerts"@, i64::MIN as int)
            &&& number(row, "total_alerts"@, i64::MIN as int)
        },
{
    reveal_strlit("active");
    reveal_strlit("degraded");
    reveal_strlit("off");
    assert("active"@.len() == 6 && "degraded"@.len() == 8 && "off"@.len() == 3);
}

/// A list is read exactly where each of its rows is.
pub proof fn every_monitor_must_be_read(rows: Seq<JsonView>)
    ensures
        monitoring::monitors_fault(rows) is None <==> forall|i: int|
            0 <= i < rows.len() ==> monitoring::monitor_fault(#[trigger] rows[i]) is None,
    decreases rows.len(),
{
    if rows.len() > 0 {
        let w = rows.drop_last();
        every_monitor_must_be_read(w);
        assert(forall|i: int| 0 <= i < w.len() ==> #[trigger] rows[i] == w[i]);
        assert(rows[rows.len() - 1] == rows.last());
        if forall|i: int|
            0 <= i < rows.len() ==> monitoring::monitor_fault(#[trigger] rows[i]) is None {
            assert forall|i: int| 0 <= i < w.len() implies monitoring::monitor_fault(
                #[trigger] w[i],
            ) is None by {
                assert(rows[i] == w[i]);
            }
        }
    }
}

/// An alert is read exactly where it is of the monitor asked for, and holds
/// its numbers, texts, payload, state and times.
pub proof fn what_alert_is_read(monitor: Seq<char>, row: JsonView)
    requires
        monitor.len() > 0,
    ensures
        monitoring::alert_fault(monitor, row) is None <==> {
            &&& row is Obj
            &&& number(row, "seq"@, 1) && number(row, "event_seq"@, 1) && number(
                row,
                "attempts"@,
                0,
            )
            &&& json::field(row, "monitor"@) == Some(JsonView::Str(monitor))
            &&& told(row, "task"@) && told(row, "fingerprint"@) && told(row, "kind"@)
            &&& json::field(row, "payload"@) is Some
            &&& json::field(row, "state"@) == Some(JsonView::Str("open"@)) || json::field(
                row,
                "state"@,
            ) == Some(JsonView::Str("acknowledged"@)) || json::field(row, "state"@) == Some(
                JsonView::Str("resolved"@),
            )
            &&& json::field(row, "last_error"@) is Some && (json::field(row, "last_error"@)->0
                is Null || json::field(row, "last_error"@)->0 is Str)
            &&& json::field(row, "created"@) is Some && json::field(row, "created"@)->0 is Num
            &&& json::field(row, "updated"@) is Some && json::field(row, "updated"@)->0 is Num
        },
{
}

/// A reply with alerts is read exactly where it is of the monitor asked for,
/// with a cursor, and each of its alerts is read.
pub proof fn every_alert_must_be_read(monitor: Seq<char>, response: JsonView, rows: Seq<JsonView>)
    requires
        json::field(response, "alerts"@) == Some(JsonView::Arr(rows)),
        monitor.len() > 0,
    ensures
        monitoring::response_fault(monitor, response) is None <==> json::field(response, "monitor"@)
            == Some(JsonView::Str(monitor)) && number(response, "cursor"@, 0) && forall|i: int|
            0 <= i < rows.len() ==> monitoring::alert_fault(monitor, #[trigger] rows[i]) is None,
{
    alerts_are_read(monitor, rows);
}

proof fn alerts_are_read(monitor: Seq<char>, rows: Seq<JsonView>)
    ensures
        monitoring::alerts_fault(monitor, rows) is None <==> forall|i: int|
            0 <= i < rows.len() ==> monitoring::alert_fault(monitor, #[trigger] rows[i]) is None,
    decreases rows.len(),
{
    if rows.len() > 0 {
        let w = rows.drop_last();
        alerts_are_read(monitor, w);
        assert(forall|i: int| 0 <= i < w.len() ==> #[trigger] rows[i] == w[i]);
        assert(rows[rows.len() - 1] == rows.last());
        if forall|i: int|
            0 <= i < rows.len() ==> monitoring::alert_fault(monitor, #[trigger] rows[i]) is None {
            assert forall|i: int| 0 <= i < w.len() implies monitoring::alert_fault(
                monitor,
                #[trigger] w[i],
            ) is None by {
                assert(rows[i] == w[i]);
            }
        }
    }
}

} // verus!
