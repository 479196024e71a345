//! What holds of requests, grants and rules over several calls.
use crate::master_perm;
use crate::master_perm::record;
use crate::master_perm::record::{
    DocView, Effect, GrantView, RequestView, RuleView, Scope, UseView,
};
use crate::master_perm::{Facts, Risk, TTL_SECS};
use crate::text;
use vstd::prelude::*;

verus! {

// ---------- asking twice ----------

proof fn statuses_differ()
    ensures
        "pending"@ != "expired"@,
        "pending"@ != "allowed"@,
        "pending"@ != "rejected"@,
{
    reveal_strlit("pending");
    reveal_strlit("expired");
    reveal_strlit("allowed");
    reveal_strlit("rejected");
    assert("pending"@[0] != "expired"@[0]);
    assert("pending"@[0] != "allowed"@[0]);
    assert("pending"@[0] != "rejected"@[0]);
}

proof fn ask_index(v: Seq<RequestView>, argv: Seq<Seq<char>>, cwd: Seq<char>)
    ensures
        match record::first_ask(v, argv, cwd) {
            Some(i) => 0 <= i < v.len() && record::same_ask(v[i], argv, cwd) && forall|j: int|
                0 <= j < i ==> !record::same_ask(#[trigger] v[j], argv, cwd),
            None => forall|j: int|
                0 <= j < v.len() ==> !record::same_ask(#[trigger] v[j], argv, cwd),
        },
    decreases v.len(),
{
    if v.len() > 0 {
        ask_index(v.drop_last(), argv, cwd);
        assert forall|j: int| 0 <= j < v.len() - 1 implies v.drop_last()[j] == v[j] by {}
        if record::first_ask(v, argv, cwd) is None {
            assert forall|j: int| 0 <= j < v.len() implies !record::same_ask(
                #[trigger] v[j],
                argv,
                cwd,
            ) by {
                if j < v.len() - 1 {
                    assert(!record::same_ask(v.drop_last()[j], argv, cwd));
                }
            }
        } else {
            let i = record::first_ask(v, argv, cwd)->0;
            assert forall|j: int| 0 <= j < i implies !record::same_ask(#[trigger] v[j], argv, cwd) by {
                assert(!record::same_ask(v.drop_last()[j], argv, cwd));
            }
        }
    }
}

/// While a request for a command and directory is pending and has not run
/// out, asking for the same gives that request and stores nothing, whatever
/// the reason.
pub proof fn a_live_request_is_asked_once(
    d: DocView,
    i: int,
    id: Seq<char>,
    argv: Seq<Seq<char>>,
    cwd: Seq<char>,
    reason: Seq<char>,
    by: Seq<char>,
    risk: Risk,
    now: i64,
)
    requires
        0 <= i < d.requests.len(),
        record::first_ask(d.requests, argv, cwd) == Some(i),
        d.requests[i].expires_at > now,
    ensures
        record::asked(d, id, argv, cwd, reason, by, risk, now) == (
            record::expired(d, now),
            d.requests[i],
        ),
        record::expired(d, now).requests.len() == d.requests.len(),
{
    let e = record::expired(d, now);
    statuses_differ();
    ask_index(d.requests, argv, cwd);
    ask_index(e.requests, argv, cwd);
    assert(e.requests[i] == record::aged(d.requests[i], now));
    assert forall|j: int| 0 <= j < i implies !record::same_ask(
        #[trigger] e.requests[j],
        argv,
        cwd,
    ) by {
        assert(e.requests[j] == record::aged(d.requests[j], now));
        assert(!record::same_ask(d.requests[j], argv, cwd));
    }
    assert(record::same_ask(e.requests[i], argv, cwd));
    assert(record::first_ask(e.requests, argv, cwd) == Some(i));
}

/// A second ask before the request ran out gives the first request in every
/// field, and the record does not grow.
pub proof fn a_second_ask_gives_the_first_request(
    d: DocView,
    id: Seq<char>,
    argv: Seq<Seq<char>>,
    cwd: Seq<char>,
    reason: Seq<char>,
    by: Seq<char>,
    risk: Risk,
    now: i64,
    again: Seq<char>,
    why: Seq<char>,
    same: Risk,
    later: i64,
)
    requires
        now + TTL_SECS <= i64::MAX,
        later < record::asked(d, id, argv, cwd, reason, by, risk, now).1.expires_at,
    ensures
        ({
            let (d1, r1) = record::asked(d, id, argv, cwd, reason, by, risk, now);
            let (d2, r2) = record::asked(d1, again, argv, cwd, why, by, same, later);
            &&& r2 == r1
            &&& r1.status == "pending"@
            &&& d2.requests.len() == d1.requests.len()
        }),
{
    let e = record::expired(d, now);
    let (d1, r1) = record::asked(d, id, argv, cwd, reason, by, risk, now);
    ask_index(e.requests, argv, cwd);
    match record::first_ask(e.requests, argv, cwd) {
        Some(i) => {
            a_live_request_is_asked_once(d1, i, again, argv, cwd, why, by, same, later);
        },
        None => {
            assert(d1.requests.drop_last() =~= e.requests);
            assert(record::same_ask(r1, argv, cwd));
            let i = d1.requests.len() - 1;
            assert(record::first_ask(d1.requests, argv, cwd) == Some(i));
            a_live_request_is_asked_once(d1, i, again, argv, cwd, why, by, same, later);
        },
    }
}

// ---------- one decision ----------

/// A request that was decided, or that ran out.
pub open spec fn settled(d: DocView, id: Seq<char>) -> bool {
    match record::request_at(d.requests, id) {
        Some(i) => d.requests[i].status != "pending"@,
        None => false,
    }
}

/// The refusal of a request that is not pending.
pub open spec fn again_text(d: DocView, id: Seq<char>) -> Seq<char> {
    "permission request '"@ + id + "' is "@ + d.requests[record::request_at(
        d.requests,
        id,
    )->0].status + " — it cannot be decided again"@
}

proof fn expiry_keeps_places(d: DocView, id: Seq<char>, now: i64)
    ensures
        record::request_at(record::expired(d, now).requests, id) == record::request_at(
            d.requests,
            id,
        ),
        record::expired(d, now).requests.len() == d.requests.len(),
        forall|i: int|
            0 <= i < d.requests.len() ==> #[trigger] record::expired(d, now).requests[i]
                == record::aged(d.requests[i], now),
{
    record::same_place(d.requests, record::expired(d, now).requests, id);
    record::request_index(d.requests, id);
}

/// No decision is taken on a request that was decided or that ran out.
pub proof fn a_settled_request_is_not_decided(
    d: DocView,
    id: Seq<char>,
    grant: Seq<char>,
    scope: Scope,
    tail: Seq<Seq<char>>,
    rule: Seq<char>,
    dont_ask_again: bool,
    now: i64,
)
    requires
        settled(d, id),
    ensures
        record::allowed_once(d, id, grant, now) == Err::<(DocView, RequestView), Seq<char>>(
            again_text(d, id),
        ),
        record::always(d, id, scope, tail, rule, now) == Err::<
            (DocView, RequestView, RuleView),
            Seq<char>,
        >(again_text(d, id)),
        record::refused(d, id, dont_ask_again, rule, now) == Err::<
            (DocView, RequestView, Option<RuleView>),
            Seq<char>,
        >(again_text(d, id)),
{
    record::request_index(d.requests, id);
    expiry_keeps_places(d, id, now);
    let i = record::request_at(d.requests, id)->0;
    assert(record::expired(d, now).requests[i] == d.requests[i]);
}

proof fn update_settles(d: DocView, i: int, q: RequestView, n: DocView, id: Seq<char>)
    requires
        record::request_at(d.requests, id) == Some(i),
        0 <= i < d.requests.len(),
        q.id == d.requests[i].id,
        q.status != "pending"@,
        n.requests == d.requests.update(i, q),
    ensures
        settled(n, id),
{
    record::same_place(d.requests, n.requests, id);
}

/// Every decision settles the request.
pub proof fn a_decision_settles(
    d: DocView,
    id: Seq<char>,
    grant: Seq<char>,
    scope: Scope,
    tail: Seq<Seq<char>>,
    rule: Seq<char>,
    dont_ask_again: bool,
    now: i64,
)
    ensures
        record::allowed_once(d, id, grant, now) is Ok ==> settled(
            record::allowed_once(d, id, grant, now)->Ok_0.0,
            id,
        ),
        record::always(d, id, scope, tail, rule, now) is Ok ==> settled(
            record::always(d, id, scope, tail, rule, now)->Ok_0.0,
            id,
        ),
        record::refused(d, id, dont_ask_again, rule, now) is Ok ==> settled(
            record::refused(d, id, dont_ask_again, rule, now)->Ok_0.0,
            id,
        ),
{
    statuses_differ();
    let e = record::expired(d, now);
    record::request_index(e.requests, id);
    if record::decidable(e, id) is Ok {
        let i = record::decidable(e, id)->Ok_0;
        if record::allowed_once(d, id, grant, now) is Ok {
            let (n, q) = record::allowed_once(d, id, grant, now)->Ok_0;
            update_settles(e, i, q, n, id);
        }
        if record::always(d, id, scope, tail, rule, now) is Ok {
            let (n, q, r) = record::always(d, id, scope, tail, rule, now)->Ok_0;
            update_settles(e, i, q, n, id);
        }
        if record::refused(d, id, dont_ask_again, rule, now) is Ok {
            let (n, q, r) = record::refused(d, id, dont_ask_again, rule, now)->Ok_0;
            update_settles(e, i, q, n, id);
        }
    }
}

proof fn elsewhere(d: DocView, other: Seq<char>, q: RequestView, n: DocView, id: Seq<char>)
    requires
        settled(d, id),
        record::request_at(d.requests, other) is Some,
        other != id || q.status != "pending"@,
        q.id == other,
        n.requests == d.requests.update(record::request_at(d.requests, other)->0, q),
    ensures
        settled(n, id),
{
    record::request_index(d.requests, other);
    record::request_index(d.requests, id);
    record::same_place(d.requests, n.requests, id);
}

proof fn pushing_keeps(v: Seq<RequestView>, q: RequestView, id: Seq<char>)
    requires
        record::request_at(v, id) is Some,
    ensures
        record::request_at(v.push(q), id) == record::request_at(v, id),
{
    assert(v.push(q).drop_last() =~= v);
}

/// Nothing but its own reopening makes a settled request pending again: not
/// time, another ask, a decision on any request, another reopening, nor a
/// grant that is used.
pub proof fn only_reopening_unsettles(
    d: DocView,
    id: Seq<char>,
    other: Seq<char>,
    fresh: Seq<char>,
    argv: Seq<Seq<char>>,
    cwd: Seq<char>,
    reason: Seq<char>,
    by: Seq<char>,
    risk: Risk,
    scope: Scope,
    tail: Seq<Seq<char>>,
    dont_ask_again: bool,
    now: i64,
)
    requires
        settled(d, id),
    ensures
        settled(record::expired(d, now), id),
        settled(record::asked(d, fresh, argv, cwd, reason, by, risk, now).0, id),
        record::allowed_once(d, other, fresh, now) is Ok ==> settled(
            record::allowed_once(d, other, fresh, now)->Ok_0.0,
            id,
        ),
        record::always(d, other, scope, tail, fresh, now) is Ok ==> settled(
            record::always(d, other, scope, tail, fresh, now)->Ok_0.0,
            id,
        ),
        record::refused(d, other, dont_ask_again, fresh, now) is Ok ==> settled(
            record::refused(d, other, dont_ask_again, fresh, now)->Ok_0.0,
            id,
        ),
        other != id ==> settled(record::reopened(d, other, now), id),
        settled(record::spent(d, argv, cwd, now), id),
{
    statuses_differ();
    let e = record::expired(d, now);
    record::request_index(d.requests, id);
    expiry_keeps_places(d, id, now);
    let i = record::request_at(d.requests, id)->0;
    assert(e.requests[i] == d.requests[i]);
    assert(settled(e, id));
    if record::first_ask(e.requests, argv, cwd) is None {
        let q = record::new_request(fresh, argv, cwd, reason, by, risk, now);
        pushing_keeps(e.requests, q, id);
        record::request_index(e.requests, id);
    }
    record::request_index(e.requests, other);
    if record::allowed_once(d, other, fresh, now) is Ok {
        let (n, q) = record::allowed_once(d, other, fresh, now)->Ok_0;
        elsewhere(e, other, q, n, id);
    }
    if record::always(d, other, scope, tail, fresh, now) is Ok {
        let (n, q, r) = record::always(d, other, scope, tail, fresh, now)->Ok_0;
        elsewhere(e, other, q, n, id);
    }
    if record::refused(d, other, dont_ask_again, fresh, now) is Ok {
        let (n, q, r) = record::refused(d, other, dont_ask_again, fresh, now)->Ok_0;
        elsewhere(e, other, q, n, id);
    }
    if other != id {
        let n = record::reopened(d, other, now);
        if n != e {
            let k = record::request_at(e.requests, other)->0;
            elsewhere(e, other, record::decided(e.requests[k], "pending"@, ""@, ""@), n, id);
        }
    }
}

/// A pending request is allowed while it has not run out, and only so: the
/// refusal of one that ran out says that it is expired.
pub proof fn an_allow_is_in_time(d: DocView, id: Seq<char>, i: int, grant: Seq<char>, now: i64)
    requires
        record::request_at(d.requests, id) == Some(i),
        d.requests[i].status == "pending"@,
    ensures
        match record::allowed_once(d, id, grant, now) {
            Ok(p) => {
                &&& now < d.requests[i].expires_at
                &&& p.1 == record::decided(
                    d.requests[i],
                    "allowed"@,
                    "allow_once"@,
                    "Allowed once by operator "@ + record::hm(now),
                )
                &&& p.0.grants.last() == record::grant_of(p.1, grant, now)
            },
            Err(why) => {
                &&& d.requests[i].expires_at <= now
                &&& why == "permission request '"@ + id + "' is "@ + "expired"@
                    + " — it cannot be decided again"@
            },
        },
{
    statuses_differ();
    record::request_index(d.requests, id);
    expiry_keeps_places(d, id, now);
    assert(record::expired(d, now).requests[i] == record::aged(d.requests[i], now));
}

// ---------- one run per grant ----------

/// A grant that can still be used for a command in a directory, but for its
/// time.
pub open spec fn unused(g: GrantView, argv: Seq<Seq<char>>, cwd: Seq<char>) -> bool {
    g.uses_left > 0 && g.argv == argv && g.cwd == cwd
}

/// How many such grants there are.
pub open spec fn unused_count(v: Seq<GrantView>, argv: Seq<Seq<char>>, cwd: Seq<char>) -> nat
    decreases v.len(),
{
    if v.len() == 0 {
        0
    } else {
        unused_count(v.drop_last(), argv, cwd) + (if unused(v.last(), argv, cwd) {
            1nat
        } else {
            0
        })
    }
}

/// No rule is of the command.
pub open spec fn unruled(rules: Seq<RuleView>, argv: Seq<Seq<char>>, cwd: Seq<char>) -> bool {
    record::first_rule(rules, Effect::Deny, argv, cwd) is None && record::first_rule(
        rules,
        Effect::Allow,
        argv,
        cwd,
    ) is None
}

proof fn count_of_update(
    v: Seq<GrantView>,
    i: int,
    g: GrantView,
    argv: Seq<Seq<char>>,
    cwd: Seq<char>,
)
    requires
        0 <= i < v.len(),
        !unused(g, argv, cwd),
    ensures
        unused_count(v.update(i, g), argv, cwd) + (if unused(v[i], argv, cwd) {
            1nat
        } else {
            0
        }) == unused_count(v, argv, cwd),
    decreases v.len(),
{
    let w = v.update(i, g);
    if i == v.len() - 1 {
        assert(w.drop_last() =~= v.drop_last());
    } else {
        assert(w.drop_last() =~= v.drop_last().update(i, g));
        count_of_update(v.drop_last(), i, g, argv, cwd);
    }
}

proof fn count_of_filter(v: Seq<GrantView>, now: i64, argv: Seq<Seq<char>>, cwd: Seq<char>)
    ensures
        unused_count(v.filter(record::live(now)), argv, cwd) <= unused_count(v, argv, cwd),
    decreases v.len(),
{
    reveal(Seq::filter);
    if v.len() > 0 {
        count_of_filter(v.drop_last(), now, argv, cwd);
        let rest = v.drop_last().filter(record::live(now));
        if record::live(now)(v.last()) {
            assert(rest.push(v.last()).drop_last() =~= rest);
        }
    }
}

proof fn kept_in_filter(v: Seq<GrantView>, now: i64, g: GrantView)
    requires
        v.contains(g),
        record::live(now)(g),
    ensures
        v.filter(record::live(now)).contains(g),
    decreases v.len(),
{
    reveal(Seq::filter);
    let rest = v.drop_last();
    let k = choose|k: int| 0 <= k < v.len() && v[k] == g;
    if k < v.len() - 1 {
        assert(rest[k] == g);
        kept_in_filter(rest, now, g);
        let f = rest.filter(record::live(now));
        let m = choose|m: int| 0 <= m < f.len() && f[m] == g;
        if record::live(now)(v.last()) {
            assert(f.push(v.last())[m] == g);
        }
    } else {
        let f = rest.filter(record::live(now));
        assert(f.push(g)[f.len() as int] == g);
    }
}

proof fn count_has(v: Seq<GrantView>, i: int, argv: Seq<Seq<char>>, cwd: Seq<char>)
    requires
        0 <= i < v.len(),
        unused(v[i], argv, cwd),
    ensures
        unused_count(v, argv, cwd) >= 1,
    decreases v.len(),
{
    if i < v.len() - 1 {
        assert(v.drop_last()[i] == v[i]);
        count_has(v.drop_last(), i, argv, cwd);
    }
}

proof fn the_one(v: Seq<GrantView>, i: int, j: int, argv: Seq<Seq<char>>, cwd: Seq<char>)
    requires
        0 <= i < j < v.len(),
        unused(v[i], argv, cwd),
        unused(v[j], argv, cwd),
    ensures
        unused_count(v, argv, cwd) >= 2,
    decreases v.len(),
{
    if j < v.len() - 1 {
        assert(v.drop_last()[i] == v[i]);
        assert(v.drop_last()[j] == v[j]);
        the_one(v.drop_last(), i, j, argv, cwd);
    } else {
        assert(v.drop_last()[i] == v[i]);
        count_has(v.drop_last(), i, argv, cwd);
    }
}

/// `g` is the one grant that can be used for a command in a directory.
pub open spec fn sole(d: DocView, g: GrantView, argv: Seq<Seq<char>>, cwd: Seq<char>) -> bool {
    d.grants.contains(g) && unused(g, argv, cwd) && unused_count(d.grants, argv, cwd) == 1
}

/// An allowed request has one grant, where there was none for its command.
pub proof fn an_allow_gives_one_grant(d: DocView, id: Seq<char>, grant: Seq<char>, now: i64)
    requires
        record::allowed_once(d, id, grant, now) is Ok,
        ({
            let q = record::allowed_once(d, id, grant, now)->Ok_0.1;
            unused_count(record::expired(d, now).grants, q.argv, q.cwd) == 0
        }),
    ensures
        ({
            let (n, q) = record::allowed_once(d, id, grant, now)->Ok_0;
            let g = record::grant_of(q, grant, now);
            sole(n, g, q.argv, q.cwd) && g.request_id == id && g.expires_at == (now
                + TTL_SECS) as i64
        }),
{
    let e = record::expired(d, now);
    let (n, q) = record::allowed_once(d, id, grant, now)->Ok_0;
    let g = record::grant_of(q, grant, now);
    record::request_index(e.requests, id);
    assert(n.grants.drop_last() =~= e.grants);
    assert(n.grants[n.grants.len() - 1] == g);
}

/// The one grant for a command lets it run until its end, and then it is
/// gone: the run that takes it leaves none.
pub proof fn the_sole_grant_runs_once(
    d: DocView,
    g: GrantView,
    rules: Seq<RuleView>,
    argv: Seq<Seq<char>>,
    f: Facts,
    list: Seq<Seq<char>>,
    now: i64,
)
    requires
        sole(d, g, master_perm::normal(argv), f.cwd@),
        unruled(rules, master_perm::normal(argv), f.cwd@),
        !(master_perm::class(master_perm::normal(argv), f, list) is Never),
    ensures
        ({
            let e = record::expired(d, now);
            let n = master_perm::normal(argv);
            if now < g.expires_at {
                &&& record::permitted(e, rules, argv, Some(&f), list, now) == Ok::<
                    Option<UseView>,
                    Seq<char>,
                >(Some(UseView::Grant(g.request_id)))
                &&& unused_count(record::spent(e, n, f.cwd@, now).grants, n, f.cwd@) == 0
            } else {
                &&& record::permitted(e, rules, argv, Some(&f), list, now) == Ok::<
                    Option<UseView>,
                    Seq<char>,
                >(None)
            }
        }),
{
    let e = record::expired(d, now);
    let n = master_perm::normal(argv);
    let cwd = f.cwd@;
    count_of_filter(d.grants, now, n, cwd);
    record::grant_index(e.grants, n, cwd, now);
    let k = choose|k: int| 0 <= k < d.grants.len() && d.grants[k] == g;
    if now < g.expires_at {
        kept_in_filter(d.grants, now, g);
        let m = choose|m: int| 0 <= m < e.grants.len() && e.grants[m] == g;
        assert(record::grants_it(e.grants[m], n, cwd, now));
        let i = record::first_grant(e.grants, n, cwd, now)->0;
        assert(unused(e.grants[i], n, cwd));
        assert(unused(e.grants[m], n, cwd));
        if i < m {
            the_one(e.grants, i, m, n, cwd);
        } else if m < i {
            the_one(e.grants, m, i, n, cwd);
        }
        count_has(e.grants, m, n, cwd);
        count_of_update(e.grants, i, GrantView { uses_left: 0, ..e.grants[i] }, n, cwd);
    } else if record::first_grant(e.grants, n, cwd, now) is Some {
        let i = record::first_grant(e.grants, n, cwd, now)->0;
        from_filter(d.grants, now, i);
        let j = choose|j: int| 0 <= j < d.grants.len() && d.grants[j] == e.grants[i];
        assert(unused(d.grants[j], n, cwd) && unused(d.grants[k], n, cwd));
        if j < k {
            the_one(d.grants, j, k, n, cwd);
        } else if k < j {
            the_one(d.grants, k, j, n, cwd);
        }
    }
}

proof fn from_filter(v: Seq<GrantView>, now: i64, i: int)
    requires
        0 <= i < v.filter(record::live(now)).len(),
    ensures
        exists|j: int| 0 <= j < v.len() && #[trigger] v[j] == v.filter(record::live(now))[i],
    decreases v.len(),
{
    reveal(Seq::filter);
    let rest = v.drop_last();
    if i < rest.filter(record::live(now)).len() {
        from_filter(rest, now, i);
        let j = choose|j: int|
            0 <= j < rest.len() && #[trigger] rest[j] == rest.filter(record::live(now))[i];
        assert(v[j] == rest[j]);
    } else {
        assert(v[v.len() - 1] == v.last());
    }
}

/// Once no grant is left for a command and no rule is of it, no run finds
/// permission, at any time; and looking for one leaves it so.
pub proof fn without_a_grant_nothing_runs(
    d: DocView,
    rules: Seq<RuleView>,
    argv: Seq<Seq<char>>,
    f: Facts,
    list: Seq<Seq<char>>,
    now: i64,
)
    requires
        unused_count(d.grants, master_perm::normal(argv), f.cwd@) == 0,
        unruled(rules, master_perm::normal(argv), f.cwd@),
        !(master_perm::class(master_perm::normal(argv), f, list) is Never),
    ensures
        record::permitted(record::expired(d, now), rules, argv, Some(&f), list, now) == Ok::<
            Option<UseView>,
            Seq<char>,
        >(None),
        unused_count(record::expired(d, now).grants, master_perm::normal(argv), f.cwd@) == 0,
{
    let e = record::expired(d, now);
    let n = master_perm::normal(argv);
    count_of_filter(d.grants, now, n, f.cwd@);
    record::grant_index(e.grants, n, f.cwd@, now);
    if record::first_grant(e.grants, n, f.cwd@, now) is Some {
        count_has(e.grants, record::first_grant(e.grants, n, f.cwd@, now)->0, n, f.cwd@);
    }
}

/// A run of another command, or in another directory, leaves the one grant
/// as it is.
pub proof fn another_run_leaves_the_grant(
    d: DocView,
    g: GrantView,
    argv: Seq<Seq<char>>,
    cwd: Seq<char>,
    other: Seq<Seq<char>>,
    place: Seq<char>,
    now: i64,
)
    requires
        sole(d, g, argv, cwd),
        other != argv || place != cwd,
        now < g.expires_at,
    ensures
        sole(record::spent(record::expired(d, now), other, place, now), g, argv, cwd),
{
    let e = record::expired(d, now);
    count_of_filter(d.grants, now, argv, cwd);
    kept_in_filter(d.grants, now, g);
    let m = choose|m: int| 0 <= m < e.grants.len() && e.grants[m] == g;
    count_has(e.grants, m, argv, cwd);
    record::grant_index(e.grants, other, place, now);
    if record::first_grant(e.grants, other, place, now) is Some {
        let i = record::first_grant(e.grants, other, place, now)->0;
        let gone = GrantView { uses_left: 0, ..e.grants[i] };
        count_of_update(e.grants, i, gone, argv, cwd);
        assert(e.grants.update(i, gone)[m] == g);
    }
}

// ---------- suggestions ----------

proof fn trimmed_is_prefix(s: Seq<char>)
    ensures
        record::trim_path(s).len() <= s.len(),
        record::trim_path(s) == s.take(record::trim_path(s).len() as int),
        record::trim_path(s).len() < s.len() && record::trim_path(s).len() > 1
            ==> s[record::trim_path(s).len() as int] == '/',
        record::trim_path(s).len() == 1 && s.len() > 1 ==> s[1] == '/' || s[0] == '/',
    decreases s.len(),
{
    if s.len() > 1 && (s.last() == '/' || (s.last() == '.' && s[s.len() - 2] == '/')) {
        let t = s.drop_last();
        trimmed_is_prefix(t);
        let p = record::trim_path(t);
        assert(s.take(p.len() as int) =~= t.take(p.len() as int));
        if t.len() > 1 && t.last() == '/' {
            trimmed_is_prefix(t.drop_last());
        }
        assert(t.last() == s[s.len() - 2]);
        if 1 < p.len() < t.len() {
            assert(t[p.len() as int] == s[p.len() as int]);
        }
    } else {
        assert(s.take(s.len() as int) =~= s);
    }
}

proof fn upto_is_prefix(s: Seq<char>)
    ensures
        record::upto_slash(s).len() <= s.len(),
        record::upto_slash(s) == s.take(record::upto_slash(s).len() as int),
        record::upto_slash(s).len() > 0 ==> record::upto_slash(s).last() == '/',
    decreases s.len(),
{
    if s.len() > 0 && s.last() != '/' {
        upto_is_prefix(s.drop_last());
        let u = record::upto_slash(s.drop_last());
        assert(s.take(u.len() as int) =~= s.drop_last().take(u.len() as int));
    } else {
        assert(s.take(s.len() as int) =~= s);
    }
}

/// What stands before the last part of a path, with a slash, is how the
/// path begins.
proof fn parent_begins(s: Seq<char>)
    requires
        record::parent(s).len() > 0,
        record::parent(s) != "/"@,
    ensures
        text::begins(s, record::parent(s) + seq!['/']),
        record::parent(s).len() < s.len(),
{
    reveal_strlit("/");
    let t = record::trim_path(s);
    let u = record::upto_slash(t);
    let p = record::parent(s);
    trimmed_is_prefix(s);
    upto_is_prefix(t);
    trimmed_is_prefix(u);
    if p.len() == 1 {
        assert(p =~= u.take(1));
        if p[0] == '/' {
            assert(p =~= "/"@);
        }
    }
    assert(u.last() == '/');
    if u.len() > 1 {
        trimmed_is_prefix(u.drop_last());
    } else {
        assert(p =~= "/"@);
    }
    assert(p.len() < u.len());
    assert(u[p.len() as int] == '/');
    assert(u[p.len() as int] == s[p.len() as int]);
    assert forall|k: int| 0 <= k < p.len() implies p[k] == s[k] by {
        assert(p[k] == u[k]);
        assert(u[k] == t[k]);
        assert(t[k] == s[k]);
    }
    let q = p + seq!['/'];
    assert(s.take(q.len() as int) =~= q);
}

proof fn no_stars(p: Seq<char>)
    requires
        !p.contains('*'),
    ensures
        record::stars(p) == 0,
    decreases p.len(),
{
    if p.len() > 0 {
        assert(p[p.len() - 1] == p.last());
        assert forall|k: int| 0 <= k < p.drop_last().len() implies p.drop_last()[k] != '*' by {
            assert(p.drop_last()[k] == p[k]);
        }
        no_stars(p.drop_last());
    }
}

/// A pattern that the board offers for a plain command is a valid one, ends
/// in `/*`, and covers the argument that it came from; so the prefix rule
/// that is made of it is accepted for every request of that command.
pub proof fn a_suggestion_is_accepted(q: RequestView, id: Seq<char>, now: i64)
    requires
        master_perm::form_fault(q.argv) is None,
        record::suggestion(q.argv) is Some,
    ensures
        ({
            let p = record::suggestion(q.argv)->0;
            &&& text::ends(p, "/*"@)
            &&& record::pattern_fault(p) is None
            &&& text::begins(q.argv.last(), p.drop_last())
            &&& record::covers(p, q.argv.last())
            &&& record::drafted(q, Scope::Prefix, seq![p], id, now) is Ok
        }),
{
    reveal_strlit("/*");
    let last = q.argv.last();
    let dir = record::parent(last);
    let p = record::suggestion(q.argv)->0;
    let stem = dir + seq!['/'];
    parent_begins(last);
    assert(p =~= stem + seq!['*']);
    assert(p.drop_last() =~= stem);
    assert(p.skip(p.len() - 2) =~= "/*"@);
    assert(master_perm::plain_arg(q.argv[q.argv.len() - 1]));
    assert(stem =~= last.take(stem.len() as int));
    assert forall|k: int| 0 <= k < stem.len() implies master_perm::arg_char(#[trigger] stem[k]) by {
        assert(stem[k] == last[k]);
    }
    assert(!stem.contains('*')) by {
        if stem.contains('*') {
            let k = choose|k: int| 0 <= k < stem.len() && stem[k] == '*';
            assert(master_perm::arg_char(stem[k]));
        }
    }
    no_stars(stem);
    assert(record::stars(p) == record::stars(p.drop_last()) + 1);
    assert(master_perm::plain_arg(stem));
    let tail = seq![p];
    let head = q.argv.take(q.argv.len() - 1);
    assert(!record::any_star(head)) by {
        if record::any_star(head) {
            let i = choose|i: int| 0 <= i < head.len() && (#[trigger] head[i]).contains('*');
            assert(master_perm::plain_arg(q.argv[i]));
            let k = choose|k: int| 0 <= k < head[i].len() && head[i][k] == '*';
            assert(master_perm::arg_char(q.argv[i][k]));
        }
    }
    assert(tail.drop_first() =~= Seq::empty());
    assert(record::first_fault(tail.drop_first()) is None);
    assert(record::first_fault(tail) is None);
}

} // verus!
