//! How requests, grants and rules decide what runs, told by what they hold.
use crate::master_perm;
use crate::master_perm::record;
use crate::master_perm::record::{
    DocView, Effect, GrantView, RequestView, RuleView, Scope, UseView,
};
use crate::master_perm::{ClassView, Risk};
use crate::text;
use vstd::prelude::*;

verus! {

/// The argument is the pattern, or begins as the pattern does in front of
/// its last star.
pub open spec fn fits_pattern(pat: Seq<char>, arg: Seq<char>) -> bool {
    if pat.len() > 0 && pat[pat.len() - 1] == '*' {
        arg.len() + 1 >= pat.len() && forall|k: int|
            0 <= k < pat.len() - 1 ==> #[trigger] arg[k] == pat[k]
    } else {
        arg == pat
    }
}

/// The command is the rule's words in the rule's directory, the last of
/// them by their patterns where the rule has some.
pub open spec fn fits(r: RuleView, argv: Seq<Seq<char>>, cwd: Seq<char>) -> bool {
    let n = r.argv.len() as int;
    &&& cwd == r.cwd
    &&& forall|i: int| 0 <= i < n ==> #[trigger] argv[i] == r.argv[i]
    &&& match r.scope {
        Scope::Exact => argv.len() == n,
        Scope::Prefix => r.tail.len() > 0 && argv.len() == n + r.tail.len() && forall|i: int|
            n <= i < argv.len() ==> fits_pattern(r.tail[i - n], #[trigger] argv[i]),
    }
}

/// A pattern covers the arguments that fit it.
pub proof fn a_pattern_covers_what_fits(pat: Seq<char>, arg: Seq<char>)
    ensures
        record::covers(pat, arg) == fits_pattern(pat, arg),
{
    if pat.len() > 0 && pat.last() == '*' {
        let p = pat.drop_last();
        if text::begins(arg, p) {
            assert forall|k: int| 0 <= k < pat.len() - 1 implies #[trigger] arg[k] == pat[k] by {
                assert(arg.take(p.len() as int)[k] == p[k]);
            }
        }
        if fits_pattern(pat, arg) {
            assert(arg.take(p.len() as int) =~= p);
        }
    }
}

/// A rule covers the commands that fit it, and no others.
pub proof fn a_rule_covers_what_fits(r: RuleView, argv: Seq<Seq<char>>, cwd: Seq<char>)
    ensures
        record::rule_covers(r, argv, cwd) == fits(r, argv, cwd),
{
    let n = r.argv.len() as int;
    match r.scope {
        Scope::Exact => {
            if fits(r, argv, cwd) {
                assert(r.argv =~= argv);
            }
        },
        Scope::Prefix => {
            if record::rule_covers(r, argv, cwd) {
                assert forall|i: int| 0 <= i < n implies #[trigger] argv[i] == r.argv[i] by {
                    assert(argv.take(n)[i] == r.argv[i]);
                }
                assert forall|i: int| n <= i < argv.len() implies fits_pattern(
                    r.tail[i - n],
                    #[trigger] argv[i],
                ) by {
                    assert(record::covers(r.tail[i - n], argv[n + (i - n)]));
                    a_pattern_covers_what_fits(r.tail[i - n], argv[i]);
                }
            }
            if fits(r, argv, cwd) {
                assert(argv.take(n) =~= r.argv);
                assert forall|i: int| 0 <= i < r.tail.len() implies record::covers(
                    #[trigger] r.tail[i],
                    argv[n + i],
                ) by {
                    assert(fits_pattern(r.tail[(n + i) - n], argv[n + i]));
                    a_pattern_covers_what_fits(r.tail[i], argv[n + i]);
                }
            }
        },
    }
}

/// Some rule of that effect fits the command.
pub open spec fn ruled(
    rules: Seq<RuleView>,
    effect: Effect,
    argv: Seq<Seq<char>>,
    cwd: Seq<char>,
) -> bool {
    exists|i: int|
        0 <= i < rules.len() && (#[trigger] rules[i]).effect == effect && fits(rules[i], argv, cwd)
}

/// The grant is of that command and directory, unused and in time.
pub open spec fn grants(g: GrantView, argv: Seq<Seq<char>>, cwd: Seq<char>, now: i64) -> bool {
    g.argv == argv && g.cwd == cwd && g.uses_left >= 1 && now < g.expires_at
}

pub open spec fn granted(
    d: DocView,
    argv: Seq<Seq<char>>,
    cwd: Seq<char>,
    now: i64,
) -> bool {
    exists|i: int| 0 <= i < d.grants.len() && grants(#[trigger] d.grants[i], argv, cwd, now)
}

proof fn rule_index(v: Seq<RuleView>, effect: Effect, argv: Seq<Seq<char>>, cwd: Seq<char>)
    ensures
        match record::first_rule(v, effect, argv, cwd) {
            Some(i) => 0 <= i < v.len() && v[i].effect == effect && fits(v[i], argv, cwd)
                && forall|j: int|
                0 <= j < i ==> !((#[trigger] v[j]).effect == effect && fits(v[j], argv, cwd)),
            None => !ruled(v, effect, argv, cwd),
        },
    decreases v.len(),
{
    if v.len() > 0 {
        a_rule_covers_what_fits(v[0], argv, cwd);
        let w = v.drop_first();
        rule_index(w, effect, argv, cwd);
        assert forall|i: int| 0 < i < v.len() implies #[trigger] v[i] == w[i - 1] by {}
        if !(v[0].effect == effect && fits(v[0], argv, cwd)) {
            if record::first_rule(w, effect, argv, cwd) is None && ruled(v, effect, argv, cwd) {
                let i = choose|i: int|
                    0 <= i < v.len() && (#[trigger] v[i]).effect == effect && fits(
                        v[i],
                        argv,
                        cwd,
                    );
                assert(w[i - 1].effect == effect && fits(w[i - 1], argv, cwd));
                assert(false);
            }
        }
    }
}

proof fn grant_spot(v: Seq<GrantView>, argv: Seq<Seq<char>>, cwd: Seq<char>, now: i64)
    ensures
        match record::first_grant(v, argv, cwd, now) {
            Some(i) => 0 <= i < v.len() && grants(v[i], argv, cwd, now) && forall|j: int|
                0 <= j < i ==> !grants(#[trigger] v[j], argv, cwd, now),
            None => forall|i: int|
                0 <= i < v.len() ==> !grants(#[trigger] v[i], argv, cwd, now),
        },
    decreases v.len(),
{
    if v.len() > 0 {
        let w = v.drop_first();
        grant_spot(w, argv, cwd, now);
        assert forall|i: int| 0 < i < v.len() implies #[trigger] v[i] == w[i - 1] by {}
    }
}

/// What no grant can cover is refused; a deny rule refuses what fits it; an
/// unused grant of the very command lets it run, and failing that an allow
/// rule that fits it; and nothing else does.
pub proof fn what_lets_a_command_run(
    d: DocView,
    rules: Seq<RuleView>,
    argv: Seq<Seq<char>>,
    cwd: Seq<char>,
    class: ClassView,
    now: i64,
)
    ensures
        ({
            let u = record::usable(d, rules, argv, cwd, class, now);
            &&& class is Never || ruled(rules, Effect::Deny, argv, cwd) <==> u is Err
            &&& u is Ok && granted(d, argv, cwd, now) ==> exists|i: int|
                {
                    &&& 0 <= i < d.grants.len()
                    &&& grants(#[trigger] d.grants[i], argv, cwd, now)
                    &&& u->Ok_0 == Some(UseView::Grant(d.grants[i].request_id))
                }
            &&& u is Ok && !granted(d, argv, cwd, now) && ruled(rules, Effect::Allow, argv, cwd)
                ==> exists|i: int|
                {
                    &&& 0 <= i < rules.len()
                    &&& (#[trigger] rules[i]).effect is Allow
                    &&& fits(rules[i], argv, cwd)
                    &&& u->Ok_0 == Some(UseView::Rule(rules[i].id))
                }
            &&& u is Ok && !granted(d, argv, cwd, now) && !ruled(rules, Effect::Allow, argv, cwd)
                ==> u->Ok_0 is None
        }),
{
    rule_index(rules, Effect::Deny, argv, cwd);
    rule_index(rules, Effect::Allow, argv, cwd);
    grant_spot(d.grants, argv, cwd, now);
}

/// Running on a grant uses it up and touches nothing else; a run without one
/// leaves the record as it was.
pub proof fn a_run_spends_one_grant(
    d: DocView,
    argv: Seq<Seq<char>>,
    cwd: Seq<char>,
    now: i64,
    j: int,
)
    requires
        0 <= j < d.grants.len(),
    ensures
        ({
            let n = record::spent(d, argv, cwd, now);
            &&& n.requests == d.requests
            &&& n.grants.len() == d.grants.len()
            &&& n.grants[j].id == d.grants[j].id && n.grants[j].request_id
                == d.grants[j].request_id && n.grants[j].argv == d.grants[j].argv
                && n.grants[j].cwd == d.grants[j].cwd && n.grants[j].expires_at
                == d.grants[j].expires_at
            &&& n.grants[j].uses_left == d.grants[j].uses_left || (n.grants[j].uses_left == 0
                && grants(d.grants[j], argv, cwd, now))
            &&& grants(d.grants[j], argv, cwd, now) && (forall|k: int|
                0 <= k < j ==> !grants(#[trigger] d.grants[k], argv, cwd, now))
                ==> n.grants[j].uses_left == 0
            &&& (exists|k: int| 0 <= k < j && grants(#[trigger] d.grants[k], argv, cwd, now))
                ==> n.grants[j].uses_left == d.grants[j].uses_left
        }),
{
    grant_spot(d.grants, argv, cwd, now);
}

/// What is open at its last moment has run out; everything else stays, and
/// of the grants those that are unused and in time.
pub proof fn what_runs_out(d: DocView, now: i64, i: int)
    requires
        0 <= i < d.requests.len(),
    ensures
        ({
            let e = record::expired(d, now);
            let q = d.requests[i];
            &&& e.requests.len() == d.requests.len()
            &&& q.status == "pending"@ && q.expires_at <= now ==> e.requests[i] == (RequestView {
                status: "expired"@,
                ..q
            })
            &&& q.status != "pending"@ || q.expires_at > now ==> e.requests[i] == q
        }),
        forall|g: GrantView| #[trigger]
            record::expired(d, now).grants.contains(g) <==> d.grants.contains(g) && now
                < g.expires_at && g.uses_left >= 1,
{
    let p = record::live(now);
    assert forall|g: GrantView| #[trigger]
        record::expired(d, now).grants.contains(g) == (d.grants.contains(g) && now < g.expires_at
            && g.uses_left >= 1) by {
        if d.grants.filter(p).contains(g) {
            d.grants.lemma_filter_contains_rev(p, g);
            let k = choose|k: int|
                0 <= k < d.grants.filter(p).len() && #[trigger] d.grants.filter(p)[k] == g;
            d.grants.lemma_filter_pred(p, k);
        }
        if d.grants.contains(g) && p(g) {
            let k = choose|k: int| 0 <= k < d.grants.len() && #[trigger] d.grants[k] == g;
            d.grants.lemma_filter_contains(p, k);
        }
    }
}

/// A request lives fifteen minutes, open, as it was asked.
pub proof fn a_request_says_what_was_asked(
    d: DocView,
    id: Seq<char>,
    argv: Seq<Seq<char>>,
    cwd: Seq<char>,
    reason: Seq<char>,
    by: Seq<char>,
    risk: Risk,
    now: i64,
)
    requires
        now + 900 <= i64::MAX,
        forall|i: int|
            0 <= i < d.requests.len() ==> !((#[trigger] d.requests[i]).argv == argv
                && d.requests[i].cwd == cwd && d.requests[i].status == "pending"@
                && d.requests[i].expires_at > now),
    ensures
        ({
            let (n, q) = record::asked(d, id, argv, cwd, reason, by, risk, now);
            &&& q.id == id && q.argv == argv && q.cwd == cwd && q.requested_by == by && q.risk
                == risk
            &&& q.reason == text::trim(reason)
            &&& q.created == now && q.expires_at == now + 900
            &&& q.status == "pending"@
            &&& q.decision.len() == 0 && q.decision_label.len() == 0
            &&& n.requests.len() == d.requests.len() + 1 && n.requests[d.requests.len() as int] == q
            &&& forall|i: int|
                0 <= i < d.requests.len() ==> (#[trigger] n.requests[i]).id == d.requests[i].id
                    && n.requests[i].argv == d.requests[i].argv
        }),
{
    reveal_strlit("pending");
    reveal_strlit("expired");
    assert("pending"@[0] != "expired"@[0]);
    let e = record::expired(d, now);
    assert forall|i: int| 0 <= i < e.requests.len() implies !record::same_ask(
        #[trigger] e.requests[i],
        argv,
        cwd,
    ) by {
        assert(e.requests[i] == record::aged(d.requests[i], now));
    }
    no_ask(e.requests, argv, cwd);
}

proof fn no_ask(v: Seq<RequestView>, argv: Seq<Seq<char>>, cwd: Seq<char>)
    requires
        forall|i: int| 0 <= i < v.len() ==> !record::same_ask(#[trigger] v[i], argv, cwd),
    ensures
        record::first_ask(v, argv, cwd) is None,
    decreases v.len(),
{
    if v.len() > 0 {
        assert forall|i: int| 0 <= i < v.len() - 1 implies !record::same_ask(
            #[trigger] v.drop_last()[i],
            argv,
            cwd,
        ) by {
            assert(v.drop_last()[i] == v[i]);
        }
        no_ask(v.drop_last(), argv, cwd);
        assert(v.last() == v[v.len() - 1]);
    }
}

proof fn ask_index(v: Seq<RequestView>, argv: Seq<Seq<char>>, cwd: Seq<char>)
    ensures
        match record::first_ask(v, argv, cwd) {
            Some(i) => 0 <= i < v.len() && record::same_ask(v[i], argv, cwd),
            None => forall|i: int|
                0 <= i < v.len() ==> !record::same_ask(#[trigger] v[i], argv, cwd),
        },
    decreases v.len(),
{
    if v.len() > 0 {
        let w = v.drop_last();
        ask_index(w, argv, cwd);
        assert forall|i: int| 0 <= i < v.len() - 1 implies #[trigger] v[i] == w[i] by {}
    }
}

/// What is asked while the same command waits in the same directory adds no
/// request, and is answered by one that waits.
pub proof fn a_waiting_request_answers(
    d: DocView,
    i: int,
    id: Seq<char>,
    reason: Seq<char>,
    by: Seq<char>,
    risk: Risk,
    now: i64,
)
    requires
        0 <= i < d.requests.len(),
        d.requests[i].status == "pending"@,
        d.requests[i].expires_at > now,
    ensures
        ({
            let (argv, cwd) = (d.requests[i].argv, d.requests[i].cwd);
            let (n, q) = record::asked(d, id, argv, cwd, reason, by, risk, now);
            &&& n.requests.len() == d.requests.len()
            &&& d.requests.contains(q)
            &&& q.argv == argv && q.cwd == cwd && q.status == "pending"@ && q.expires_at > now
        }),
{
    reveal_strlit("pending");
    reveal_strlit("expired");
    assert("pending"@[0] != "expired"@[0]);
    let (argv, cwd) = (d.requests[i].argv, d.requests[i].cwd);
    let e = record::expired(d, now);
    ask_index(e.requests, argv, cwd);
    assert(e.requests[i] == record::aged(d.requests[i], now));
    assert(record::same_ask(e.requests[i], argv, cwd));
    let j = record::first_ask(e.requests, argv, cwd)->0;
    assert(e.requests[j] == record::aged(d.requests[j], now));
    assert(d.requests[j] == e.requests[j]);
}

/// The master asks with a reason of one to 500 bytes, in a directory that is
/// there, for a command that may be asked for; nothing else becomes a
/// request.
pub proof fn what_becomes_a_request(
    reason: Seq<char>,
    by: Seq<char>,
    cwd: Seq<char>,
    class: Option<ClassView>,
)
    ensures
        record::ask_fault(reason, by, cwd, class) is None <==> text::trim(reason).len() >= 1
            && vstd::utf8::encode_utf8(text::trim(reason)).len() <= 500 && by == "master"@ && class
            is Some && class->0 is Requestable,
{
}

// ---------- decisions ----------

/// The request that an id names: the first of that id.
pub open spec fn named(d: DocView, id: Seq<char>, i: int) -> bool {
    &&& 0 <= i < d.requests.len()
    &&& d.requests[i].id == id
    &&& forall|j: int| 0 <= j < i ==> (#[trigger] d.requests[j]).id != id
}

/// Open, and its time not over.
pub open spec fn waits(q: RequestView, now: i64) -> bool {
    q.status == "pending"@ && now < q.expires_at
}

proof fn named_is_found(v: Seq<RequestView>, id: Seq<char>, i: int)
    requires
        0 <= i < v.len(),
        v[i].id == id,
        forall|j: int| 0 <= j < i ==> (#[trigger] v[j]).id != id,
    ensures
        record::request_at(v, id) == Some(i),
    decreases v.len(),
{
    let w = v.drop_last();
    if i < v.len() - 1 {
        named_is_found(w, id, i);
    } else {
        assert forall|j: int| 0 <= j < w.len() implies (#[trigger] w[j]).id != id by {
            assert(w[j] == v[j]);
        }
        none_is_found(w, id);
    }
}

proof fn none_is_found(v: Seq<RequestView>, id: Seq<char>)
    requires
        forall|j: int| 0 <= j < v.len() ==> (#[trigger] v[j]).id != id,
    ensures
        record::request_at(v, id) is None,
    decreases v.len(),
{
    if v.len() > 0 {
        let w = v.drop_last();
        assert forall|j: int| 0 <= j < w.len() implies (#[trigger] w[j]).id != id by {
            assert(w[j] == v[j]);
        }
        none_is_found(w, id);
        assert(v.last() == v[v.len() - 1]);
    }
}

proof fn named_may_be_decided(d: DocView, id: Seq<char>, i: int, now: i64)
    requires
        named(d, id, i),
    ensures
        record::decidable(record::expired(d, now), id) is Ok <==> waits(d.requests[i], now),
        waits(d.requests[i], now) ==> record::decidable(record::expired(d, now), id) == Ok::<
            int,
            Seq<char>,
        >(i) && record::expired(d, now).requests[i] == d.requests[i],
{
    reveal_strlit("pending");
    reveal_strlit("expired");
    assert("pending"@[0] != "expired"@[0]);
    let e = record::expired(d, now);
    assert forall|j: int| 0 <= j < d.requests.len() implies (#[trigger] e.requests[j]).id
        == d.requests[j].id by {
        assert(e.requests[j] == record::aged(d.requests[j], now));
    }
    named_is_found(e.requests, id, i);
    assert(e.requests[i] == record::aged(d.requests[i], now));
}

/// An id that no request has decides nothing.
pub proof fn an_unknown_request_is_not_decided(
    d: DocView,
    id: Seq<char>,
    grant: Seq<char>,
    scope: Scope,
    tail: Seq<Seq<char>>,
    dont_ask_again: bool,
    now: i64,
)
    requires
        forall|j: int| 0 <= j < d.requests.len() ==> (#[trigger] d.requests[j]).id != id,
    ensures
        record::allowed_once(d, id, grant, now) == Err::<(DocView, RequestView), Seq<char>>(
            "no permission request '"@ + id + "'"@,
        ),
        record::always(d, id, scope, tail, grant, now) is Err,
        record::refused(d, id, dont_ask_again, grant, now) is Err,
        record::reopened(d, id, now) == record::expired(d, now),
{
    let e = record::expired(d, now);
    assert forall|j: int| 0 <= j < e.requests.len() implies (#[trigger] e.requests[j]).id
        != id by {
        assert(e.requests[j] == record::aged(d.requests[j], now));
        assert(d.requests[j].id != id);
    }
    none_is_found(e.requests, id);
}

/// Exactly a waiting request is allowed once. It is then marked so, and a
/// grant of its command and directory, for one use in the next fifteen
/// minutes, joins those that live on.
pub proof fn a_waiting_request_is_allowed_once(
    d: DocView,
    id: Seq<char>,
    i: int,
    grant: Seq<char>,
    now: i64,
)
    requires
        named(d, id, i),
        now + 900 <= i64::MAX,
    ensures
        record::allowed_once(d, id, grant, now) is Ok <==> waits(d.requests[i], now),
        record::allowed_once(d, id, grant, now) matches Ok(p) ==> {
            let (n, q) = p;
            let e = record::expired(d, now);
            let g = n.grants[e.grants.len() as int];
            &&& q.status == "allowed"@ && q.decision == "allow_once"@
            &&& q == (RequestView {
                status: q.status,
                decision: q.decision,
                decision_label: q.decision_label,
                ..d.requests[i]
            })
            &&& n.requests == e.requests.update(i, q)
            &&& n.grants.len() == e.grants.len() + 1
            &&& forall|k: int| 0 <= k < e.grants.len() ==> #[trigger] n.grants[k] == e.grants[k]
            &&& g.id == grant && g.request_id == id && g.argv == d.requests[i].argv && g.cwd
                == d.requests[i].cwd
            &&& g.uses_left == 1 && g.expires_at == now + 900
        },
{
    named_may_be_decided(d, id, i, now);
}

/// The patterns a rule may hold: words without a star, or with one at the
/// end alone.
pub open spec fn storable(pat: Seq<char>) -> bool {
    if pat.contains('*') {
        pat[pat.len() - 1] == '*' && !pat.drop_last().contains('*') && (pat.len() == 1
            || master_perm::plain_arg(pat.drop_last()))
    } else {
        master_perm::plain_arg(pat)
    }
}

proof fn no_stars(p: Seq<char>)
    ensures
        record::stars(p) == 0 <==> !p.contains('*'),
    decreases p.len(),
{
    if p.len() > 0 {
        let w = p.drop_last();
        no_stars(w);
        if p.contains('*') {
            let k = choose|k: int| 0 <= k < p.len() && p[k] == '*';
            if k < p.len() - 1 {
                assert(w[k] == '*');
                assert(w.contains('*'));
            }
        }
        if w.contains('*') {
            let k = choose|k: int| 0 <= k < w.len() && w[k] == '*';
            assert(p[k] == '*');
        }
        if p.last() == '*' {
            assert(p[p.len() - 1] == '*');
        }
    }
}

/// A pattern is refused exactly where it cannot be stored.
pub proof fn a_pattern_is_storable(p: Seq<char>)
    ensures
        record::pattern_fault(p) is None <==> storable(p),
{
    no_stars(p);
    if p.len() > 0 {
        no_stars(p.drop_last());
    }
}

proof fn faults_of_patterns(v: Seq<Seq<char>>)
    ensures
        record::first_fault(v) is None <==> forall|i: int|
            0 <= i < v.len() ==> storable(#[trigger] v[i]),
    decreases v.len(),
{
    if v.len() > 0 {
        let w = v.drop_first();
        a_pattern_is_storable(v[0]);
        faults_of_patterns(w);
        assert forall|i: int| 0 < i < v.len() implies #[trigger] v[i] == w[i - 1] by {}
        if forall|i: int| 0 <= i < w.len() ==> storable(#[trigger] w[i]) {
            if storable(v[0]) {
                assert forall|i: int| 0 <= i < v.len() implies storable(#[trigger] v[i]) by {
                    if i > 0 {
                        assert(storable(w[i - 1]));
                    }
                }
            }
        } else {
            let i = choose|i: int| 0 <= i < w.len() && !storable(#[trigger] w[i]);
            assert(v[i + 1] == w[i]);
        }
    }
}

/// No word of it has a star.
pub open spec fn starless(v: Seq<Seq<char>>, n: int) -> bool {
    forall|i: int| 0 <= i < n ==> !(#[trigger] v[i]).contains('*')
}

/// An exact rule for a request is drafted where its command has a verb and no
/// star; it fits that command in that directory and nothing else.
pub proof fn an_exact_rule_is_the_command(
    q: RequestView,
    tail: Seq<Seq<char>>,
    id: Seq<char>,
    now: i64,
)
    ensures
        record::drafted(q, Scope::Exact, tail, id, now) is Ok <==> q.argv.len() >= 2 && starless(
            q.argv,
            q.argv.len() as int,
        ),
        record::drafted(q, Scope::Exact, tail, id, now) matches Ok(r) ==> {
            &&& r.id == id && r.effect is Allow && r.scope is Exact && r.by == "operator"@ && r.at
                == now
            &&& r.argv == q.argv && r.cwd == q.cwd && r.tail.len() == 0
        },
{
    assert(q.argv.take(q.argv.len() as int) =~= q.argv);
}

/// A prefix rule is drafted where the request's own last arguments fit
/// patterns that can be stored, at least one, behind at least a verb
/// without a star.
pub proof fn a_prefix_rule_narrows_the_command(
    q: RequestView,
    tail: Seq<Seq<char>>,
    id: Seq<char>,
    now: i64,
)
    ensures
        ({
            let n = q.argv.len() - tail.len();
            record::drafted(q, Scope::Prefix, tail, id, now) is Ok <==> {
                &&& tail.len() >= 1 && n >= 2
                &&& starless(q.argv, n)
                &&& forall|i: int| 0 <= i < tail.len() ==> storable(#[trigger] tail[i])
                &&& forall|i: int|
                    n <= i < q.argv.len() ==> fits_pattern(tail[i - n], #[trigger] q.argv[i])
            }
        }),
        record::drafted(q, Scope::Prefix, tail, id, now) matches Ok(r) ==> {
            &&& r.id == id && r.effect is Allow && r.scope is Prefix && r.by == "operator"@ && r.at
                == now
            &&& r.argv == q.argv.take(q.argv.len() - tail.len()) && r.cwd == q.cwd && r.tail == tail
        },
{
    let n = q.argv.len() - tail.len();
    faults_of_patterns(tail);
    if n >= 0 {
        let head = q.argv.take(n);
        assert forall|i: int| 0 <= i < n implies #[trigger] head[i] == q.argv[i] by {}
        if !record::any_star(head) {
            assert forall|i: int| 0 <= i < n implies !(#[trigger] q.argv[i]).contains('*') by {
                assert(head[i] == q.argv[i]);
            }
        }
        let rule = RuleView {
            id,
            effect: Effect::Allow,
            scope: Scope::Prefix,
            argv: head,
            tail,
            cwd: q.cwd,
            by: "operator"@,
            at: now,
        };
        a_rule_covers_what_fits(rule, q.argv, q.cwd);
    }
}

/// Saving a rule marks the waiting request it came from and touches no
/// grant.
pub proof fn a_saved_rule_settles_its_request(
    d: DocView,
    id: Seq<char>,
    i: int,
    scope: Scope,
    tail: Seq<Seq<char>>,
    rule: Seq<char>,
    now: i64,
)
    requires
        named(d, id, i),
    ensures
        record::always(d, id, scope, tail, rule, now) is Ok <==> waits(d.requests[i], now)
            && record::drafted(d.requests[i], scope, tail, rule, now) is Ok,
        record::always(d, id, scope, tail, rule, now) matches Ok(p) ==> {
            let (n, q, r) = p;
            let e = record::expired(d, now);
            &&& record::drafted(d.requests[i], scope, tail, rule, now) == Ok::<
                RuleView,
                Seq<char>,
            >(r)
            &&& q.status == "allowed"@ && q.decision == "always"@
            &&& q == (RequestView {
                status: q.status,
                decision: q.decision,
                decision_label: q.decision_label,
                ..d.requests[i]
            })
            &&& n.requests == e.requests.update(i, q) && n.grants == e.grants
        },
{
    named_may_be_decided(d, id, i, now);
}

/// Exactly a waiting request is rejected. It is then marked so; where it is
/// not to be asked again, a deny rule of the very command comes with it.
pub proof fn a_rejection_may_forbid(
    d: DocView,
    id: Seq<char>,
    i: int,
    dont_ask_again: bool,
    rule: Seq<char>,
    now: i64,
)
    requires
        named(d, id, i),
    ensures
        record::refused(d, id, dont_ask_again, rule, now) is Ok <==> waits(d.requests[i], now),
        record::refused(d, id, dont_ask_again, rule, now) matches Ok(p) ==> {
            let (n, q, r) = p;
            let e = record::expired(d, now);
            &&& q.status == "rejected"@ && q.decision == "reject"@
            &&& q == (RequestView {
                status: q.status,
                decision: q.decision,
                decision_label: q.decision_label,
                ..d.requests[i]
            })
            &&& n.requests == e.requests.update(i, q) && n.grants == e.grants
            &&& r is Some <==> dont_ask_again
            &&& r matches Some(r) ==> {
                &&& r.id == rule && r.effect is Deny && r.by == "operator"@ && r.at == now
                &&& forall|argv: Seq<Seq<char>>, cwd: Seq<char>| #[trigger]
                    fits(r, argv, cwd) <==> argv == d.requests[i].argv && cwd
                        == d.requests[i].cwd
            }
        },
{
    named_may_be_decided(d, id, i, now);
    if let Ok(p) = record::refused(d, id, dont_ask_again, rule, now) {
        if let Some(r) = p.2 {
            assert forall|argv: Seq<Seq<char>>, cwd: Seq<char>| #[trigger]
                fits(r, argv, cwd) == (argv == d.requests[i].argv && cwd == d.requests[i].cwd) by {
                if fits(r, argv, cwd) {
                    assert(argv =~= r.argv);
                }
            }
        }
    }
}

/// Reopening an allowed or rejected request makes it wait again, as it was
/// before; it touches no grant and no other request.
pub proof fn reopening_undoes_the_mark(d: DocView, id: Seq<char>, i: int, now: i64)
    requires
        named(d, id, i),
        d.requests[i].status != "pending"@,
    ensures
        ({
            let e = record::expired(d, now);
            let n = record::reopened(d, id, now);
            let q = d.requests[i];
            &&& n.grants == e.grants && n.requests.len() == e.requests.len()
            &&& forall|j: int|
                0 <= j < e.requests.len() && j != i ==> #[trigger] n.requests[j] == e.requests[j]
            &&& q.status == "allowed"@ || q.status == "rejected"@ ==> n.requests[i] == (
            RequestView { status: "pending"@, decision: ""@, decision_label: ""@, ..q })
            &&& q.status != "allowed"@ && q.status != "rejected"@ ==> n.requests[i] == q
        }),
{
    let e = record::expired(d, now);
    assert forall|j: int| 0 <= j < d.requests.len() implies (#[trigger] e.requests[j]).id
        == d.requests[j].id by {
        assert(e.requests[j] == record::aged(d.requests[j], now));
    }
    named_is_found(e.requests, id, i);
    assert(e.requests[i] == record::aged(d.requests[i], now));
}

/// The list of what waits holds the waiting requests; the board also those
/// that were decided, until their time is over.
pub proof fn what_the_board_lists(d: DocView, now: i64, q: RequestView)
    ensures
        record::expired(d, now).requests.filter(record::is_pending()).contains(q)
            <==> d.requests.contains(q) && waits(q, now),
        record::expired(d, now).requests.filter(record::on_board(now)).contains(q)
            <==> d.requests.contains(q) && now < q.expires_at && (q.status == "pending"@ || q.status
            == "allowed"@ || q.status == "rejected"@),
{
    reveal_strlit("pending");
    reveal_strlit("expired");
    reveal_strlit("allowed");
    reveal_strlit("rejected");
    assert("pending"@[0] != "expired"@[0]);
    assert("allowed"@[0] != "expired"@[0]);
    assert("rejected"@[0] != "expired"@[0]);
    let v = record::expired(d, now).requests;
    assert forall|j: int| 0 <= j < v.len() implies #[trigger] v[j] == record::aged(
        d.requests[j],
        now,
    ) by {}
    in_filter(v, record::is_pending(), q);
    in_filter(v, record::on_board(now), q);
    if v.contains(q) && q.status != "expired"@ {
        let j = choose|j: int| 0 <= j < v.len() && v[j] == q;
        assert(d.requests[j] == q);
    }
    if d.requests.contains(q) && now < q.expires_at {
        let j = choose|j: int| 0 <= j < d.requests.len() && d.requests[j] == q;
        assert(v[j] == q);
    }
}

proof fn in_filter(v: Seq<RequestView>, p: spec_fn(RequestView) -> bool, q: RequestView)
    ensures
        v.filter(p).contains(q) <==> v.contains(q) && p(q),
{
    if v.filter(p).contains(q) {
        v.lemma_filter_contains_rev(p, q);
        let k = choose|k: int| 0 <= k < v.filter(p).len() && #[trigger] v.filter(p)[k] == q;
        v.lemma_filter_pred(p, k);
    }
    if v.contains(q) && p(q) {
        let k = choose|k: int| 0 <= k < v.len() && #[trigger] v[k] == q;
        v.lemma_filter_contains(p, k);
    }
}

/// Where the last argument is a file in some directory, the pattern to offer
/// is anything in that directory.
pub proof fn a_directory_is_suggested(argv: Seq<Seq<char>>, dir: Seq<char>, name: Seq<char>)
    requires
        argv.len() >= 3,
        argv[argv.len() - 1] == dir + "/"@ + name,
        name.len() > 0,
        !name.contains('/'),
        name != "."@,
        !name.contains('*'),
        dir.len() > 0,
        dir[0] != '-',
        !dir.contains('*'),
        dir[dir.len() - 1] != '/',
        !(dir[dir.len() - 1] == '.' && (dir.len() == 1 || dir[dir.len() - 2] == '/')),
    ensures
        record::suggestion(argv) == Some(dir + "/*"@),
{
    reveal_strlit("/");
    reveal_strlit(".");
    let last = argv.last();
    let d = dir.len() as int;
    assert(last.len() == d + 1 + name.len());
    assert(last[d] == '/');
    assert(forall|k: int| 0 <= k < d ==> last[k] == dir[k]);
    assert(forall|k: int| 0 <= k < name.len() ==> last[d + 1 + k] == #[trigger] name[k]);
    let e = last.len() - 1;
    assert(last[e] == name[name.len() - 1]);
    assert(name[name.len() - 1] != '/');
    if last[e] == '.' && last[e - 1] == '/' {
        if name.len() > 1 {
            assert(last[e - 1] == name[name.len() - 2]);
            assert(name.contains('/'));
        } else {
            assert(name =~= "."@);
        }
        assert(false);
    }
    assert(record::trim_path(last) == last);
    upto_slash_cuts(last, dir + "/"@, name);
    assert(record::upto_slash(last) == dir + "/"@);
    let u = dir + "/"@;
    assert(u.drop_last() =~= dir);
    assert(u.len() > 1 && u.last() == '/');
    assert(record::trim_path(u) == record::trim_path(dir));
    assert(record::trim_path(dir) == dir);
    assert(last.contains('/'));
    if last.contains('*') {
        let k = choose|k: int| 0 <= k < last.len() && last[k] == '*';
        if k < d {
            assert(dir[k] == '*');
        } else if k > d {
            assert(name[k - d - 1] == '*');
        }
        assert(false);
    }
    assert(dir != "/"@);
}

proof fn upto_slash_cuts(s: Seq<char>, u: Seq<char>, name: Seq<char>)
    requires
        s == u + name,
        u.len() > 0,
        u.last() == '/',
        !name.contains('/'),
    ensures
        record::upto_slash(s) == u,
    decreases name.len(),
{
    if name.len() == 0 {
        assert(s =~= u);
    } else {
        assert(s.last() == name.last());
        assert(name[name.len() - 1] != '/');
        let m = name.drop_last();
        assert(s.drop_last() =~= u + m);
        assert forall|k: int| 0 <= k < m.len() implies m[k] != '/' by {
            assert(name[k] != '/');
        }
        assert(!m.contains('/'));
        upto_slash_cuts(s.drop_last(), u, m);
    }
}

} // verus!
