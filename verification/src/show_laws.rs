//! What is shown of a thing, told by the thing.
use crate::json;
use crate::json::{JsonView, MemberView};
use crate::master_perm::record::{RequestView, RuleView};
use crate::master_perm::show;
use crate::memory;
use crate::memory::body;
use crate::memory::card;
use crate::memory::quorum;
use crate::memory::reply;
use crate::memory::MemoryView;
use crate::overview;
use crate::overview::github::ShaCiView;
use crate::overview::monitoring::AlertView;
use crate::overview::needs::{Audience, CauseView, ItemView};
use crate::overview::parts;
use crate::text;
use vstd::prelude::*;

verus! {

/// Something is shown under a key.
pub open spec fn tells(m: Seq<MemberView>, key: Seq<char>, value: JsonView) -> bool {
    m.contains(MemberView { key, value })
}

/// A text is shown under a key.
pub open spec fn says(m: Seq<MemberView>, key: Seq<char>, s: Seq<char>) -> bool {
    tells(m, key, JsonView::Str(s))
}

/// A text, or that there is none.
pub open spec fn may_say(m: Seq<MemberView>, key: Seq<char>, s: Option<Seq<char>>) -> bool {
    match s {
        Some(t) => says(m, key, t),
        None => tells(m, key, JsonView::Null),
    }
}

/// A number is shown under a key.
pub open spec fn counts(m: Seq<MemberView>, key: Seq<char>, n: int) -> bool {
    tells(m, key, JsonView::Num(text::dec_int(n)))
}

proof fn at(m: Seq<MemberView>, i: int, key: Seq<char>, value: JsonView)
    requires
        0 <= i < m.len(),
        m[i] == (MemberView { key, value }),
    ensures
        tells(m, key, value),
{
}

proof fn at_opt(m: Seq<MemberView>, i: int, key: Seq<char>, s: Option<Seq<char>>)
    requires
        0 <= i < m.len(),
        m[i] == (MemberView { key, value: json::opt_string(s) }),
    ensures
        may_say(m, key, s),
{
}

// ---------- permissions ----------

/// A request is shown with all it holds.
pub proof fn what_is_shown_of_a_request(q: RequestView)
    ensures
        ({
            let m = show::request_card(q)->Obj_0;
            &&& show::request_card(q) is Obj
            &&& says(m, "id"@, q.id) && says(m, "status"@, q.status) && says(m, "reason"@, q.reason)
            &&& says(m, "cwd"@, q.cwd) && says(m, "requested_by"@, q.requested_by)
            &&& says(m, "decision"@, q.decision) && says(m, "decision_label"@, q.decision_label)
            &&& says(m, "command"@, text::join(q.argv, " "@))
            &&& tells(m, "argv"@, json::strings(q.argv))
            &&& counts(m, "created"@, q.created as int) && counts(
                m,
                "expires_at"@,
                q.expires_at as int,
            )
        }),
{
    let m = show::request_card(q)->Obj_0;
    assert(m[0].key == "argv"@ && m[1].key == "command"@ && m[2].key == "created"@ && m[3].key
        == "cwd"@ && m[4].key == "decision"@ && m[5].key == "decision_label"@ && m[6].key
        == "expires_at"@ && m[7].key == "id"@ && m[9].key == "reason"@ && m[10].key
        == "requested_by"@ && m[12].key == "status"@);
    at(m, 0, "argv"@, json::strings(q.argv));
    at(m, 1, "command"@, JsonView::Str(text::join(q.argv, " "@)));
    at(m, 2, "created"@, JsonView::Num(text::dec_int(q.created as int)));
    at(m, 3, "cwd"@, JsonView::Str(q.cwd));
    at(m, 4, "decision"@, JsonView::Str(q.decision));
    at(m, 5, "decision_label"@, JsonView::Str(q.decision_label));
    at(m, 6, "expires_at"@, JsonView::Num(text::dec_int(q.expires_at as int)));
    at(m, 7, "id"@, JsonView::Str(q.id));
    at(m, 9, "reason"@, JsonView::Str(q.reason));
    at(m, 10, "requested_by"@, JsonView::Str(q.requested_by));
    at(m, 12, "status"@, JsonView::Str(q.status));
}

/// A rule is shown with its words, patterns, directory, effect and scope.
pub proof fn what_is_shown_of_a_rule(r: RuleView)
    ensures
        ({
            let m = show::rule_card(r)->Obj_0;
            &&& show::rule_card(r) is Obj
            &&& says(m, "id"@, r.id) && says(m, "cwd"@, r.cwd) && says(m, "by"@, r.by)
            &&& counts(m, "at"@, r.at as int)
            &&& tells(m, "argv"@, json::strings(r.argv)) && tells(m, "tail"@, json::strings(r.tail))
            &&& r.effect is Allow ==> says(m, "effect"@, "allow"@)
            &&& r.effect is Deny ==> says(m, "effect"@, "deny"@)
            &&& r.scope is Exact ==> says(m, "scope"@, "exact"@)
            &&& r.scope is Prefix ==> says(m, "scope"@, "prefix"@)
        }),
{
    let m = show::rule_card(r)->Obj_0;
    at(m, 0, "argv"@, json::strings(r.argv));
    at(m, 1, "at"@, JsonView::Num(text::dec_int(r.at as int)));
    at(m, 2, "by"@, JsonView::Str(r.by));
    at(m, 3, "cwd"@, JsonView::Str(r.cwd));
    at(m, 4, "effect"@, m[4].value);
    at(m, 5, "id"@, JsonView::Str(r.id));
    at(m, 6, "scope"@, m[6].value);
    at(m, 7, "tail"@, json::strings(r.tail));
}

// ---------- memories ----------

/// A memory is shown with its slug, project, type, status, author, source,
/// dates, counts and the first line of its fact.
pub proof fn what_is_shown_of_a_memory(x: MemoryView)
    ensures
        ({
            let m = card::card(x);
            let f = x.front;
            &&& says(m, "slug"@, f.id) && says(m, "project"@, x.project) && says(m, "type"@, f.kind)
            &&& says(m, "status"@, f.status) && says(m, "confidence"@, f.confidence)
            &&& says(m, "created"@, f.created) && says(m, "path"@, x.path)
            &&& may_say(m, "author"@, f.author) && may_say(m, "source"@, f.source)
            &&& may_say(m, "supersedes"@, f.supersedes) && may_say(m, "verified_at"@, f.verified_at)
            &&& may_say(m, "active_operation"@, f.active_operation)
            &&& says(m, "revision_digest"@, memory::digest(x))
            &&& tells(m, "review_count"@, JsonView::Num(text::dec(f.reviews.len())))
            &&& tells(m, "finalization_count"@, JsonView::Num(text::dec(f.finalizations.len())))
            &&& tells(m, "review_cycle"@, JsonView::Num(text::dec(f.review_cycle as nat)))
            &&& body::fact(x.body).len() > 0 ==> says(m, "fact"@, body::fact(x.body)[0])
            &&& body::fact(x.body).len() == 0 ==> says(m, "fact"@, seq![])
        }),
{
    let m = card::card(x);
    let f = x.front;
    at_opt(m, 0, "active_operation"@, f.active_operation);
    at_opt(m, 1, "author"@, f.author);
    at(m, 2, "confidence"@, JsonView::Str(f.confidence));
    at(m, 3, "created"@, JsonView::Str(f.created));
    at(m, 4, "fact"@, m[4].value);
    at(m, 5, "finalization_count"@, JsonView::Num(text::dec(f.finalizations.len())));
    at(m, 7, "path"@, JsonView::Str(x.path));
    at(m, 8, "project"@, JsonView::Str(x.project));
    at(m, 10, "review_count"@, JsonView::Num(text::dec(f.reviews.len())));
    at(m, 11, "review_cycle"@, JsonView::Num(text::dec(f.review_cycle as nat)));
    at(m, 12, "revision_digest"@, JsonView::Str(memory::digest(x)));
    at(m, 14, "slug"@, JsonView::Str(f.id));
    at_opt(m, 15, "source"@, f.source);
    at(m, 16, "status"@, JsonView::Str(f.status));
    at_opt(m, 17, "supersedes"@, f.supersedes);
    at(m, 18, "type"@, JsonView::Str(f.kind));
    at_opt(m, 19, "verified_at"@, f.verified_at);
}

/// Its scope is shown axis by axis.
pub proof fn what_is_shown_of_a_scope(s: memory::ScopeView)
    ensures
        ({
            let m = card::scope_card(s)->Obj_0;
            &&& tells(m, "components"@, json::strings(s.components))
            &&& tells(m, "paths"@, json::strings(s.paths))
            &&& tells(m, "providers"@, json::strings(s.providers))
            &&& tells(m, "tags"@, json::strings(s.tags))
            &&& tells(m, "project"@, JsonView::Bool(s.project))
        }),
{
    let m = card::scope_card(s)->Obj_0;
    at(m, 0, "components"@, json::strings(s.components));
    at(m, 1, "paths"@, json::strings(s.paths));
    at(m, 2, "project"@, JsonView::Bool(s.project));
    at(m, 3, "providers"@, json::strings(s.providers));
    at(m, 4, "tags"@, json::strings(s.tags));
}

/// Its standing is shown for both operations, and whether it may be retrieved.
pub proof fn what_is_shown_of_a_standing(x: MemoryView)
    ensures
        ({
            let m = card::quorum_card(x)->Obj_0;
            let (a, v) = (quorum::standing(x, "accept"@), quorum::standing(x, "verify"@));
            &&& tells(m, "eligible"@, JsonView::Bool(quorum::retrieval(x).0))
            &&& says(m, "reason"@, quorum::retrieval(x).1)
            &&& tells(m, "accept"@, card::standing_card(a)) && tells(
                m,
                "verify"@,
                card::standing_card(v),
            )
            &&& tells(card::standing_card(a)->Obj_0, "eligible"@, JsonView::Bool(a.0))
            &&& says(card::standing_card(a)->Obj_0, "reason"@, a.1)
        }),
{
    let m = card::quorum_card(x)->Obj_0;
    let a = quorum::standing(x, "accept"@);
    at(m, 0, "accept"@, card::standing_card(a));
    at(m, 1, "eligible"@, JsonView::Bool(quorum::retrieval(x).0));
    at(m, 2, "reason"@, JsonView::Str(quorum::retrieval(x).1));
    at(m, 3, "verify"@, card::standing_card(quorum::standing(x, "verify"@)));
    let c = card::standing_card(a)->Obj_0;
    at(c, 0, "eligible"@, JsonView::Bool(a.0));
    at(c, 1, "reason"@, JsonView::Str(a.1));
}

/// A proposal is answered with the memory, its digest and whether it was
/// committed.
pub proof fn what_a_proposal_is_answered(x: MemoryView, committed: bool)
    ensures
        ({
            let p = reply::proposed(x, committed)->Obj_0;
            &&& tells(p, "committed"@, JsonView::Bool(committed))
            &&& says(p, "digest"@, memory::digest(x))
            &&& says(p, "slug"@, x.front.id) && says(p, "project"@, x.project)
            &&& says(p, "status"@, "proposed"@)
        }),
{
    let p = reply::proposed(x, committed)->Obj_0;
    at(p, 0, "committed"@, JsonView::Bool(committed));
    at(p, 1, "digest"@, JsonView::Str(memory::digest(x)));
    at(p, 3, "project"@, JsonView::Str(x.project));
    at(p, 5, "slug"@, JsonView::Str(x.front.id));
    at(p, 6, "status"@, JsonView::Str("proposed"@));
}

/// A review is answered with the operation and the verdict.
#[verifier::rlimit(40)]
pub proof fn what_a_review_is_answered(
    x: MemoryView,
    slug: Seq<char>,
    operation: Seq<char>,
    verdict: Seq<char>,
    committed: bool,
)
    ensures
        ({
            let r = reply::reviewed(x, slug, operation, verdict, committed)->Obj_0;
            &&& tells(r, "committed"@, JsonView::Bool(committed))
            &&& says(r, "slug"@, slug) && says(r, "operation"@, operation)
            &&& says(r, "verdict"@, verdict) && says(r, "status"@, x.front.status)
        }),
{
    let r = reply::reviewed(x, slug, operation, verdict, committed)->Obj_0;
    at(r, 0, "committed"@, JsonView::Bool(committed));
    at(r, 3, "operation"@, JsonView::Str(operation));
    at(r, 6, "slug"@, JsonView::Str(slug));
    at(r, 7, "status"@, JsonView::Str(x.front.status));
    at(r, 8, "verdict"@, JsonView::Str(verdict));
}

/// A finalization is answered with the operation and the status it led to.
pub proof fn what_a_finalization_is_answered(
    x: MemoryView,
    slug: Seq<char>,
    operation: Seq<char>,
    reason: Seq<char>,
    committed: bool,
)
    ensures
        ({
            let f = reply::finalized(x, slug, operation, reason, committed)->Obj_0;
            &&& tells(f, "committed"@, JsonView::Bool(committed))
            &&& says(f, "slug"@, slug) && says(f, "operation"@, operation)
            &&& tells(f, "finalized"@, JsonView::Bool(true)) && says(f, "status"@, x.front.status)
        }),
{
    let f = reply::finalized(x, slug, operation, reason, committed)->Obj_0;
    at(f, 0, "committed"@, JsonView::Bool(committed));
    at(f, 3, "finalized"@, JsonView::Bool(true));
    at(f, 4, "operation"@, JsonView::Str(operation));
    at(f, 7, "slug"@, JsonView::Str(slug));
    at(f, 8, "status"@, JsonView::Str(x.front.status));
}

// ---------- rows ----------

/// The word for an audience.
pub open spec fn word_for(a: Audience) -> Seq<char> {
    match a {
        Audience::Operator => "operator"@,
        Audience::Team => "team"@,
        Audience::Dependency => "dependency"@,
        Audience::Info => "info"@,
    }
}

/// A cause is shown with its kind, title, age, command, audience and start.
pub proof fn what_is_shown_of_a_cause(c: CauseView)
    ensures
        ({
            let m = overview::show::cause(c)->Obj_0;
            &&& says(m, "cause"@, c.cause) && says(m, "title"@, c.title) && says(
                m,
                "command"@,
                c.command,
            )
            &&& counts(m, "age"@, c.age as int) && says(m, "audience"@, word_for(c.audience))
            &&& c.since matches Some(t) ==> counts(m, "since"@, t as int)
        }),
{
    let m = overview::show::cause(c)->Obj_0;
    at(m, 0, "age"@, JsonView::Num(text::dec_int(c.age as int)));
    at(m, 1, "audience"@, JsonView::Str(word_for(c.audience)));
    at(m, 2, "cause"@, JsonView::Str(c.cause));
    at(m, 3, "command"@, JsonView::Str(c.command));
    at(m, 4, "since"@, m[4].value);
    at(m, 5, "title"@, JsonView::Str(c.title));
}

proof fn still(a: Seq<MemberView>, b: Seq<MemberView>, key: Seq<char>, value: JsonView)
    ensures
        tells(a, key, value) || tells(b, key, value) ==> tells(a + b, key, value),
{
    let x = MemberView { key, value };
    if a.contains(x) {
        let k = choose|k: int| 0 <= k < a.len() && a[k] == x;
        assert((a + b)[k] == x);
    }
    if b.contains(x) {
        let k = choose|k: int| 0 <= k < b.len() && b[k] == x;
        assert((a + b)[a.len() + k] == x);
    }
}

/// A row is shown with its kind, title, age, audience and why, causes, command,
/// project, link, subject and start, whatever else it carries.
pub proof fn what_is_shown_of_a_row(i: ItemView)
    ensures
        ({
            let m = overview::show::row(i)->Obj_0;
            &&& counts(m, "age"@, i.age as int) && says(m, "audience"@, word_for(i.audience))
            &&& may_say(m, "audience_reason"@, i.reason) && says(m, "cause"@, i.kind)
            &&& says(m, "kind"@, i.kind) && says(m, "title"@, i.title) && says(
                m,
                "command"@,
                i.command,
            )
            &&& says(m, "project"@, i.project) && may_say(m, "link"@, i.link)
            &&& i.since matches Some(t) ==> counts(m, "since"@, t as int)
            &&& i.since is None ==> tells(m, "since"@, JsonView::Null)
        }),
{
    let x = i.extra;
    let a = seq![
        overview::show::entry("age"@, JsonView::Num(text::dec_int(i.age as int))),
        overview::show::entry("audience"@, overview::show::audience(i.audience)),
        overview::show::entry("audience_reason"@, json::opt_string(i.reason)),
        overview::show::entry("cause"@, JsonView::Str(i.kind)),
        overview::show::entry("causes"@, overview::show::causes(i.causes)),
        overview::show::entry("command"@, JsonView::Str(i.command)),
    ];
    let b = overview::show::extra_escalated(x);
    let c = seq![
        overview::show::entry("kind"@, JsonView::Str(i.kind)),
        overview::show::entry("link"@, json::opt_string(i.link)),
    ];
    let d = overview::show::extra_middle(x);
    let e = seq![overview::show::entry("project"@, JsonView::Str(i.project))];
    let f = overview::show::extra_question(x);
    let s = overview::show::opt_number(i.since);
    let g = seq![
        overview::show::entry("since"@, s),
        overview::show::entry(
            "subject"@,
            JsonView::Obj(
                seq![
                    overview::show::entry("id"@, JsonView::Str(i.subject.1)),
                    overview::show::entry("kind"@, JsonView::Str(i.subject.0)),
                ],
            ),
        ),
    ];
    let h = overview::show::extra_summary(x);
    let t = seq![overview::show::entry("title"@, JsonView::Str(i.title))];
    let m = overview::show::row(i)->Obj_0;
    assert(m == a + b + c + d + e + f + g + h + t);
    at(a, 0, "age"@, JsonView::Num(text::dec_int(i.age as int)));
    at(a, 1, "audience"@, JsonView::Str(word_for(i.audience)));
    at(a, 2, "audience_reason"@, json::opt_string(i.reason));
    at(a, 3, "cause"@, JsonView::Str(i.kind));
    at(a, 5, "command"@, JsonView::Str(i.command));
    at(c, 0, "kind"@, JsonView::Str(i.kind));
    at(c, 1, "link"@, json::opt_string(i.link));
    at(e, 0, "project"@, JsonView::Str(i.project));
    at(g, 0, "since"@, s);
    at(t, 0, "title"@, JsonView::Str(i.title));
    assert forall|k: Seq<char>, v: JsonView|
        tells(a, k, v) || tells(c, k, v) || tells(e, k, v) || tells(g, k, v) || tells(
            t,
            k,
            v,
        ) implies #[trigger] tells(m, k, v) by {
        still(a, b, k, v);
        still(a + b, c, k, v);
        still(a + b + c, d, k, v);
        still(a + b + c + d, e, k, v);
        still(a + b + c + d + e, f, k, v);
        still(a + b + c + d + e + f, g, k, v);
        still(a + b + c + d + e + f + g, h, k, v);
        still(a + b + c + d + e + f + g + h, t, k, v);
    }
}

/// An alert is shown with who acts on it and how, and all that the daemon says
/// of it.
pub proof fn what_is_shown_of_an_alert(
    id: Seq<char>,
    monitor: JsonView,
    alert: JsonView,
    out: AlertView,
)
    ensures
        ({
            let m = overview::show::alert_row(id, monitor, alert, out)->Obj_0;
            &&& says(m, "monitor"@, id) && says(m, "next_action"@, out.next_action) && says(
                m,
                "next_owner"@,
                out.next_owner,
            ) && says(m, "authority"@, out.authority)
            &&& counts(m, "age_secs"@, out.age_secs as int)
            &&& json::field(alert, "kind"@) matches Some(v) ==> tells(m, "kind"@, v)
            &&& json::field(alert, "state"@) matches Some(v) ==> tells(m, "state"@, v)
            &&& json::field(alert, "seq"@) matches Some(v) ==> tells(m, "seq"@, v)
            &&& json::field(monitor, "project"@) matches Some(v) ==> tells(m, "project"@, v)
        }),
{
    let m = overview::show::alert_row(id, monitor, alert, out)->Obj_0;
    at(m, 0, "age_secs"@, JsonView::Num(text::dec_int(out.age_secs as int)));
    at(m, 2, "authority"@, JsonView::Str(out.authority));
    at(m, 7, "kind"@, m[7].value);
    at(m, 9, "monitor"@, JsonView::Str(id));
    at(m, 11, "next_action"@, JsonView::Str(out.next_action));
    at(m, 12, "next_owner"@, JsonView::Str(out.next_owner));
    at(m, 14, "project"@, m[14].value);
    at(m, 15, "seq"@, m[15].value);
    at(m, 16, "state"@, m[16].value);
}

/// A commit is shown with its state, what covers it and its run.
pub proof fn what_is_shown_of_a_commit(s: ShaCiView)
    ensures
        ({
            let m = parts::sha(s)->Obj_0;
            &&& says(m, "sha"@, s.sha) && may_say(m, "covered_by"@, s.covered_by) && may_say(
                m,
                "run_url"@,
                s.run_url,
            ) && may_say(m, "conclusion"@, s.conclusion)
            &&& s.state is Passed ==> says(m, "state"@, "passed"@)
            &&& s.state is Failed ==> says(m, "state"@, "failed"@)
            &&& s.state is Pending ==> says(m, "state"@, "pending"@)
            &&& s.state is Cancelled ==> says(m, "state"@, "cancelled"@)
            &&& s.state is Missing ==> says(m, "state"@, "missing"@)
        }),
{
    let m = parts::sha(s)->Obj_0;
    at_opt(m, 0, "conclusion"@, s.conclusion);
    at_opt(m, 1, "covered_by"@, s.covered_by);
    at_opt(m, 4, "run_url"@, s.run_url);
    at(m, 5, "sha"@, JsonView::Str(s.sha));
    at(m, 6, "state"@, m[6].value);
}

} // verus!
