//! Rows and monitors as the board reads them.
use crate::json;
use crate::json::{array_of, object_of, put_member, show_opt, show_strings, Json, JsonView, Member, MemberView};
use crate::order;
use crate::overview::github;
use crate::overview::monitoring;
use crate::overview::monitoring::{monitoring_view, AlertOut, AlertView, MonitorIn, MonitoringView};
use crate::overview::needs::{Audience, Cause, CauseView, Extra, ExtraView, Item, ItemView};
use crate::text;
use vstd::prelude::*;

verus! {

pub open spec fn entry(key: Seq<char>, value: JsonView) -> MemberView {
    MemberView { key, value }
}

/// A number, or null.
pub open spec fn opt_number(n: Option<i64>) -> JsonView {
    match n {
        Some(n) => JsonView::Num(text::dec_int(n as int)),
        None => JsonView::Null,
    }
}

pub open spec fn whole(n: nat) -> JsonView {
    JsonView::Num(text::dec(n))
}

pub open spec fn audience(a: Audience) -> JsonView {
    JsonView::Str(
        match a {
            Audience::Operator => "operator"@,
            Audience::Team => "team"@,
            Audience::Dependency => "dependency"@,
            Audience::Info => "info"@,
        },
    )
}

pub(crate) fn show(s: &String) -> (r: Json)
    ensures
        r@ == JsonView::Str(s@),
{
    Json::Str(s.clone())
}

pub(crate) fn show_number(n: i64) -> (r: Json)
    ensures
        r@ == JsonView::Num(text::dec_int(n as int)),
{
    Json::Num(text::dec_int_of(n))
}

pub(crate) fn show_opt_number(n: Option<i64>) -> (r: Json)
    ensures
        r@ == opt_number(n),
{
    match n {
        Some(n) => show_number(n),
        None => Json::Null,
    }
}

pub(crate) fn show_whole(n: u64) -> (r: Json)
    ensures
        r@ == whole(n as nat),
{
    Json::Num(text::dec_of(n))
}

fn show_audience(a: Audience) -> (r: Json)
    ensures
        r@ == audience(a),
{
    Json::Str(a.as_str().to_owned())
}

// ---------- rows ----------

pub open spec fn cause(c: CauseView) -> JsonView {
    JsonView::Obj(
        seq![
            entry("age"@, JsonView::Num(text::dec_int(c.age as int))),
            entry("audience"@, audience(c.audience)),
            entry("cause"@, JsonView::Str(c.cause)),
            entry("command"@, JsonView::Str(c.command)),
            entry("since"@, opt_number(c.since)),
            entry("title"@, JsonView::Str(c.title)),
        ],
    )
}

fn show_cause(c: &Cause) -> (r: Json)
    ensures
        r@ == cause(c@),
{
    let mut m: Vec<Member> = Vec::new();
    assert(json::members(m@) =~= seq![]);
    put_member(&mut m, "age", show_number(c.age));
    put_member(&mut m, "audience", show_audience(c.audience));
    put_member(&mut m, "cause", show(&c.cause));
    put_member(&mut m, "command", show(&c.command));
    put_member(&mut m, "since", show_opt_number(c.since));
    put_member(&mut m, "title", show(&c.title));
    let r = object_of(m);
    assert(r@->Obj_0 =~= cause(c@)->Obj_0);
    r
}

pub open spec fn causes(v: Seq<CauseView>) -> JsonView {
    JsonView::Arr(v.map_values(|c: CauseView| cause(c)))
}

fn show_causes(v: &Vec<Cause>) -> (r: Json)
    ensures
        r@ == causes(v@.map_values(|c: Cause| c@)),
{
    let ghost d = v@.map_values(|c: Cause| c@);
    let mut out: Vec<Json> = Vec::new();
    let mut i: usize = 0;
    while i < v.len()
        invariant
            d == v@.map_values(|c: Cause| c@),
            i <= v@.len(),
            out@.map_values(|x: Json| x@) =~= d.take(i as int).map_values(|c: CauseView| cause(c)),
        decreases v.len() - i,
    {
        let ghost o = out@.map_values(|x: Json| x@);
        let x = show_cause(&v[i]);
        let ghost xv = x@;
        out.push(x);
        proof {
            assert(d.take(i + 1) =~= d.take(i as int).push(v@[i as int]@));
            assert(out@.map_values(|x: Json| x@) =~= o.push(xv));
        }
        i = i + 1;
    }
    assert(d.take(i as int) =~= d);
    array_of(out)
}

/// What a row shows besides what every row has, by the place of its keys.
pub open spec fn extra_escalated(x: ExtraView) -> Seq<MemberView> {
    match x {
        ExtraView::Question { escalated_by, .. } => seq![
            entry("escalated_by"@, escalated_by),
        ],
        _ => seq![],
    }
}

pub open spec fn extra_middle(x: ExtraView) -> Seq<MemberView> {
    match x {
        ExtraView::Merge {
            issue,
            pr,
            pr_ref,
            sha,
            owner,
            reviewer,
            verdict_summary,
            report,
            additions,
            deletions,
            files,
            decline,
        } => seq![
            entry(
                "merge"@,
                JsonView::Obj(
                    seq![
                        entry("additions"@, whole(additions as nat)),
                        entry("by"@, JsonView::Str(reviewer)),
                        entry("decline"@, JsonView::Str(decline)),
                        entry("deletions"@, whole(deletions as nat)),
                        entry("files"@, whole(files as nat)),
                        entry("issue"@, JsonView::Str(issue)),
                        entry("owner"@, JsonView::Str(owner)),
                        entry("pr"@, json::opt_string(pr)),
                        entry("pr_ref"@, json::opt_string(pr_ref)),
                        entry("report"@, JsonView::Str(report)),
                        entry("sha"@, JsonView::Str(sha)),
                        entry("verdict_summary"@, JsonView::Str(verdict_summary)),
                    ],
                ),
            ),
        ],
        ExtraView::Owner(o) => seq![entry("owner"@, JsonView::Str(o))],
        ExtraView::Plan { epic, proposed_by, tickets } => seq![
            entry(
                "plan"@,
                JsonView::Obj(
                    seq![
                        entry("epic"@, JsonView::Str(epic)),
                        entry("proposed_by"@, JsonView::Str(proposed_by)),
                        entry("tickets"@, json::strings(tickets)),
                    ],
                ),
            ),
        ],
        _ => seq![],
    }
}

pub open spec fn extra_question(x: ExtraView) -> Seq<MemberView> {
    match x {
        ExtraView::Question { issue, report, agent, impact, body, options, .. } => seq![
            entry(
                "question"@,
                JsonView::Obj(
                    seq![
                        entry("agent"@, JsonView::Str(agent)),
                        entry("body"@, JsonView::Str(body)),
                        entry("impact"@, JsonView::Str(impact)),
                        entry("issue"@, JsonView::Str(issue)),
                        entry("options"@, json::strings(options)),
                        entry("report"@, JsonView::Str(report)),
                    ],
                ),
            ),
        ],
        _ => seq![],
    }
}

pub open spec fn extra_summary(x: ExtraView) -> Seq<MemberView> {
    match x {
        ExtraView::Question { summary, .. } => seq![entry("summary"@, summary)],
        _ => seq![],
    }
}

/// A row: its first cause as its kind, the row's audience and why, all of
/// its causes, and what its kind adds.
pub open spec fn row(i: ItemView) -> JsonView {
    JsonView::Obj(
        seq![
            entry("age"@, JsonView::Num(text::dec_int(i.age as int))),
            entry("audience"@, audience(i.audience)),
            entry("audience_reason"@, json::opt_string(i.reason)),
            entry("cause"@, JsonView::Str(i.kind)),
            entry("causes"@, causes(i.causes)),
            entry("command"@, JsonView::Str(i.command)),
        ] + extra_escalated(i.extra) + seq![
            entry("kind"@, JsonView::Str(i.kind)),
            entry("link"@, json::opt_string(i.link)),
        ] + extra_middle(i.extra) + seq![entry("project"@, JsonView::Str(i.project))]
            + extra_question(i.extra) + seq![
            entry("since"@, opt_number(i.since)),
            entry(
                "subject"@,
                JsonView::Obj(
                    seq![
                        entry("id"@, JsonView::Str(i.subject.1)),
                        entry("kind"@, JsonView::Str(i.subject.0)),
                    ],
                ),
            ),
        ] + extra_summary(i.extra) + seq![entry("title"@, JsonView::Str(i.title))],
    )
}

fn put_middle(m: &mut Vec<Member>, x: &Extra)
    ensures
        json::members(final(m)@) == json::members(old(m)@) + extra_middle(x@),
{
    let ghost o = json::members(m@);
    match x {
        Extra::Merge(i) => {
            let mut b: Vec<Member> = Vec::new();
            assert(json::members(b@) =~= seq![]);
            put_member(&mut b, "additions", show_whole(i.additions));
            put_member(&mut b, "by", show(&i.reviewer));
            put_member(&mut b, "decline", show(&i.decline));
            put_member(&mut b, "deletions", show_whole(i.deletions));
            put_member(&mut b, "files", show_whole(i.files));
            put_member(&mut b, "issue", show(&i.issue));
            put_member(&mut b, "owner", show(&i.owner));
            put_member(&mut b, "pr", show_opt(&i.pr));
            put_member(&mut b, "pr_ref", show_opt(&i.pr_ref));
            put_member(&mut b, "report", show(&i.report));
            put_member(&mut b, "sha", show(&i.sha));
            put_member(&mut b, "verdict_summary", show(&i.verdict_summary));
            let merge = object_of(b);
            assert(merge@->Obj_0 =~= extra_middle(x@)[0].value->Obj_0);
            put_member(m, "merge", merge);
        },
        Extra::Owner(owner) => {
            put_member(m, "owner", show(owner));
        },
        Extra::Plan(p) => {
            let mut b: Vec<Member> = Vec::new();
            assert(json::members(b@) =~= seq![]);
            put_member(&mut b, "epic", show(&p.epic));
            put_member(&mut b, "proposed_by", show(&p.proposed_by));
            put_member(&mut b, "tickets", show_strings(&p.tickets));
            let plan = object_of(b);
            assert(plan@->Obj_0 =~= extra_middle(x@)[0].value->Obj_0);
            put_member(m, "plan", plan);
        },
        _ => {},
    }
    assert(json::members(m@) =~= o + extra_middle(x@));
}

fn put_question(m: &mut Vec<Member>, x: &Extra)
    ensures
        json::members(final(m)@) == json::members(old(m)@) + extra_question(x@),
{
    let ghost o = json::members(m@);
    if let Extra::Question(q) = x {
        let mut b: Vec<Member> = Vec::new();
        assert(json::members(b@) =~= seq![]);
        put_member(&mut b, "agent", show(&q.agent));
        put_member(&mut b, "body", show(&q.body));
        put_member(&mut b, "impact", show(&q.impact));
        put_member(&mut b, "issue", show(&q.issue));
        put_member(&mut b, "options", show_strings(&q.options));
        put_member(&mut b, "report", show(&q.report));
        let question = object_of(b);
        assert(question@->Obj_0 =~= extra_question(x@)[0].value->Obj_0);
        put_member(m, "question", question);
    }
    assert(json::members(m@) =~= o + extra_question(x@));
}

fn show_subject(kind: &String, id: &String) -> (r: Json)
    ensures
        r@ == JsonView::Obj(
            seq![entry("id"@, JsonView::Str(id@)), entry("kind"@, JsonView::Str(kind@))],
        ),
{
    let mut m: Vec<Member> = Vec::new();
    assert(json::members(m@) =~= seq![]);
    put_member(&mut m, "id", show(id));
    put_member(&mut m, "kind", show(kind));
    let r = object_of(m);
    assert(r@->Obj_0 =~= seq![
        entry("id"@, JsonView::Str(id@)),
        entry("kind"@, JsonView::Str(kind@)),
    ]);
    r
}

/// A row as the board and the command line read it.
pub fn item_json(i: &Item) -> (r: Json)
    ensures
        r@ == row(i@),
{
    let mut m: Vec<Member> = Vec::new();
    assert(json::members(m@) =~= seq![]);
    put_member(&mut m, "age", show_number(i.age));
    put_member(&mut m, "audience", show_audience(i.audience));
    put_member(&mut m, "audience_reason", show_opt(&i.reason));
    put_member(&mut m, "cause", show(&i.kind));
    put_member(&mut m, "causes", show_causes(&i.causes));
    put_member(&mut m, "command", show(&i.command));
    if let Extra::Question(q) = &i.extra {
        put_member(&mut m, "escalated_by", json::copy(&q.escalated_by));
    }
    put_member(&mut m, "kind", show(&i.kind));
    put_member(&mut m, "link", show_opt(&i.link));
    put_middle(&mut m, &i.extra);
    put_member(&mut m, "project", show(&i.project));
    put_question(&mut m, &i.extra);
    put_member(&mut m, "since", show_opt_number(i.since));
    put_member(&mut m, "subject", show_subject(&i.subject_kind, &i.subject_id));
    if let Extra::Question(q) = &i.extra {
        put_member(&mut m, "summary", json::copy(&q.summary));
    }
    put_member(&mut m, "title", show(&i.title));
    let r = object_of(m);
    assert(r@->Obj_0 =~= row(i@)->Obj_0);
    r
}

// ---------- monitors ----------

/// The value under a key, or null.
pub open spec fn field_or_null(j: JsonView, k: Seq<char>) -> JsonView {
    match json::field(j, k) {
        Some(v) => v,
        None => JsonView::Null,
    }
}

fn show_field(j: &Json, k: &str) -> (r: Json)
    ensures
        r@ == field_or_null(j@, k@),
{
    match j.get(k) {
        Some(v) => json::copy(v),
        None => Json::Null,
    }
}

/// What an alert is known by: its number and the event behind it.
pub open spec fn evidence(id: Seq<char>, alert: JsonView) -> JsonView {
    JsonView::Obj(
        seq![
            entry("alert_seq"@, field_or_null(alert, "seq"@)),
            entry("event_seq"@, field_or_null(alert, "event_seq"@)),
            entry("fingerprint"@, field_or_null(alert, "fingerprint"@)),
            entry("monitor"@, JsonView::Str(id)),
            entry("payload"@, field_or_null(alert, "payload"@)),
        ],
    )
}

/// An alert: the daemon's fields of it, whose monitor it is, and what is
/// to be done about it.
pub open spec fn alert_row(
    id: Seq<char>,
    monitor: JsonView,
    alert: JsonView,
    out: AlertView,
) -> JsonView {
    JsonView::Obj(
        seq![
            entry("age_secs"@, JsonView::Num(text::dec_int(out.age_secs as int))),
            entry("attempts"@, field_or_null(alert, "attempts"@)),
            entry("authority"@, JsonView::Str(out.authority)),
            entry("created"@, field_or_null(alert, "created"@)),
            entry("event_seq"@, field_or_null(alert, "event_seq"@)),
            entry("evidence"@, evidence(id, alert)),
            entry("fingerprint"@, field_or_null(alert, "fingerprint"@)),
            entry("kind"@, field_or_null(alert, "kind"@)),
            entry("last_error"@, field_or_null(alert, "last_error"@)),
            entry("monitor"@, JsonView::Str(id)),
            entry("monitor_owner"@, field_or_null(monitor, "owner"@)),
            entry("next_action"@, JsonView::Str(out.next_action)),
            entry("next_owner"@, JsonView::Str(out.next_owner)),
            entry("payload"@, field_or_null(alert, "payload"@)),
            entry("project"@, field_or_null(monitor, "project"@)),
            entry("seq"@, field_or_null(alert, "seq"@)),
            entry("state"@, field_or_null(alert, "state"@)),
            entry("task"@, field_or_null(alert, "task"@)),
            entry("updated"@, field_or_null(alert, "updated"@)),
        ],
    )
}

fn show_evidence(id: &String, alert: &Json) -> (r: Json)
    ensures
        r@ == evidence(id@, alert@),
{
    let mut m: Vec<Member> = Vec::new();
    assert(json::members(m@) =~= seq![]);
    put_member(&mut m, "alert_seq", show_field(alert, "seq"));
    put_member(&mut m, "event_seq", show_field(alert, "event_seq"));
    put_member(&mut m, "fingerprint", show_field(alert, "fingerprint"));
    put_member(&mut m, "monitor", show(id));
    put_member(&mut m, "payload", show_field(alert, "payload"));
    let r = object_of(m);
    assert(r@->Obj_0 =~= evidence(id@, alert@)->Obj_0);
    r
}

/// One alert of the monitor `id`.
pub fn alert_json(id: &String, monitor: &Json, alert: &Json, out: &AlertOut) -> (r: Json)
    ensures
        r@ == alert_row(id@, monitor@, alert@, out@),
{
    let mut m: Vec<Member> = Vec::new();
    assert(json::members(m@) =~= seq![]);
    put_member(&mut m, "age_secs", show_number(out.age_secs));
    put_member(&mut m, "attempts", show_field(alert, "attempts"));
    put_member(&mut m, "authority", Json::Str(out.authority.to_owned()));
    put_member(&mut m, "created", show_field(alert, "created"));
    put_member(&mut m, "event_seq", show_field(alert, "event_seq"));
    put_member(&mut m, "evidence", show_evidence(id, alert));
    put_member(&mut m, "fingerprint", show_field(alert, "fingerprint"));
    put_member(&mut m, "kind", show_field(alert, "kind"));
    put_member(&mut m, "last_error", show_field(alert, "last_error"));
    put_member(&mut m, "monitor", show(id));
    put_member(&mut m, "monitor_owner", show_field(monitor, "owner"));
    put_member(&mut m, "next_action", Json::Str(out.next_action.to_owned()));
    put_member(&mut m, "next_owner", show(&out.next_owner));
    put_member(&mut m, "payload", show_field(alert, "payload"));
    put_member(&mut m, "project", show_field(monitor, "project"));
    put_member(&mut m, "seq", show_field(alert, "seq"));
    put_member(&mut m, "state", show_field(alert, "state"));
    put_member(&mut m, "task", show_field(alert, "task"));
    put_member(&mut m, "updated", show_field(alert, "updated"));
    let r = object_of(m);
    assert(r@->Obj_0 =~= alert_row(id@, monitor@, alert@, out@)->Obj_0);
    r
}

/// A monitor and what the daemon answered of it: its row and its alerts.
#[derive(Debug)]
pub struct MonitorRead {
    pub row: Json,
    pub alerts: Vec<Json>,
}

/// The rows of a monitor's alerts, as they came.
pub open spec fn alert_rows(reads: Seq<MonitorRead>, ms: Seq<MonitorIn>, i: int, now: i64) -> Seq<
    JsonView,
> {
    Seq::new(
        reads[i].alerts@.len(),
        |k: int|
            alert_row(
                ms[i].id@,
                reads[i].row@,
                reads[i].alerts@[k]@,
                monitoring::alert_out(ms, i, k, now),
            ),
    )
}

pub open spec fn entries(j: JsonView) -> Seq<MemberView> {
    match j {
        JsonView::Obj(m) => m,
        _ => seq![],
    }
}

/// A monitor: the daemon's row, which says that it is stale where its
/// schedule has passed, with its alerts.
pub open spec fn monitor_row(reads: Seq<MonitorRead>, ms: Seq<MonitorIn>, i: int, now: i64) -> JsonView {
    let m0 = entries(reads[i].row@);
    let m1 = if monitoring::is_overdue(ms[i], now) {
        json::with(
            json::with(
                json::with(m0, "error"@, monitoring::shown_error(ms[i], now)),
                "monitoring"@,
                JsonView::Str("stale"@),
            ),
            "stale"@,
            JsonView::Bool(true),
        )
    } else {
        m0
    };
    let m2 = match ms[i].alerts_error {
        Some(e) => json::with(m1, "alerts_error"@, JsonView::Str(e@)),
        None => m1,
    };
    JsonView::Obj(json::with(m2, "alerts"@, JsonView::Arr(alert_rows(reads, ms, i, now))))
}

/// Every monitor has one read, with as many alerts.
pub open spec fn matched(reads: Seq<MonitorRead>, ms: Seq<MonitorIn>) -> bool {
    &&& reads.len() == ms.len()
    &&& forall|i: int|
        0 <= i < ms.len() ==> (#[trigger] reads[i]).alerts@.len() == ms[i].alerts@.len()
}

fn show_alert_rows(read: &MonitorRead, m: &MonitorIn, i: usize, now: i64) -> (r: Vec<Json>)
    requires
        read.alerts@.len() == m.alerts@.len(),
    ensures
        forall|reads: Seq<MonitorRead>, ms: Seq<MonitorIn>|
            0 <= i < ms.len() && #[trigger] ms[i as int] == *m && #[trigger] reads[i as int]
                == *read ==> github::values(r@) == alert_rows(reads, ms, i as int, now),
{
    let mut out: Vec<Json> = Vec::new();
    let mut k: usize = 0;
    while k < read.alerts.len()
        invariant
            read.alerts@.len() == m.alerts@.len(),
            k <= read.alerts@.len(),
            out@.len() == k,
            forall|ms: Seq<MonitorIn>, j: int|
                0 <= i < ms.len() && #[trigger] ms[i as int] == *m && 0 <= j < k
                    ==> #[trigger] out@[j]@ == alert_row(
                    m.id@,
                    read.row@,
                    read.alerts@[j]@,
                    monitoring::alert_out(ms, i as int, j, now),
                ),
        decreases read.alerts.len() - k,
    {
        let a = monitoring::alert_out_of(m, i, k, now);
        let x = alert_json(&m.id, &read.row, &read.alerts[k], &a);
        out.push(x);
        k = k + 1;
    }
    assert forall|reads: Seq<MonitorRead>, ms: Seq<MonitorIn>|
        0 <= i < ms.len() && #[trigger] ms[i as int] == *m && #[trigger] reads[i as int]
            == *read implies github::values(out@) == alert_rows(reads, ms, i as int, now) by {
        assert(github::values(out@) =~= alert_rows(reads, ms, i as int, now));
    }
    out
}

fn entries_of(j: &Json) -> (r: Vec<Member>)
    ensures
        json::members(r@) == entries(j@),
{
    match json::copy(j) {
        Json::Obj(m) => {
            let ghost g = m;
            proof {
                json::members_view(Json::Obj(g), g);
            }
            m
        },
        _ => {
            let m: Vec<Member> = Vec::new();
            assert(json::members(m@) =~= seq![]);
            m
        },
    }
}

fn show_monitor(read: &MonitorRead, m: &MonitorIn, i: usize, view: &MonitoringView, now: i64) -> (r:
    Json)
    requires
        read.alerts@.len() == m.alerts@.len(),
        i < view.monitors@.len(),
        view.monitors@[i as int].overdue == monitoring::is_overdue(*m, now),
        view.monitors@[i as int].error@ == monitoring::shown_error(*m, now),
    ensures
        forall|reads: Seq<MonitorRead>, ms: Seq<MonitorIn>|
            0 <= i < ms.len() && #[trigger] ms[i as int] == *m && #[trigger] reads[i as int]
                == *read ==> r@ == monitor_row(reads, ms, i as int, now),
{
    let mut e = entries_of(&read.row);
    if view.monitors[i].overdue {
        e = json::set_key(e, "error", json::copy(&view.monitors[i].error));
        e = json::set_key(e, "monitoring", Json::Str("stale".to_owned()));
        e = json::set_key(e, "stale", Json::Bool(true));
    }
    if let Some(why) = &m.alerts_error {
        e = json::set_key(e, "alerts_error", Json::Str(why.clone()));
    }
    let rows = show_alert_rows(read, m, i, now);
    let alerts = array_of(rows);
    assert(alerts@->Arr_0 =~= github::values(rows@));
    e = json::set_key(e, "alerts", alerts);
    object_of(e)
}

/// The alerts of all monitors, by sequence number.
pub open spec fn all_alert_rows(reads: Seq<MonitorRead>, ms: Seq<MonitorIn>, now: i64) -> Seq<
    JsonView,
> {
    order::sorted(
        monitoring::alerts_upto(ms, ms.len() as int, now),
        monitoring::by_seq(),
    ).map_values(
        |a: AlertView|
            alert_row(
                ms[a.monitor].id@,
                reads[a.monitor].row@,
                reads[a.monitor].alerts@[a.alert]@,
                a,
            ),
    )
}

/// Alerts are shown here and acknowledged here; nothing is pushed.
pub open spec fn delivery() -> JsonView {
    JsonView::Obj(
        seq![
            entry("configured"@, JsonView::Bool(false)),
            entry(
                "detail"@,
                JsonView::Str(
                    "Durable alerts are visible and acknowledged in this UI; external push delivery is unconfigured"@,
                ),
            ),
            entry("push"@, JsonView::Bool(false)),
            entry("state"@, JsonView::Str("ui_local_only"@)),
        ],
    )
}

fn local_monitor_delivery() -> (r: Json)
    ensures
        r@ == delivery(),
{
    let mut m: Vec<Member> = Vec::new();
    assert(json::members(m@) =~= seq![]);
    put_member(&mut m, "configured", Json::Bool(false));
    put_member(
        &mut m,
        "detail",
        Json::Str(
            "Durable alerts are visible and acknowledged in this UI; external push delivery is unconfigured".to_owned(),
        ),
    );
    put_member(&mut m, "push", Json::Bool(false));
    put_member(&mut m, "state", Json::Str("ui_local_only".to_owned()));
    let r = object_of(m);
    assert(r@->Obj_0 =~= delivery()->Obj_0);
    r
}

/// The monitoring part of the board.
pub open spec fn monitoring_part(
    available: bool,
    state: Seq<char>,
    success: Option<i64>,
    check: Option<i64>,
    next: Option<i64>,
    open_alerts: nat,
    errors: Seq<JsonView>,
    monitors: Seq<JsonView>,
    alerts: Seq<JsonView>,
) -> JsonView {
    JsonView::Obj(
        seq![
            entry("alerts"@, JsonView::Arr(alerts)),
            entry("available"@, JsonView::Bool(available)),
            entry("delivery"@, delivery()),
            entry("errors"@, JsonView::Arr(errors)),
            entry("last_check_at"@, opt_number(check)),
            entry("last_success_at"@, opt_number(success)),
            entry("monitors"@, JsonView::Arr(monitors)),
            entry("next_check_at"@, opt_number(next)),
            entry("open_alerts"@, whole(open_alerts)),
            entry("state"@, JsonView::Str(state)),
        ],
    )
}

fn show_part(
    available: bool,
    state: &str,
    success: Option<i64>,
    check: Option<i64>,
    next: Option<i64>,
    open_alerts: usize,
    errors: Vec<Json>,
    monitors: Vec<Json>,
    alerts: Vec<Json>,
) -> (r: Json)
    ensures
        r@ == monitoring_part(
            available,
            state@,
            success,
            check,
            next,
            open_alerts as nat,
            github::values(errors@),
            github::values(monitors@),
            github::values(alerts@),
        ),
{
    let ghost part = monitoring_part(
        available,
        state@,
        success,
        check,
        next,
        open_alerts as nat,
        github::values(errors@),
        github::values(monitors@),
        github::values(alerts@),
    );
    let mut m: Vec<Member> = Vec::new();
    assert(json::members(m@) =~= seq![]);
    put_member(&mut m, "alerts", array_of(alerts));
    put_member(&mut m, "available", Json::Bool(available));
    put_member(&mut m, "delivery", local_monitor_delivery());
    put_member(&mut m, "errors", array_of(errors));
    put_member(&mut m, "last_check_at", show_opt_number(check));
    put_member(&mut m, "last_success_at", show_opt_number(success));
    put_member(&mut m, "monitors", array_of(monitors));
    put_member(&mut m, "next_check_at", show_opt_number(next));
    put_member(&mut m, "open_alerts", show_whole(open_alerts as u64));
    put_member(&mut m, "state", Json::Str(state.to_owned()));
    let r = object_of(m);
    assert(r@->Obj_0 =~= part->Obj_0);
    r
}

/// An error alone.
pub open spec fn bare_error(error: Seq<char>) -> JsonView {
    JsonView::Obj(seq![entry("error"@, JsonView::Str(error))])
}

/// An error and the monitor that it is of.
pub open spec fn error_row(e: (Seq<char>, JsonView)) -> JsonView {
    JsonView::Obj(seq![entry("error"@, e.1), entry("monitor"@, JsonView::Str(e.0))])
}

/// What is shown when the monitors could not be read: why, and no claim
/// about any of them.
pub fn monitoring_unavailable(error: &str) -> (r: Json)
    ensures
        r@ == monitoring_part(
            false,
            "unavailable"@,
            None,
            None,
            None,
            0,
            seq![bare_error(error@)],
            seq![],
            seq![],
        ),
{
    let mut m: Vec<Member> = Vec::new();
    assert(json::members(m@) =~= seq![]);
    put_member(&mut m, "error", Json::Str(error.to_owned()));
    let e = object_of(m);
    assert(e@->Obj_0 =~= bare_error(error@)->Obj_0);
    let mut errors: Vec<Json> = Vec::new();
    errors.push(e);
    let none: Vec<Json> = Vec::new();
    let nil: Vec<Json> = Vec::new();
    assert(github::values(errors@) =~= seq![bare_error(error@)]);
    assert(github::values(none@) =~= seq![]);
    show_part(false, "unavailable", None, None, None, 0, errors, none, nil)
}

fn show_errors(v: &Vec<(String, Json)>) -> (r: Vec<Json>)
    ensures
        github::values(r@) == monitoring::error_views(v@).map_values(
            |e: (Seq<char>, JsonView)| error_row(e),
        ),
{
    let ghost d = monitoring::error_views(v@);
    let mut out: Vec<Json> = Vec::new();
    let mut i: usize = 0;
    while i < v.len()
        invariant
            d == monitoring::error_views(v@),
            i <= v@.len(),
            out@.len() == i,
            forall|j: int| 0 <= j < i ==> #[trigger] out@[j]@ == error_row(d[j]),
        decreases v.len() - i,
    {
        let mut m: Vec<Member> = Vec::new();
        assert(json::members(m@) =~= seq![]);
        put_member(&mut m, "error", json::copy(&v[i].1));
        put_member(&mut m, "monitor", show(&v[i].0));
        let e = object_of(m);
        assert(e@->Obj_0 =~= error_row(d[i as int])->Obj_0);
        out.push(e);
        i = i + 1;
    }
    assert(github::values(out@) =~= d.map_values(|e: (Seq<char>, JsonView)| error_row(e)));
    out
}

/// The monitoring part of monitors that were read.
pub open spec fn monitoring_shown(reads: Seq<MonitorRead>, ms: Seq<MonitorIn>, now: i64) -> JsonView {
    monitoring_part(
        true,
        monitoring::overall(ms, now),
        monitoring::whole(monitoring::latest(ms, monitoring::success_at())),
        monitoring::whole(monitoring::latest(ms, monitoring::check_at())),
        monitoring::whole(monitoring::earliest_next(ms)),
        monitoring::open_count(
            order::sorted(
                monitoring::alerts_upto(ms, ms.len() as int, now),
                monitoring::by_seq(),
            ),
        ),
        monitoring::all_errors(ms, now).map_values(|e: (Seq<char>, JsonView)| error_row(e)),
        Seq::new(ms.len(), |i: int| monitor_row(reads, ms, i, now)),
        all_alert_rows(reads, ms, now),
    )
}

/// The monitors and their alerts: what the daemon answered, and what
/// follows from it at the time `now`.
pub fn monitoring_json(reads: &Vec<MonitorRead>, monitors: &Vec<MonitorIn>, now: i64) -> (r: Json)
    requires
        matched(reads@, monitors@),
    ensures
        r@ == monitoring_shown(reads@, monitors@, now),
{
    let ghost ms = monitors@;
    let ghost s = order::sorted(
        monitoring::alerts_upto(ms, ms.len() as int, now),
        monitoring::by_seq(),
    );
    let view = monitoring_view(monitors, now);
    proof {
        monitoring::shown_alerts_point_back(ms, now);
    }
    let mut rows: Vec<Json> = Vec::new();
    let mut i: usize = 0;
    while i < monitors.len()
        invariant
            matched(reads@, monitors@),
            ms == monitors@,
            view.monitors@.len() == ms.len(),
            forall|j: int|
                0 <= j < ms.len() ==> (#[trigger] view.monitors@[j]).overdue
                    == monitoring::is_overdue(ms[j], now) && view.monitors@[j].error@
                    == monitoring::shown_error(ms[j], now),
            i <= ms.len(),
            rows@.len() == i,
            forall|j: int|
                0 <= j < i ==> #[trigger] rows@[j]@ == monitor_row(reads@, ms, j, now),
        decreases monitors.len() - i,
    {
        assert(view.monitors@[i as int].overdue == monitoring::is_overdue(ms[i as int], now));
        assert(reads@[i as int].alerts@.len() == ms[i as int].alerts@.len());
        let x = show_monitor(&reads[i], &monitors[i], i, &view, now);
        rows.push(x);
        i = i + 1;
    }
    let mut alerts: Vec<Json> = Vec::new();
    let mut k: usize = 0;
    while k < view.alerts.len()
        invariant
            matched(reads@, monitors@),
            ms == monitors@,
            s == monitoring::alert_views(view.alerts@),
            forall|j: int| 0 <= j < s.len() ==> monitoring::points_into(#[trigger] s[j], ms),
            k <= view.alerts@.len(),
            alerts@.len() == k,
            forall|j: int|
                0 <= j < k ==> #[trigger] alerts@[j]@ == alert_row(
                    ms[s[j].monitor].id@,
                    reads@[s[j].monitor].row@,
                    reads@[s[j].monitor].alerts@[s[j].alert]@,
                    s[j],
                ),
        decreases view.alerts.len() - k,
    {
        let a = &view.alerts[k];
        assert(s[k as int] == a@);
        assert(monitoring::points_into(s[k as int], ms));
        assert(reads@[a.monitor as int].alerts@.len() == ms[a.monitor as int].alerts@.len());
        let read = &reads[a.monitor];
        let x = alert_json(&monitors[a.monitor].id, &read.row, &read.alerts[a.alert], a);
        alerts.push(x);
        k = k + 1;
    }
    assert(github::values(rows@) =~= Seq::new(
        ms.len(),
        |i: int| monitor_row(reads@, ms, i, now),
    ));
    assert(github::values(alerts@) =~= all_alert_rows(reads@, ms, now));
    let errors = show_errors(&view.errors);
    show_part(
        true,
        view.state,
        view.last_success_at,
        view.last_check_at,
        view.next_check_at,
        view.open_alerts,
        errors,
        rows,
        alerts,
    )
}

} // verus!
