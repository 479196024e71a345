//! The rows that the tracker raises: work in review without a PR, work
//! whose blockers are done, plans and questions for the operator, and
//! reports to triage; and the tile of each project.
use crate::json;
use crate::json::{Json, JsonView};
use crate::order;
use crate::overview::agents;
use crate::overview::agents::push_row;
use crate::overview::github;
use crate::overview::needs;
use crate::overview::needs::{item, Extra, ExtraView, Item, ItemView, PlanInfo, QuestionInfo};
use crate::overview::{cmd_issue_set_ready, cmd_issue_show, CMD_ISSUE_SYNC};
use crate::text;
use crate::time;
use vstd::prelude::*;

verus! {

/// A plan on an epic.
#[derive(Debug)]
pub struct Plan {
    pub state: String,
    pub proposed_at: String,
    pub proposed_by: String,
    pub tickets: Vec<String>,
}

/// An open question. Only one that the escalation record holds reaches the
/// operator.
#[derive(Debug)]
pub struct Question {
    pub name: String,
    pub at: Option<String>,
    pub agent: String,
    pub impact: String,
    pub body: String,
    pub options: Vec<String>,
    /// What the escalation record says of it.
    pub summary: Json,
    pub escalated_by: Json,
}

pub struct QuestionView {
    pub name: Seq<char>,
    pub at: Option<Seq<char>>,
    pub agent: Seq<char>,
    pub impact: Seq<char>,
    pub body: Seq<char>,
    pub options: Seq<Seq<char>>,
    pub summary: JsonView,
    pub escalated_by: JsonView,
}

impl View for Question {
    type V = QuestionView;

    open spec fn view(&self) -> QuestionView {
        QuestionView {
            name: self.name@,
            at: self.at.deep_view(),
            agent: self.agent@,
            impact: self.impact@,
            body: self.body@,
            options: self.options.deep_view(),
            summary: self.summary@,
            escalated_by: self.escalated_by@,
        }
    }
}

pub open spec fn question_views(v: Seq<Question>) -> Seq<QuestionView> {
    v.map_values(|q: Question| q@)
}

/// An issue of the tracker, with its effective status.
#[derive(Debug)]
pub struct Issue {
    pub id: String,
    pub project: String,
    pub title: String,
    pub owner: Option<String>,
    pub created: String,
    pub status: String,
    /// A PR that is not closed is named on it.
    pub open_pr_ref: bool,
    /// What the names of its branches begin with.
    pub branch_prefix: String,
    pub blocked_by: Vec<String>,
    pub tags: Vec<String>,
    pub kind: Option<String>,
    pub plan: Option<Plan>,
    pub questions: Vec<Question>,
    /// Someone holds it.
    pub held: bool,
}

/// When each issue entered its status, where that was read.
pub type Clocks = Vec<(String, Option<i64>)>;

pub open spec fn clock(clocks: Seq<(String, Option<i64>)>, id: Seq<char>) -> Option<i64>
    decreases clocks.len(),
{
    if clocks.len() == 0 {
        None
    } else if clocks[0].0@ == id {
        clocks[0].1
    } else {
        clock(clocks.drop_first(), id)
    }
}

fn clock_of(clocks: &Clocks, id: &str) -> (r: Option<i64>)
    ensures
        r == clock(clocks@, id@),
{
    let mut i: usize = 0;
    assert(clocks@.skip(0) =~= clocks@);
    while i < clocks.len()
        invariant
            i <= clocks@.len(),
            clock(clocks@, id@) == clock(clocks@.skip(i as int), id@),
        decreases clocks.len() - i,
    {
        assert(clocks@.skip(i as int).drop_first() =~= clocks@.skip(i + 1));
        if text::eq(clocks[i].0.as_str(), id) {
            return clocks[i].1;
        }
        i = i + 1;
    }
    None
}

pub open spec fn owner_text(i: Issue) -> Seq<char> {
    match i.owner {
        Some(o) => o@,
        None => seq![],
    }
}

/// How long ago the issue was made.
pub open spec fn issue_age(i: Issue, now: i64) -> i64 {
    github::age_since(time::iso(i.created@), now)
}

fn issue_age_of(i: &Issue, now: i64) -> (r: i64)
    ensures
        r == issue_age(*i, now),
{
    match time::parse_iso(i.created.as_str()) {
        Some(t) => time::minus(now, t),
        None => 0,
    }
}

/// A row about an issue, for its owner.
pub open spec fn owned_row(
    i: Issue,
    rank: u8,
    kind: Seq<char>,
    title: Seq<char>,
    command: Seq<char>,
    now: i64,
) -> ItemView {
    needs::new_row(rank, kind, title, issue_age(i, now), i.project@, None, command).about(
        "issue"@,
        i.id@,
    ).for_agent(owner_text(i)).owned_by(Some(owner_text(i)))
}

fn owned_item(i: &Issue, rank: u8, kind: &str, title: &str, command: &str, now: i64) -> (r: Item)
    ensures
        r@ == owned_row(*i, rank, kind@, title@, command@, now),
{
    let owner = match &i.owner {
        Some(o) => o.clone(),
        None => String::new(),
    };
    item(rank, kind, title, issue_age_of(i, now), i.project.as_str(), None, command).about(
        "issue",
        i.id.as_str(),
    ).for_agent(owner.as_str()).owned_by(Some(owner.as_str()))
}

pub open spec fn any_begins(names: Seq<Seq<char>>, prefix: Seq<char>) -> bool {
    exists|k: int| 0 <= k < names.len() && text::begins(#[trigger] names[k], prefix)
}

/// An issue has an open PR: one named on it, or an open branch of its own.
pub open spec fn has_open_pr(i: Issue, branches: Seq<Seq<char>>) -> bool {
    i.open_pr_ref || any_begins(branches, i.branch_prefix@)
}

fn has_open_pr_of(i: &Issue, branches: &Vec<String>) -> (r: bool)
    ensures
        r == has_open_pr(*i, branches.deep_view()),
{
    if i.open_pr_ref {
        return true;
    }
    let ghost d = branches.deep_view();
    let mut k: usize = 0;
    while k < branches.len()
        invariant
            d == branches.deep_view(),
            k <= branches@.len(),
            forall|j: int| 0 <= j < k ==> !text::begins(#[trigger] d[j], i.branch_prefix@),
        decreases branches.len() - k,
    {
        assert(d[k as int] == branches@[k as int]@);
        if text::starts_with(branches[k].as_str(), i.branch_prefix.as_str()) {
            assert(text::begins(d[k as int], i.branch_prefix@));
            return true;
        }
        k = k + 1;
    }
    false
}

pub open spec fn lacks_pr(i: Issue, branches: Seq<Seq<char>>) -> bool {
    i.status@ == "review"@ && !has_open_pr(i, branches)
}

pub open spec fn review_row(
    i: Issue,
    branches: Seq<Seq<char>>,
    clocks: Seq<(String, Option<i64>)>,
    now: i64,
) -> Option<ItemView> {
    if lacks_pr(i, branches) {
        Some(
            owned_row(
                i,
                70,
                "review_no_pr"@,
                i.id@ + " in review with no open PR"@,
                "cadence issue show "@ + i.id@,
                now,
            ).since(clock(clocks, i.id@)),
        )
    } else {
        None
    }
}

fn review_item(i: &Issue, branches: &Vec<String>, clocks: &Clocks, now: i64) -> (r: Option<Item>)
    ensures
        agents::item_opt(r) == review_row(*i, branches.deep_view(), clocks@, now),
{
    if !text::eq(i.status.as_str(), "review") || has_open_pr_of(i, branches) {
        return None;
    }
    let title = i.id.clone().concat(" in review with no open PR");
    Some(
        owned_item(
            i,
            70,
            "review_no_pr",
            title.as_str(),
            cmd_issue_show(i.id.as_str()).as_str(),
            now,
        ).since(clock_of(clocks, i.id.as_str())),
    )
}

/// The last issue with an id.
pub open spec fn issue_of(issues: Seq<Issue>, id: Seq<char>) -> Option<int>
    decreases issues.len(),
{
    if issues.len() == 0 {
        None
    } else if issues.last().id@ == id {
        Some(issues.len() - 1)
    } else {
        issue_of(issues.drop_last(), id)
    }
}

fn issue_at(issues: &Vec<Issue>, id: &str) -> (r: Option<usize>)
    ensures
        match r {
            Some(k) => k < issues@.len() && issue_of(issues@, id@) == Some(k as int),
            None => issue_of(issues@, id@) is None,
        },
{
    let mut k: usize = issues.len();
    assert(issues@.take(k as int) =~= issues@);
    while k > 0
        invariant
            k <= issues@.len(),
            issue_of(issues@, id@) == issue_of(issues@.take(k as int), id@),
        decreases k,
    {
        assert(issues@.take(k as int).drop_last() =~= issues@.take(k - 1));
        k = k - 1;
        if text::eq(issues[k].id.as_str(), id) {
            return Some(k);
        }
    }
    None
}

pub open spec fn is_done(issues: Seq<Issue>, id: Seq<char>) -> bool {
    match issue_of(issues, id) {
        Some(k) => issues[k].status@ == "done"@,
        None => false,
    }
}

pub open spec fn closed(i: Issue) -> bool {
    i.status@ == "done"@ || i.status@ == "dropped"@
}

/// Open work that was blocked and whose blockers are all done.
pub open spec fn unblocked(i: Issue, issues: Seq<Issue>) -> bool {
    &&& !closed(i)
    &&& i.blocked_by@.len() > 0
    &&& forall|k: int|
        0 <= k < i.blocked_by@.len() ==> is_done(issues, (#[trigger] i.blocked_by@[k])@)
}

fn is_unblocked(i: &Issue, issues: &Vec<Issue>) -> (r: bool)
    ensures
        r == unblocked(*i, issues@),
{
    if text::eq(i.status.as_str(), "done") || text::eq(i.status.as_str(), "dropped")
        || i.blocked_by.len() == 0 {
        return false;
    }
    let mut k: usize = 0;
    while k < i.blocked_by.len()
        invariant
            !closed(*i),
            i.blocked_by@.len() > 0,
            k <= i.blocked_by@.len(),
            forall|j: int| 0 <= j < k ==> is_done(issues@, (#[trigger] i.blocked_by@[j])@),
        decreases i.blocked_by.len() - k,
    {
        let done = match issue_at(issues, i.blocked_by[k].as_str()) {
            Some(n) => text::eq(issues[n].status.as_str(), "done"),
            None => false,
        };
        if !done {
            assert(!is_done(issues@, i.blocked_by@[k as int]@));
            return false;
        }
        k = k + 1;
    }
    true
}

/// When the last of the blockers reached done; one without a clock leaves
/// none.
pub open spec fn unblocked_at(
    blockers: Seq<String>,
    clocks: Seq<(String, Option<i64>)>,
) -> Option<i64>
    decreases blockers.len(),
{
    if blockers.len() == 0 {
        None
    } else if blockers.len() == 1 {
        clock(clocks, blockers[0]@)
    } else {
        match (unblocked_at(blockers.drop_last(), clocks), clock(clocks, blockers.last()@)) {
            (Some(a), Some(b)) => Some(
                if a >= b {
                    a
                } else {
                    b
                },
            ),
            _ => None,
        }
    }
}

fn unblocked_since(blockers: &Vec<String>, clocks: &Clocks) -> (r: Option<i64>)
    ensures
        r == unblocked_at(blockers@, clocks@),
{
    if blockers.len() == 0 {
        return None;
    }
    let mut best = clock_of(clocks, blockers[0].as_str());
    let mut k: usize = 1;
    assert(blockers@.take(1).len() == 1);
    while k < blockers.len()
        invariant
            1 <= k <= blockers@.len(),
            best == unblocked_at(blockers@.take(k as int), clocks@),
        decreases blockers.len() - k,
    {
        assert(blockers@.take(k + 1).drop_last() =~= blockers@.take(k as int));
        best =
        match (best, clock_of(clocks, blockers[k].as_str())) {
            (Some(a), Some(b)) => Some(
                if a >= b {
                    a
                } else {
                    b
                },
            ),
            _ => None,
        };
        k = k + 1;
    }
    assert(blockers@.take(k as int) =~= blockers@);
    best
}

pub open spec fn ready_row(
    i: Issue,
    issues: Seq<Issue>,
    clocks: Seq<(String, Option<i64>)>,
    now: i64,
) -> Option<ItemView> {
    if unblocked(i, issues) {
        Some(
            owned_row(
                i,
                80,
                "blocked_ready"@,
                i.id@ + " unblocked — blockers all done"@,
                "cadence issue set "@ + i.id@ + " status=ready"@,
                now,
            ).since(unblocked_at(i.blocked_by@, clocks)),
        )
    } else {
        None
    }
}

fn ready_item(i: &Issue, issues: &Vec<Issue>, clocks: &Clocks, now: i64) -> (r: Option<Item>)
    ensures
        agents::item_opt(r) == ready_row(*i, issues@, clocks@, now),
{
    if !is_unblocked(i, issues) {
        return None;
    }
    let title = i.id.clone().concat(" unblocked — blockers all done");
    Some(
        owned_item(
            i,
            80,
            "blocked_ready",
            title.as_str(),
            cmd_issue_set_ready(i.id.as_str()).as_str(),
            now,
        ).since(unblocked_since(&i.blocked_by, clocks)),
    )
}

/// How long something has waited: since `t`, or as long as the issue has.
pub open spec fn waited(t: Option<int>, i: Issue, now: i64) -> i64 {
    match t {
        Some(t) => time::clamp(now - t),
        None => issue_age(i, now),
    }
}

/// A plan that waits for the operator's decision.
pub open spec fn plan_row(i: Issue, now: i64) -> Option<ItemView> {
    match i.plan {
        Some(p) => if p.state@ == "proposed"@ {
            let since = time::iso(p.proposed_at@);
            Some(
                needs::new_row(
                    25,
                    "plan"@,
                    i.id@ + " plan proposed by "@ + p.proposed_by@ + " — "@ + i.title@ + " ("@
                        + text::dec(p.tickets@.len()) + " tickets)"@,
                    waited(since, i, now),
                    i.project@,
                    None,
                    "cadence plan show "@ + i.id@ + " && cadence plan approve "@ + i.id@,
                ).about("issue"@, i.id@).since(github::int_opt(since)).with(
                    ExtraView::Plan {
                        epic: i.id@,
                        proposed_by: p.proposed_by@,
                        tickets: p.tickets.deep_view(),
                    },
                ),
            )
        } else {
            None
        },
        None => None,
    }
}

fn waited_of(t: Option<i64>, i: &Issue, now: i64) -> (r: i64)
    ensures
        r == waited(github::opt_int(t), *i, now),
{
    match t {
        Some(t) => time::minus(now, t),
        None => issue_age_of(i, now),
    }
}

fn plan_item(i: &Issue, now: i64) -> (r: Option<Item>)
    ensures
        agents::item_opt(r) == plan_row(*i, now),
{
    match &i.plan {
        Some(p) => {
            if !text::eq(p.state.as_str(), "proposed") {
                return None;
            }
            let since = time::parse_iso(p.proposed_at.as_str());
            let title = i.id.clone().concat(" plan proposed by ").concat(
                p.proposed_by.as_str(),
            ).concat(" — ").concat(i.title.as_str()).concat(" (").concat(
                text::dec_of(p.tickets.len() as u64).as_str(),
            ).concat(" tickets)");
            let command = "cadence plan show ".to_owned().concat(i.id.as_str()).concat(
                " && cadence plan approve ",
            ).concat(i.id.as_str());
            Some(
                item(
                    25,
                    "plan",
                    title.as_str(),
                    waited_of(since, i, now),
                    i.project.as_str(),
                    None,
                    command.as_str(),
                ).about("issue", i.id.as_str()).since(since).with(
                    Extra::Plan(
                        PlanInfo {
                            epic: i.id.clone(),
                            proposed_by: p.proposed_by.clone(),
                            tickets: text::copy_names(&p.tickets),
                        },
                    ),
                ),
            )
        },
        None => None,
    }
}

// ---------- escalations ----------

/// The entry of the escalation record for a question of an issue.
pub open spec fn escalation(record: JsonView, id: Seq<char>, name: Seq<char>) -> Option<JsonView> {
    match json::field(record, id + "/"@ + name) {
        Some(JsonView::Obj(m)) => Some(JsonView::Obj(m)),
        _ => None,
    }
}

pub open spec fn raised(record: JsonView, id: Seq<char>) -> spec_fn(QuestionView) -> bool {
    |q: QuestionView| escalation(record, id, q.name) is Some
}

/// The question with what its record says.
pub open spec fn with_record(record: JsonView, id: Seq<char>, q: QuestionView) -> QuestionView {
    QuestionView {
        summary: github::field_or_null(escalation(record, id, q.name)->0, "summary"@),
        escalated_by: github::field_or_null(escalation(record, id, q.name)->0, "by"@),
        ..q
    }
}

fn value_under(j: &Json, k: &str) -> (r: Json)
    ensures
        r@ == github::field_or_null(j@, k@),
{
    match j.get(k) {
        Some(v) => json::copy(v),
        None => Json::Null,
    }
}

/// The open questions of an issue that were escalated: those with an
/// object in the record, with what it says of them. A report alone never
/// puts a question before the operator.
pub fn escalated(id: &str, open: Vec<Question>, record: &Json) -> (r: Vec<Question>)
    ensures
        question_views(r@) == question_views(open@).filter(raised(record@, id@)).map_values(
            |q: QuestionView| with_record(record@, id@, q),
        ),
{
    let ghost all = question_views(open@);
    let ghost given = open@;
    let ghost f = raised(record@, id@);
    let ghost fill = |q: QuestionView| with_record(record@, id@, q);
    let mut out: Vec<Question> = Vec::new();
    proof {
        reveal(Seq::filter);
        assert(all.take(0) =~= Seq::empty());
        assert(question_views(out@) =~= all.take(0).filter(f).map_values(fill));
    }
    for q in it: open
        invariant
            it.seq() == given,
            all == question_views(given),
            f == raised(record@, id@),
            fill == (|q: QuestionView| with_record(record@, id@, q)),
            question_views(out@) == all.take(it.index()).filter(f).map_values(fill),
    {
        let ghost n = it.index();
        let ghost before = question_views(out@);
        let ghost qv = q@;
        proof {
            reveal(Seq::filter);
            assert(all.take(n + 1).drop_last() =~= all.take(n));
            assert(all.take(n + 1).last() == qv);
        }
        let key = id.to_owned().concat("/").concat(q.name.as_str());
        if let Some(up) = record.get(key.as_str()) {
            if matches!(up, Json::Obj(_)) {
                let mut q = q;
                q.summary = value_under(up, "summary");
                q.escalated_by = value_under(up, "by");
                assert(q@ == with_record(record@, id@, qv));
                out.push(q);
                assert(question_views(out@) =~= before.push(fill(qv)));
                assert(all.take(n).filter(f).push(qv).map_values(fill) =~= all.take(n).filter(
                    f,
                ).map_values(fill).push(fill(qv)));
            }
        }
    }
    assert(all.take(all.len() as int) =~= all);
    out
}

pub open spec fn asked_at(q: Question) -> Option<int> {
    match q.at {
        Some(a) => time::iso(a@),
        None => None,
    }
}

/// A question that the master escalated, with its summary and options.
pub open spec fn question_row(i: Issue, q: Question, now: i64) -> ItemView {
    needs::new_row(
        20,
        "question"@,
        i.id@ + " question from "@ + q.agent@ + " — "@ + q.impact@,
        waited(asked_at(q), i, now),
        i.project@,
        None,
        "cadence issue show "@ + i.id@ + "  # answer: cadence report file --task "@ + i.id@
            + " --kind answer (answers: "@ + q.name@ + ")"@,
    ).about("report"@, i.id@ + "/"@ + q.name@).for_agent(q.agent@).since(
        github::int_opt(asked_at(q)),
    ).with(
        ExtraView::Question {
            issue: i.id@,
            report: q.name@,
            agent: q.agent@,
            impact: q.impact@,
            body: q.body@,
            options: q.options.deep_view(),
            summary: q.summary@,
            escalated_by: q.escalated_by@,
        },
    )
}

fn question_item(i: &Issue, q: &Question, now: i64) -> (r: Item)
    ensures
        r@ == question_row(*i, *q, now),
{
    let since = match &q.at {
        Some(a) => time::parse_iso(a.as_str()),
        None => None,
    };
    let title = i.id.clone().concat(" question from ").concat(q.agent.as_str()).concat(
        " — ",
    ).concat(q.impact.as_str());
    let command = "cadence issue show ".to_owned().concat(i.id.as_str()).concat(
        "  # answer: cadence report file --task ",
    ).concat(i.id.as_str()).concat(" --kind answer (answers: ").concat(q.name.as_str()).concat(")");
    let subject = i.id.clone().concat("/").concat(q.name.as_str());
    item(
        20,
        "question",
        title.as_str(),
        waited_of(since, i, now),
        i.project.as_str(),
        None,
        command.as_str(),
    ).about("report", subject.as_str()).for_agent(q.agent.as_str()).since(since).with(
        Extra::Question(
            QuestionInfo {
                issue: i.id.clone(),
                report: q.name.clone(),
                agent: q.agent.clone(),
                impact: q.impact.clone(),
                body: q.body.clone(),
                options: text::copy_names(&q.options),
                summary: json::copy(&q.summary),
                escalated_by: json::copy(&q.escalated_by),
            },
        ),
    )
}

/// The rows of one issue, but for triage.
pub open spec fn issue_rows(
    i: Issue,
    issues: Seq<Issue>,
    branches: Seq<Seq<char>>,
    clocks: Seq<(String, Option<i64>)>,
    now: i64,
) -> Seq<ItemView> {
    agents::opt_row(review_row(i, branches, clocks, now)) + agents::opt_row(
        ready_row(i, issues, clocks, now),
    ) + agents::opt_row(plan_row(i, now)) + i.questions@.map_values(
        |q: Question| question_row(i, q, now),
    )
}

pub open spec fn rows_upto(
    issues: Seq<Issue>,
    n: int,
    branches: Seq<Seq<char>>,
    clocks: Seq<(String, Option<i64>)>,
    now: i64,
) -> Seq<ItemView>
    decreases n,
{
    if n <= 0 {
        seq![]
    } else {
        rows_upto(issues, n - 1, branches, clocks, now) + issue_rows(
            issues[n - 1],
            issues,
            branches,
            clocks,
            now,
        )
    }
}

// ---------- triage ----------

/// A report that nobody triaged: tagged for intake and still in backlog.
pub open spec fn untriaged(i: Issue) -> bool {
    i.status@ == "backlog"@ && i.tags.deep_view().contains("intake"@)
}

/// The first tag that is not `intake`.
pub open spec fn other_tag(tags: Seq<Seq<char>>) -> Option<Seq<char>>
    decreases tags.len(),
{
    if tags.len() == 0 {
        None
    } else if tags[0] != "intake"@ {
        Some(tags[0])
    } else {
        other_tag(tags.drop_first())
    }
}

pub open spec fn report_kind(i: Issue) -> Seq<char> {
    match i.kind {
        Some(k) => k@,
        None => match other_tag(i.tags.deep_view()) {
            Some(t) => t,
            None => "intake"@,
        },
    }
}

fn report_kind_of(i: &Issue) -> (r: String)
    ensures
        r@ == report_kind(*i),
{
    if let Some(k) = &i.kind {
        return k.clone();
    }
    let ghost d = i.tags.deep_view();
    let mut n: usize = 0;
    assert(d.skip(0) =~= d);
    while n < i.tags.len()
        invariant
            i.kind is None,
            d == i.tags.deep_view(),
            n <= i.tags@.len(),
            other_tag(d) == other_tag(d.skip(n as int)),
        decreases i.tags.len() - n,
    {
        assert(d.skip(n as int)[0] == i.tags@[n as int]@);
        assert(d.skip(n as int).drop_first() =~= d.skip(n + 1));
        if !text::eq(i.tags[n].as_str(), "intake") {
            return i.tags[n].clone();
        }
        n = n + 1;
    }
    "intake".to_owned()
}

pub open spec fn intake_row(i: Issue, now: i64) -> ItemView {
    owned_row(
        i,
        85,
        "intake"@,
        i.id@ + " "@ + report_kind(i) + " report — "@ + i.title@,
        "cadence report show "@ + i.id@,
        now,
    )
}

pub open spec fn intake_rows(issues: Seq<Issue>, now: i64) -> Seq<ItemView>
    decreases issues.len(),
{
    if issues.len() == 0 {
        seq![]
    } else if untriaged(issues.last()) {
        intake_rows(issues.drop_last(), now).push(intake_row(issues.last(), now))
    } else {
        intake_rows(issues.drop_last(), now)
    }
}

pub open spec fn oldest_first() -> spec_fn(ItemView, ItemView) -> bool {
    |a: ItemView, b: ItemView| a.age >= b.age
}

/// The reports that surface: the oldest, at most `cap`.
pub open spec fn surfaced(issues: Seq<Issue>, now: i64, cap: nat) -> Seq<ItemView> {
    let all = order::sorted(intake_rows(issues, now), oldest_first());
    if all.len() > cap {
        all.take(cap as int)
    } else {
        all
    }
}

pub open spec fn overflow_row(extra: nat) -> ItemView {
    needs::new_row(
        85,
        "intake"@,
        "… "@ + text::dec(extra) + " more intake reports"@,
        0,
        seq![],
        None,
        "cadence report ls"@,
    ).about("report"@, "intake-overflow"@)
}

/// The block of reports to triage: those that surface, each with its
/// clock, and one row for the rest.
pub open spec fn intake_block(
    issues: Seq<Issue>,
    clocks: Seq<(String, Option<i64>)>,
    now: i64,
    cap: nat,
) -> Seq<ItemView> {
    let kept = surfaced(issues, now, cap).map_values(
        |r: ItemView| r.since(clock(clocks, r.subject.1)),
    );
    let total = intake_rows(issues, now).len();
    if total > cap {
        kept.push(overflow_row((total - cap) as nat))
    } else {
        kept
    }
}

fn surface(issues: &Vec<Issue>, now: i64, cap: usize) -> (r: (Vec<Item>, usize))
    ensures
        needs::views(r.0@) == surfaced(issues@, now, cap as nat),
        r.1 == intake_rows(issues@, now).len(),
{
    let ghost le = oldest_first();
    let mut out: Vec<Item> = Vec::new();
    let mut i: usize = 0;
    assert(intake_rows(issues@.take(0), now) =~= Seq::empty());
    assert(needs::views(out@) =~= Seq::empty());
    while i < issues.len()
        invariant
            le == oldest_first(),
            i <= issues@.len(),
            needs::views(out@) == order::sorted(intake_rows(issues@.take(i as int), now), le),
            out@.len() == intake_rows(issues@.take(i as int), now).len(),
        decreases issues.len() - i,
    {
        let ghost before = intake_rows(issues@.take(i as int), now);
        assert(issues@.take(i + 1).drop_last() =~= issues@.take(i as int));
        let x = &issues[i];
        if text::eq(x.status.as_str(), "backlog") && text::has_name(&x.tags, "intake") {
            let title = x.id.clone().concat(" ").concat(report_kind_of(x).as_str()).concat(
                " report — ",
            ).concat(x.title.as_str());
            let command = "cadence report show ".to_owned().concat(x.id.as_str());
            let row = owned_item(x, 85, "intake", title.as_str(), command.as_str(), now);
            let ghost rv = row@;
            let ghost o = needs::views(out@);
            assert(before.push(rv).drop_last() =~= before);
            let mut k: usize = out.len();
            while k > 0 && out[k - 1].age < row.age
                invariant
                    le == oldest_first(),
                    o == needs::views(out@),
                    rv == row@,
                    k <= out@.len(),
                    forall|j: int| k <= j < o.len() ==> !le(#[trigger] o[j], rv),
                decreases k,
            {
                assert(o[k - 1] == out@[k - 1]@);
                k = k - 1;
            }
            proof {
                if k > 0 {
                    assert(o[k - 1] == out@[k - 1]@);
                }
                order::insert_at(o, rv, le, k as int);
            }
            out.insert(k, row);
            assert(needs::views(out@) =~= o.insert(k as int, rv));
        }
        i = i + 1;
    }
    assert(issues@.take(i as int) =~= issues@);
    let total = out.len();
    let ghost all = needs::views(out@);
    if total > cap {
        out.truncate(cap);
        assert(needs::views(out@) =~= all.take(cap as int));
    }
    (out, total)
}

// ---------- all of it ----------

/// The issues whose clocks the rows need, in the order in which they are
/// read.
pub open spec fn clocks_upto(issues: Seq<Issue>, n: int, branches: Seq<Seq<char>>) -> Seq<Seq<char>>
    decreases n,
{
    if n <= 0 {
        seq![]
    } else {
        let i = issues[n - 1];
        clocks_upto(issues, n - 1, branches) + (if lacks_pr(i, branches) {
            seq![i.id@]
        } else {
            seq![]
        }) + (if unblocked(i, issues) {
            i.blocked_by.deep_view()
        } else {
            seq![]
        })
    }
}

pub open spec fn subjects(v: Seq<ItemView>) -> Seq<Seq<char>> {
    v.map_values(|r: ItemView| r.subject.1)
}

/// The issues whose status clocks are worth reading: only those of rows
/// that surface.
pub fn clock_ids(issues: &Vec<Issue>, branches: &Vec<String>, now: i64, cap: usize) -> (r: Vec<
    String,
>)
    ensures
        r.deep_view() == clocks_upto(issues@, issues@.len() as int, branches.deep_view())
            + subjects(surfaced(issues@, now, cap as nat)),
{
    let ghost br = branches.deep_view();
    let mut out: Vec<String> = Vec::new();
    let mut i: usize = 0;
    assert(out.deep_view() =~= clocks_upto(issues@, 0, br));
    while i < issues.len()
        invariant
            br == branches.deep_view(),
            i <= issues@.len(),
            out.deep_view() == clocks_upto(issues@, i as int, br),
        decreases issues.len() - i,
    {
        let x = &issues[i];
        let ghost before = out.deep_view();
        let ghost own = if lacks_pr(*x, br) {
            seq![x.id@]
        } else {
            seq![]
        };
        if text::eq(x.status.as_str(), "review") && !has_open_pr_of(x, branches) {
            out.push(x.id.clone());
        }
        assert(out.deep_view() =~= before + own);
        if is_unblocked(x, issues) {
            let ghost bl = x.blocked_by.deep_view();
            let mut k: usize = 0;
            assert(before + own + bl.take(0) =~= before + own);
            while k < x.blocked_by.len()
                invariant
                    bl == x.blocked_by.deep_view(),
                    k <= x.blocked_by@.len(),
                    out.deep_view() == before + own + bl.take(k as int),
                decreases x.blocked_by.len() - k,
            {
                let ghost o = out.deep_view();
                out.push(x.blocked_by[k].clone());
                assert(out.deep_view() =~= o.push(bl[k as int]));
                assert(before + own + bl.take(k + 1) =~= o.push(bl[k as int]));
                k = k + 1;
            }
            assert(bl.take(k as int) =~= bl);
        } else {
            assert(before + own + Seq::<Seq<char>>::empty() =~= before + own);
        }
        i = i + 1;
    }
    let (kept, total) = surface(issues, now, cap);
    let ghost head = out.deep_view();
    let ghost all = subjects(needs::views(kept@));
    let mut k: usize = 0;
    assert(head + all.take(0) =~= head);
    while k < kept.len()
        invariant
            all == subjects(needs::views(kept@)),
            k <= kept@.len(),
            out.deep_view() == head + all.take(k as int),
        decreases kept.len() - k,
    {
        let ghost o = out.deep_view();
        out.push(kept[k].subject_id.clone());
        assert(out.deep_view() =~= o.push(all[k as int]));
        assert(head + all.take(k + 1) =~= o.push(all[k as int]));
        k = k + 1;
    }
    assert(all.take(k as int) =~= all);
    out
}

fn push_questions(out: &mut Vec<Item>, x: &Issue, now: i64)
    ensures
        needs::views(final(out)@) == needs::views(old(out)@) + x.questions@.map_values(
            |q: Question| question_row(*x, q, now),
        ),
{
    let ghost head = needs::views(out@);
    let ghost qs = x.questions@.map_values(|q: Question| question_row(*x, q, now));
    let mut k: usize = 0;
    assert(head + qs.take(0) =~= head);
    while k < x.questions.len()
        invariant
            qs == x.questions@.map_values(|q: Question| question_row(*x, q, now)),
            k <= x.questions@.len(),
            needs::views(out@) == head + qs.take(k as int),
        decreases x.questions.len() - k,
    {
        let ghost o = out@;
        let q = question_item(x, &x.questions[k], now);
        out.push(q);
        proof {
            needs::views_push(o, q);
        }
        assert(head + qs.take(k + 1) =~= needs::views(o).push(qs[k as int]));
        k = k + 1;
    }
    assert(qs.take(k as int) =~= qs);
}

proof fn five(a: Seq<ItemView>, b: Seq<ItemView>, c: Seq<ItemView>, d: Seq<ItemView>, e: Seq<ItemView>)
    ensures
        a + b + c + d + e == a + (b + c + d + e),
{
    assert(a + b + c + d + e =~= a + (b + c + d + e));
}

fn push_issue(
    out: &mut Vec<Item>,
    x: &Issue,
    issues: &Vec<Issue>,
    branches: &Vec<String>,
    clocks: &Clocks,
    now: i64,
)
    ensures
        needs::views(final(out)@) == needs::views(old(out)@) + issue_rows(
            *x,
            issues@,
            branches.deep_view(),
            clocks@,
            now,
        ),
{
    let ghost before = needs::views(out@);
    let review = review_item(x, branches, clocks, now);
    let ghost b = agents::opt_row(agents::item_opt(review));
    push_row(out, review);
    let ready = ready_item(x, issues, clocks, now);
    let ghost c = agents::opt_row(agents::item_opt(ready));
    push_row(out, ready);
    let plan = plan_item(x, now);
    let ghost d = agents::opt_row(agents::item_opt(plan));
    push_row(out, plan);
    push_questions(out, x, now);
    proof {
        five(before, b, c, d, x.questions@.map_values(|q: Question| question_row(*x, q, now)));
    }
}

/// The rows that the tracker raises.
pub fn tracker_items(
    issues: &Vec<Issue>,
    branches: &Vec<String>,
    clocks: &Clocks,
    now: i64,
    cap: usize,
) -> (r: Vec<Item>)
    ensures
        needs::views(r@) == rows_upto(
            issues@,
            issues@.len() as int,
            branches.deep_view(),
            clocks@,
            now,
        ) + intake_block(issues@, clocks@, now, cap as nat),
{
    let ghost br = branches.deep_view();
    let mut out: Vec<Item> = Vec::new();
    let mut i: usize = 0;
    assert(needs::views(out@) =~= rows_upto(issues@, 0, br, clocks@, now));
    while i < issues.len()
        invariant
            br == branches.deep_view(),
            i <= issues@.len(),
            needs::views(out@) == rows_upto(issues@, i as int, br, clocks@, now),
        decreases issues.len() - i,
    {
        let x = &issues[i];
        push_issue(&mut out, x, issues, branches, clocks, now);
        i = i + 1;
    }
    let ghost head = needs::views(out@);
    let (kept, total) = surface(issues, now, cap);
    let ghost sv = needs::views(kept@);
    let ghost timed = sv.map_values(|r: ItemView| r.since(clock(clocks@, r.subject.1)));
    assert(head + timed.take(0) =~= head);
    for row in it: kept
        invariant
            it.seq() == kept@,
            sv == needs::views(kept@),
            timed == sv.map_values(|r: ItemView| r.since(clock(clocks@, r.subject.1))),
            needs::views(out@) == head + timed.take(it.index()),
    {
        let ghost n = it.index();
        assert(sv[n as int] == row@);
        let ghost o = out@;
        let at = clock_of(clocks, row.subject_id.as_str());
        let y = row.since(at);
        assert(y@ == timed[n as int]);
        out.push(y);
        proof {
            needs::views_push(o, y);
        }
        assert(head + timed.take(n + 1) =~= needs::views(o).push(timed[n as int]));
    }
    assert(timed.take(timed.len() as int) =~= timed);
    if total > cap {
        let extra = total - cap;
        let title = "… ".to_owned().concat(text::dec_of(extra as u64).as_str()).concat(
            " more intake reports",
        );
        let empty = String::new();
        let row = item(85, "intake", title.as_str(), 0, empty.as_str(), None, "cadence report ls").about(
            "report",
            "intake-overflow",
        );
        assert(empty@ =~= seq![]);
        let ghost o = out@;
        out.push(row);
        proof {
            needs::views_push(o, row);
        }
        assert(needs::views(out@) =~= head + timed.push(overflow_row(extra as nat)));
    }
    out
}

/// The row of a tracker that is behind its upstream.
pub fn tracker_behind_item(behind: i64) -> (r: Option<Item>)
    ensures
        agents::item_opt(r) == if behind > 0 {
            Some(
                needs::new_row(
                    110,
                    "tracker_behind"@,
                    "tracker "@ + text::dec(behind as nat) + " commit(s) behind upstream"@,
                    0,
                    seq![],
                    None,
                    CMD_ISSUE_SYNC@,
                ).about("tracker"@, "pm"@),
            )
        } else {
            None
        },
{
    if behind <= 0 {
        return None;
    }
    let title = "tracker ".to_owned().concat(text::dec_of(behind as u64).as_str()).concat(
        " commit(s) behind upstream",
    );
    let empty = String::new();
    assert(empty@ =~= seq![]);
    Some(
        item(110, "tracker_behind", title.as_str(), 0, empty.as_str(), None, CMD_ISSUE_SYNC).about(
            "tracker",
            "pm",
        ),
    )
}

// ---------- the tile of a project ----------

/// Open work of a project.
pub open spec fn open_in(i: Issue, project: Seq<char>) -> bool {
    i.project@ == project && !closed(i)
}

/// The statuses of a project's open work.
pub open spec fn open_statuses(issues: Seq<Issue>, project: Seq<char>) -> Seq<Seq<char>>
    decreases issues.len(),
{
    if issues.len() == 0 {
        seq![]
    } else if open_in(issues.last(), project) {
        open_statuses(issues.drop_last(), project).push(issues.last().status@)
    } else {
        open_statuses(issues.drop_last(), project)
    }
}

pub open spec fn times_in(v: Seq<Seq<char>>, s: Seq<char>) -> nat
    decreases v.len(),
{
    if v.len() == 0 {
        0
    } else {
        times_in(v.drop_last(), s) + (if v.last() == s {
            1nat
        } else {
            0
        })
    }
}

/// The age of the oldest work in review.
pub open spec fn oldest_review(issues: Seq<Issue>, project: Seq<char>, now: i64) -> Option<i64>
    decreases issues.len(),
{
    if issues.len() == 0 {
        None
    } else {
        let before = oldest_review(issues.drop_last(), project, now);
        let i = issues.last();
        if open_in(i, project) && i.status@ == "review"@ {
            let age = issue_age(i, now);
            match before {
                Some(o) if o >= age => before,
                _ => Some(age),
            }
        } else {
            before
        }
    }
}

/// Work that someone holds, in progress.
pub open spec fn claimed(i: Issue, project: Seq<char>) -> bool {
    open_in(i, project) && (i.status@ == "doing"@ || i.status@ == "review"@) && i.held
}

/// What a project's tile shows.
#[derive(Debug)]
pub struct ProjectTile {
    pub key: String,
    /// How much open work stands in each status, by status.
    pub open_by_status: Vec<(String, usize)>,
    pub oldest_review_age: Option<i64>,
    /// The issues with a claim, by position.
    pub claims: Vec<usize>,
}

fn count_of(v: &Vec<String>, s: &str) -> (r: usize)
    ensures
        r == times_in(v.deep_view(), s@),
{
    let ghost d = v.deep_view();
    let mut n: usize = 0;
    let mut i: usize = 0;
    assert(d.take(0) =~= Seq::empty());
    while i < v.len()
        invariant
            d == v.deep_view(),
            i <= v@.len(),
            n <= i,
            n == times_in(d.take(i as int), s@),
        decreases v.len() - i,
    {
        assert(d.take(i + 1).drop_last() =~= d.take(i as int));
        assert(d.take(i + 1).last() == v@[i as int]@);
        if text::eq(v[i].as_str(), s) {
            n = n + 1;
        }
        i = i + 1;
    }
    assert(d.take(i as int) =~= d);
    n
}

/// The issues that someone works on, by position.
fn claims_of(key: &str, issues: &Vec<Issue>) -> (r: Vec<usize>)
    ensures
        forall|k: int|
            0 <= k < r@.len() ==> (#[trigger] r@[k]) < issues@.len() && claimed(
                issues@[r@[k] as int],
                key@,
            ),
        forall|i: int|
            0 <= i < issues@.len() && claimed(#[trigger] issues@[i], key@) ==> r@.contains(
                i as usize,
            ),
        forall|a: int, b: int| 0 <= a < b < r@.len() ==> r@[a] < r@[b],
{
    let mut claims: Vec<usize> = Vec::new();
    let mut i: usize = 0;
    while i < issues.len()
        invariant
            i <= issues@.len(),
            forall|k: int|
                0 <= k < claims@.len() ==> (#[trigger] claims@[k]) < i && claimed(
                    issues@[claims@[k] as int],
                    key@,
                ),
            forall|j: int|
                0 <= j < i && claimed(#[trigger] issues@[j], key@) ==> claims@.contains(j as usize),
            forall|a: int, b: int| 0 <= a < b < claims@.len() ==> claims@[a] < claims@[b],
        decreases issues.len() - i,
    {
        let x = &issues[i];
        let ghost c0 = claims@;
        if text::eq(x.project.as_str(), key) && x.held && (text::eq(x.status.as_str(), "doing")
            || text::eq(x.status.as_str(), "review")) {
            proof {
                reveal_strlit("doing");
                reveal_strlit("review");
                reveal_strlit("done");
                reveal_strlit("dropped");
                assert("doing"@.len() == 5 && "review"@.len() == 6);
                assert("done"@.len() == 4 && "dropped"@.len() == 7);
            }
            claims.push(i);
            assert(claims@[claims@.len() - 1] == i);
            assert forall|j: int| 0 <= j < i && claimed(#[trigger] issues@[j], key@) implies claims@.contains(
                j as usize,
            ) by {
                let k = choose|k: int| 0 <= k < c0.len() && c0[k] == j as usize;
                assert(claims@[k] == j as usize);
            }
        }
        i = i + 1;
    }
    claims
}

/// The tile of a project.
pub fn project_tile(key: &str, issues: &Vec<Issue>, now: i64) -> (r: ProjectTile)
    ensures
        r.key@ == key@,
        ({
            let all = open_statuses(issues@, key@);
            let names = text::name_set(all);
            &&& r.open_by_status@.len() == names.len()
            &&& forall|k: int|
                0 <= k < names.len() ==> (#[trigger] r.open_by_status@[k]).0@ == names[k]
                    && r.open_by_status@[k].1 == times_in(all, names[k])
        }),
        r.oldest_review_age == oldest_review(issues@, key@, now),
        forall|k: int|
            0 <= k < r.claims@.len() ==> (#[trigger] r.claims@[k]) < issues@.len() && claimed(
                issues@[r.claims@[k] as int],
                key@,
            ),
        forall|i: int|
            0 <= i < issues@.len() && claimed(#[trigger] issues@[i], key@) ==> r.claims@.contains(
                i as usize,
            ),
        forall|a: int, b: int|
            0 <= a < b < r.claims@.len() ==> r.claims@[a] < r.claims@[b],
{
    let mut statuses: Vec<String> = Vec::new();
    let mut names: Vec<String> = Vec::new();
    let mut oldest: Option<i64> = None;
    let mut i: usize = 0;
    assert(statuses.deep_view() =~= open_statuses(issues@.take(0), key@));
    assert(names.deep_view() =~= text::name_set(statuses.deep_view()));
    assert(issues@.take(0) =~= Seq::empty());
    while i < issues.len()
        invariant
            i <= issues@.len(),
            statuses.deep_view() == open_statuses(issues@.take(i as int), key@),
            names.deep_view() == text::name_set(statuses.deep_view()),
            text::increasing(names.deep_view()),
            oldest == oldest_review(issues@.take(i as int), key@, now),
        decreases issues.len() - i,
    {
        assert(issues@.take(i + 1).drop_last() =~= issues@.take(i as int));
        let x = &issues[i];
        if text::eq(x.project.as_str(), key) && !text::eq(x.status.as_str(), "done") && !text::eq(
            x.status.as_str(),
            "dropped",
        ) {
            let ghost s0 = statuses.deep_view();
            statuses.push(x.status.clone());
            assert(statuses.deep_view() =~= s0.push(x.status@));
            assert(statuses.deep_view().drop_last() =~= s0);
            text::insert_name(&mut names, x.status.as_str());
            if text::eq(x.status.as_str(), "review") {
                let age: i64 = issue_age_of(x, now);
                oldest =
                match oldest {
                    Some(o) => if o >= age {
                        Some(o)
                    } else {
                        Some(age)
                    },
                    None => Some(age),
                };
            }
        }
        i = i + 1;
    }
    assert(issues@.take(i as int) =~= issues@);
    let ghost nv = names.deep_view();
    let mut open_by_status: Vec<(String, usize)> = Vec::new();
    let mut k: usize = 0;
    while k < names.len()
        invariant
            nv == names.deep_view(),
            k <= names@.len(),
            open_by_status@.len() == k,
            forall|j: int|
                0 <= j < k ==> (#[trigger] open_by_status@[j]).0@ == nv[j] && open_by_status@[j].1
                    == times_in(statuses.deep_view(), nv[j]),
        decreases names.len() - k,
    {
        let n = count_of(&statuses, names[k].as_str());
        open_by_status.push((names[k].clone(), n));
        k = k + 1;
    }
    ProjectTile {
        key: key.to_owned(),
        open_by_status,
        oldest_review_age: oldest,
        claims: claims_of(key, issues),
    }
}

// ---------- laws ----------

/// A report leaves the block only by triage: once its status is no longer
/// backlog it raises no row.
pub proof fn triage_clears_a_report(i: Issue)
    requires
        i.status@ != "backlog"@,
    ensures
        !untriaged(i),
{
}

/// The block of reports never buries real work: at most `cap` rows and one
/// for the rest.
pub proof fn intake_is_capped(
    issues: Seq<Issue>,
    clocks: Seq<(String, Option<i64>)>,
    now: i64,
    cap: nat,
)
    ensures
        intake_block(issues, clocks, now, cap).len() <= cap + 1,
        intake_rows(issues, now).len() <= cap ==> intake_block(issues, clocks, now, cap).len()
            == intake_rows(issues, now).len(),
{
    order::sorted_is_a_sort(intake_rows(issues, now), oldest_first());
}

} // verus!
