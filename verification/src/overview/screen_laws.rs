//! What reaches the operator's screen, told by what the sources hold.
use crate::overview::agents;
use crate::overview::delivery;
use crate::overview::delivery::Record;
use crate::overview::deploy::RepoLine;
use crate::overview::github::BranchIssue;
use crate::overview::needs;
use crate::overview::needs::{ItemView, Owners};
use crate::overview::screen;
use crate::overview::screen::{AgentIn, GhIn, Sources, TrackerIn};
use crate::overview::tracker;
use crate::overview::tracker::Issue;
use crate::order;
use crate::text;
use vstd::prelude::*;

verus! {

/// A row of a kind is among some rows, with its rank, its subject and its
/// command.
pub open spec fn has(
    rows: Seq<ItemView>,
    rank: u8,
    kind: Seq<char>,
    subject: (Seq<char>, Seq<char>),
    command: Seq<char>,
) -> bool {
    exists|i: int|
        0 <= i < rows.len() && (#[trigger] rows[i]).kind == kind && rows[i].rank == rank
            && rows[i].command == command && rows[i].subject == subject
}

proof fn has_row(rows: Seq<ItemView>, r: ItemView)
    requires
        rows.contains(r),
    ensures
        has(rows, r.rank, r.kind, r.subject, r.command),
{
    let i = choose|i: int| 0 <= i < rows.len() && rows[i] == r;
    assert(rows[i].kind == r.kind);
}

proof fn in_sum(x: Seq<ItemView>, y: Seq<ItemView>, r: ItemView)
    ensures
        (x + y).contains(r) <==> x.contains(r) || y.contains(r),
{
    if (x + y).contains(r) {
        let i = choose|i: int| 0 <= i < (x + y).len() && (x + y)[i] == r;
        if i < x.len() {
            assert(x[i] == r);
        } else {
            assert(y[i - x.len()] == r);
        }
    }
    if x.contains(r) {
        let i = choose|i: int| 0 <= i < x.len() && x[i] == r;
        assert((x + y)[i] == r);
    }
    if y.contains(r) {
        let i = choose|i: int| 0 <= i < y.len() && y[i] == r;
        assert((x + y)[x.len() + i] == r);
    }
}

proof fn in_opt(o: Option<ItemView>, r: ItemView)
    ensures
        agents::opt_row(o).contains(r) <==> o == Some(r),
{
    if o is Some {
        assert(agents::opt_row(o)[0] == o->0);
    }
}

// ---------- the tracker ----------

proof fn in_issue_rows(
    i: Issue,
    issues: Seq<Issue>,
    branches: Seq<Seq<char>>,
    clocks: Seq<(String, Option<i64>)>,
    now: i64,
    r: ItemView,
)
    ensures
        tracker::issue_rows(i, issues, branches, clocks, now).contains(r) <==> {
            ||| tracker::review_row(i, branches, clocks, now) == Some(r)
            ||| tracker::ready_row(i, issues, clocks, now) == Some(r)
            ||| tracker::plan_row(i, now) == Some(r)
            ||| exists|k: int|
                0 <= k < i.questions@.len() && tracker::question_row(
                    i,
                    #[trigger] i.questions@[k],
                    now,
                ) == r
        },
{
    let a = tracker::review_row(i, branches, clocks, now);
    let b = tracker::ready_row(i, issues, clocks, now);
    let c = tracker::plan_row(i, now);
    let q = i.questions@.map_values(|q: tracker::Question| tracker::question_row(i, q, now));
    in_opt(a, r);
    in_opt(b, r);
    in_opt(c, r);
    in_sum(agents::opt_row(a), agents::opt_row(b), r);
    in_sum(agents::opt_row(a) + agents::opt_row(b), agents::opt_row(c), r);
    in_sum(agents::opt_row(a) + agents::opt_row(b) + agents::opt_row(c), q, r);
    if q.contains(r) {
        let k = choose|k: int| 0 <= k < q.len() && q[k] == r;
        assert(tracker::question_row(i, i.questions@[k], now) == r);
    }
    if exists|k: int|
        0 <= k < i.questions@.len() && tracker::question_row(i, #[trigger] i.questions@[k], now)
            == r {
        let k = choose|k: int|
            0 <= k < i.questions@.len() && tracker::question_row(
                i,
                #[trigger] i.questions@[k],
                now,
            ) == r;
        assert(q[k] == r);
    }
}

#[verifier::opaque]
spec fn raises(
    issues: Seq<Issue>,
    k: int,
    branches: Seq<Seq<char>>,
    clocks: Seq<(String, Option<i64>)>,
    now: i64,
    r: ItemView,
) -> bool {
    tracker::issue_rows(issues[k], issues, branches, clocks, now).contains(r)
}

proof fn in_rows_upto(
    issues: Seq<Issue>,
    n: int,
    branches: Seq<Seq<char>>,
    clocks: Seq<(String, Option<i64>)>,
    now: i64,
    r: ItemView,
)
    requires
        n <= issues.len(),
    ensures
        tracker::rows_upto(issues, n, branches, clocks, now).contains(r) <==> exists|k: int|
            0 <= k < n && #[trigger] raises(issues, k, branches, clocks, now, r),
    decreases n,
{
    if n > 0 {
        let before = tracker::rows_upto(issues, n - 1, branches, clocks, now);
        in_rows_upto(issues, n - 1, branches, clocks, now, r);
        last_issue(issues, n, branches, clocks, now, r);
        if raises(issues, n - 1, branches, clocks, now, r) {
            assert(0 <= n - 1 < n);
        }
        if before.contains(r) {
            let k = choose|k: int|
                0 <= k < n - 1 && #[trigger] raises(issues, k, branches, clocks, now, r);
            assert(0 <= k < n && raises(issues, k, branches, clocks, now, r));
        }
    }
}

proof fn last_issue(
    issues: Seq<Issue>,
    n: int,
    branches: Seq<Seq<char>>,
    clocks: Seq<(String, Option<i64>)>,
    now: i64,
    r: ItemView,
)
    requires
        0 < n <= issues.len(),
    ensures
        tracker::rows_upto(issues, n, branches, clocks, now).contains(r) == (tracker::rows_upto(
            issues,
            n - 1,
            branches,
            clocks,
            now,
        ).contains(r) || raises(issues, n - 1, branches, clocks, now, r)),
{
    reveal(raises);
    in_sum(
        tracker::rows_upto(issues, n - 1, branches, clocks, now),
        tracker::issue_rows(issues[n - 1], issues, branches, clocks, now),
        r,
    );
}

proof fn done_is(issues: Seq<Issue>, id: Seq<char>)
    requires
        exists|k: int| 0 <= k < issues.len() && (#[trigger] issues[k]).id@ == id,
    ensures
        (forall|k: int|
            0 <= k < issues.len() && (#[trigger] issues[k]).id@ == id ==> issues[k].status@
                == "done"@) ==> tracker::is_done(issues, id),
        (forall|k: int|
            0 <= k < issues.len() && (#[trigger] issues[k]).id@ == id ==> issues[k].status@
                != "done"@) ==> !tracker::is_done(issues, id),
{
    place_of(issues, id);
}

proof fn place_of(issues: Seq<Issue>, id: Seq<char>)
    ensures
        match tracker::issue_of(issues, id) {
            Some(k) => 0 <= k < issues.len() && issues[k].id@ == id,
            None => forall|k: int| 0 <= k < issues.len() ==> (#[trigger] issues[k]).id@ != id,
        },
    decreases issues.len(),
{
    if issues.len() > 0 && issues.last().id@ != id {
        let rest = issues.drop_last();
        place_of(rest, id);
        assert forall|k: int| 0 <= k < rest.len() implies rest[k] == issues[k] by {}
    }
}

/// Work of the tracker that waits on someone has its row, with the command
/// that answers it: work in review without an open PR, open work whose
/// blockers are all done, a plan that is proposed, and each question.
pub proof fn work_that_waits_is_shown(
    issues: Seq<Issue>,
    n: int,
    branches: Seq<Seq<char>>,
    clocks: Seq<(String, Option<i64>)>,
    now: i64,
)
    requires
        0 <= n < issues.len(),
    ensures
        ({
            let rows = tracker::rows_upto(issues, issues.len() as int, branches, clocks, now);
            let i = issues[n];
            let id = i.id@;
            &&& i.status@ == "review"@ && !i.open_pr_ref && (forall|k: int|
                0 <= k < branches.len() ==> !text::begins(
                    #[trigger] branches[k],
                    i.branch_prefix@,
                )) ==> has(
                rows,
                70,
                "review_no_pr"@,
                ("issue"@, id),
                "cadence issue show "@ + id,
            )
            &&& i.status@ != "done"@ && i.status@ != "dropped"@ && i.blocked_by@.len() > 0 && (
            forall|k: int|
                0 <= k < i.blocked_by@.len() ==> done_issue(
                    issues,
                    (#[trigger] i.blocked_by@[k])@,
                )) ==> has(
                rows,
                80,
                "blocked_ready"@,
                ("issue"@, id),
                "cadence issue set "@ + id + " status=ready"@,
            )
            &&& i.plan is Some && i.plan->0.state@ == "proposed"@ ==> has(
                rows,
                25,
                "plan"@,
                ("issue"@, id),
                "cadence plan show "@ + id + " && cadence plan approve "@ + id,
            )
            &&& forall|k: int|
                0 <= k < i.questions@.len() ==> has(
                    rows,
                    20,
                    "question"@,
                    ("report"@, id + "/"@ + (#[trigger] i.questions@[k]).name@),
                    "cadence issue show "@ + id + "  # answer: cadence report file --task "@ + id
                        + " --kind answer (answers: "@ + i.questions@[k].name@ + ")"@,
                )
        }),
{
    let rows = tracker::rows_upto(issues, issues.len() as int, branches, clocks, now);
    let i = issues[n];
    assert forall|r: ItemView|
        tracker::issue_rows(i, issues, branches, clocks, now).contains(r) implies has(
        rows,
        r.rank,
        r.kind,
        r.subject,
        r.command,
    ) by {
        in_rows_upto(issues, issues.len() as int, branches, clocks, now, r);
        assert(raises(issues, n, branches, clocks, now, r)) by {
            reveal(raises);
        }
        has_row(rows, r);
    }
    if tracker::review_row(i, branches, clocks, now) is Some {
        in_issue_rows(
            i,
            issues,
            branches,
            clocks,
            now,
            tracker::review_row(i, branches, clocks, now)->0,
        );
    }
    if forall|k: int|
        0 <= k < i.blocked_by@.len() ==> done_issue(issues, (#[trigger] i.blocked_by@[k])@) {
        assert forall|k: int| 0 <= k < i.blocked_by@.len() implies tracker::is_done(
            issues,
            (#[trigger] i.blocked_by@[k])@,
        ) by {
            done_is(issues, i.blocked_by@[k]@);
        }
    }
    if tracker::ready_row(i, issues, clocks, now) is Some {
        in_issue_rows(
            i,
            issues,
            branches,
            clocks,
            now,
            tracker::ready_row(i, issues, clocks, now)->0,
        );
    }
    if tracker::plan_row(i, now) is Some {
        in_issue_rows(i, issues, branches, clocks, now, tracker::plan_row(i, now)->0);
    }
    assert forall|k: int| 0 <= k < i.questions@.len() implies has(
        rows,
        20,
        "question"@,
        ("report"@, i.id@ + "/"@ + (#[trigger] i.questions@[k]).name@),
        "cadence issue show "@ + i.id@ + "  # answer: cadence report file --task "@ + i.id@
            + " --kind answer (answers: "@ + i.questions@[k].name@ + ")"@,
    ) by {
        let r = tracker::question_row(i, i.questions@[k], now);
        in_issue_rows(i, issues, branches, clocks, now, r);
        assert(tracker::issue_rows(i, issues, branches, clocks, now).contains(r));
    }
}

/// An issue with this id is there, and every such one is done.
pub open spec fn done_issue(issues: Seq<Issue>, id: Seq<char>) -> bool {
    &&& exists|k: int| 0 <= k < issues.len() && (#[trigger] issues[k]).id@ == id
    &&& forall|k: int|
        0 <= k < issues.len() && (#[trigger] issues[k]).id@ == id ==> issues[k].status@ == "done"@
}

/// The tracker raises nothing else: a row of an issue is about work in
/// review, work that has blockers and is open, a proposed plan, or one of
/// its questions.
pub proof fn nothing_else_waits_on_the_tracker(
    issues: Seq<Issue>,
    branches: Seq<Seq<char>>,
    clocks: Seq<(String, Option<i64>)>,
    now: i64,
    r: ItemView,
)
    requires
        tracker::rows_upto(issues, issues.len() as int, branches, clocks, now).contains(r),
    ensures
        exists|k: int|
            0 <= k < issues.len() && {
                let i = #[trigger] issues[k];
                ||| r.kind == "review_no_pr"@ && i.status@ == "review"@ && !i.open_pr_ref
                ||| r.kind == "blocked_ready"@ && i.blocked_by@.len() > 0 && i.status@ != "done"@
                    && i.status@ != "dropped"@
                ||| r.kind == "plan"@ && i.plan is Some && i.plan->0.state@ == "proposed"@
                ||| r.kind == "question"@ && i.questions@.len() > 0
            },
{
    in_rows_upto(issues, issues.len() as int, branches, clocks, now, r);
    let k = choose|k: int|
        0 <= k < issues.len() && #[trigger] raises(issues, k, branches, clocks, now, r);
    reveal(raises);
    in_issue_rows(issues[k], issues, branches, clocks, now, r);
}

proof fn in_intake(issues: Seq<Issue>, now: i64, n: int)
    requires
        0 <= n < issues.len(),
        tracker::untriaged(issues[n]),
    ensures
        tracker::intake_rows(issues, now).contains(tracker::intake_row(issues[n], now)),
    decreases issues.len(),
{
    let rest = issues.drop_last();
    let before = tracker::intake_rows(rest, now);
    let r = tracker::intake_row(issues[n], now);
    if n < issues.len() - 1 {
        assert(rest[n] == issues[n]);
        in_intake(rest, now, n);
        let k = choose|k: int| 0 <= k < before.len() && before[k] == r;
        if tracker::untriaged(issues.last()) {
            assert(before.push(tracker::intake_row(issues.last(), now))[k] == r);
        }
    } else {
        assert(before.push(r)[before.len() as int] == r);
    }
}

/// A report that nobody triaged is shown; where there are more than the
/// cap, the rest are counted in one row.
pub proof fn an_untriaged_report_is_shown(
    issues: Seq<Issue>,
    clocks: Seq<(String, Option<i64>)>,
    now: i64,
    cap: nat,
    n: int,
)
    requires
        0 <= n < issues.len(),
        issues[n].status@ == "backlog"@,
        issues[n].tags.deep_view().contains("intake"@),
    ensures
        ({
            let rows = tracker::intake_block(issues, clocks, now, cap);
            ||| has(
                rows,
                85,
                "intake"@,
                ("issue"@, issues[n].id@),
                "cadence report show "@ + issues[n].id@,
            )
            ||| rows.len() == cap + 1 && has(
                rows,
                85,
                "intake"@,
                ("report"@, "intake-overflow"@),
                "cadence report ls"@,
            )
        }),
{
    let rows = tracker::intake_block(issues, clocks, now, cap);
    let all = tracker::intake_rows(issues, now);
    let le = tracker::oldest_first();
    let sorted = order::sorted(all, le);
    let r = tracker::intake_row(issues[n], now);
    order::sorted_is_a_sort(all, le);
    in_intake(issues, now, n);
    if all.len() > cap {
        assert(rows.len() == cap + 1);
        assert(rows[cap as int] == tracker::overflow_row((all.len() - cap) as nat));
        assert(rows.contains(rows[cap as int]));
        has_row(rows, rows[cap as int]);
    } else {
        vstd::seq_lib::to_multiset_contains(all, r);
        vstd::seq_lib::to_multiset_contains(sorted, r);
        let k = choose|k: int| 0 <= k < sorted.len() && sorted[k] == r;
        let x = r.since(tracker::clock(clocks, r.subject.1));
        assert(rows[k] == x);
        assert(rows.contains(x));
        has_row(rows, x);
    }
}

// ---------- deliveries ----------

proof fn in_record_rows(recs: Seq<Record>, now: i64, n: int, r: ItemView)
    requires
        0 <= n < recs.len(),
        delivery::auto_row(recs[n], now) == Some(r) || delivery::state_row(recs[n], now) == Some(r),
    ensures
        delivery::record_rows(recs, now).contains(r),
    decreases recs.len(),
{
    let rest = recs.drop_last();
    let before = delivery::record_rows(rest, now);
    let a = delivery::auto_row(recs.last(), now);
    let b = delivery::state_row(recs.last(), now);
    in_opt(a, r);
    in_opt(b, r);
    in_sum(before, agents::opt_row(a), r);
    in_sum(before + agents::opt_row(a), agents::opt_row(b), r);
    if n < recs.len() - 1 {
        assert(rest[n] == recs[n]);
        in_record_rows(rest, now, n, r);
    }
}

/// A delivery that waits on the operator has its row: one that passed and
/// is ready is offered for the merge, with the head that was looked at and
/// the way to decline it; one whose review does not converge, one that has
/// nobody to review it, and one whose PR would merge by itself are shown.
pub proof fn a_delivery_that_waits_is_shown(recs: Seq<Record>, now: i64, n: int)
    requires
        0 <= n < recs.len(),
    ensures
        ({
            let rows = delivery::record_rows(recs, now);
            let rec = recs[n];
            let about = ("issue"@, rec.issue@);
            &&& rec.disable_auto ==> has(
                rows,
                18,
                "auto_merge_on"@,
                about,
                "cadence delivery sync "@ + rec.issue@,
            )
            &&& rec.state is Passed && rec.merge_ready ==> has(
                rows,
                22,
                "merge_decision"@,
                about,
                "cadence delivery merge "@ + rec.issue@,
            )
            &&& rec.state is Escalated ==> has(
                rows,
                24,
                "review_escalated"@,
                about,
                "cadence issue show "@ + rec.issue@,
            )
            &&& rec.state is Unstaffed ==> has(
                rows,
                26,
                "review_unstaffed"@,
                about,
                "cadence agent list"@,
            )
        }),
{
    let rows = delivery::record_rows(recs, now);
    let rec = recs[n];
    if delivery::auto_row(rec, now) is Some {
        in_record_rows(recs, now, n, delivery::auto_row(rec, now)->0);
        has_row(rows, delivery::auto_row(rec, now)->0);
    }
    if delivery::state_row(rec, now) is Some {
        in_record_rows(recs, now, n, delivery::state_row(rec, now)->0);
        has_row(rows, delivery::state_row(rec, now)->0);
    }
}

// ---------- all sources ----------

proof fn in_agent_parts(v: Seq<AgentIn>, repos: Seq<(String, String)>, now: i64, n: int, r: ItemView)
    requires
        0 <= n < v.len(),
        screen::agent_part(v[n], repos, now).contains(r),
    ensures
        screen::agent_parts(v, repos, now).contains(r),
    decreases v.len(),
{
    let rest = v.drop_last();
    in_sum(
        screen::agent_parts(rest, repos, now),
        screen::agent_part(v.last(), repos, now),
        r,
    );
    if n < v.len() - 1 {
        assert(rest[n] == v[n]);
        in_agent_parts(rest, repos, now, n, r);
    }
}

proof fn in_pr_rows(
    slug: Seq<char>,
    project: Seq<char>,
    prs: Seq<crate::json::JsonView>,
    issues: Seq<BranchIssue>,
    now: i64,
    n: int,
    r: ItemView,
)
    requires
        0 <= n < prs.len(),
        crate::overview::github::pr_row(slug, project, prs[n], issues, now) == Some(r),
    ensures
        screen::pr_rows(slug, project, prs, issues, now).contains(r),
    decreases prs.len(),
{
    let rest = prs.drop_last();
    let last = crate::overview::github::pr_row(slug, project, prs.last(), issues, now);
    in_opt(last, r);
    in_sum(screen::pr_rows(slug, project, rest, issues, now), agents::opt_row(last), r);
    if n < prs.len() - 1 {
        assert(rest[n] == prs[n]);
        in_pr_rows(slug, project, rest, issues, now, n, r);
    }
}

proof fn in_gh_rows(
    gh: Seq<GhIn>,
    lines: Seq<RepoLine>,
    issues: Seq<BranchIssue>,
    now: i64,
    n: int,
    r: ItemView,
)
    requires
        0 <= n < gh.len(),
        ({
            let p = screen::gh_project(lines, gh[n]);
            ||| screen::pr_rows(
                gh[n].slug@,
                p,
                screen::prs_of(gh[n].data@),
                issues,
                now,
            ).contains(r)
            ||| screen::ci_part_rows(gh[n].slug@, p, gh[n].data@, gh[n].log, now).contains(r)
        }),
    ensures
        screen::gh_rows(gh, lines, issues, now).contains(r),
    decreases gh.len(),
{
    let rest = gh.drop_last();
    let g = gh.last();
    let p = screen::gh_project(lines, g);
    let before = screen::gh_rows(rest, lines, issues, now);
    let prs = screen::pr_rows(g.slug@, p, screen::prs_of(g.data@), issues, now);
    let ci = screen::ci_part_rows(g.slug@, p, g.data@, g.log, now);
    in_sum(before, prs, r);
    in_sum(before + prs, ci, r);
    if n < gh.len() - 1 {
        assert(rest[n] == gh[n]);
        in_gh_rows(rest, lines, issues, now, n, r);
    }
}

/// Every source is heard: what an agent, the tracker, its deliveries, a
/// repository's PRs and CI, and the drift of the build each raise is among
/// the rows of the screen's build.
pub proof fn every_source_is_heard(
    s: Sources,
    lines: Seq<RepoLine>,
    repos: Seq<(String, String)>,
    branch: Seq<BranchIssue>,
    now: i64,
    cap: nat,
    n: int,
    k: int,
    r: ItemView,
)
    requires
        ({
            let heads = screen::all_heads(s.gh@);
            ||| 0 <= n < s.agents@.len() && agents::agent_rows(
                s.agents@[n].row,
                s.agents@[n].probe,
                agents::project_of(s.agents@[n].row.cwd.deep_view(), repos),
                now,
            ).contains(r)
            ||| s.tracker is Some && tracker::rows_upto(
                s.tracker->0.issues@,
                s.tracker->0.issues@.len() as int,
                heads,
                s.tracker->0.clocks@,
                now,
            ).contains(r)
            ||| s.tracker is Some && tracker::intake_block(
                s.tracker->0.issues@,
                s.tracker->0.clocks@,
                now,
                cap,
            ).contains(r)
            ||| s.tracker is Some && s.tracker->0.records is Ok && delivery::record_rows(
                s.tracker->0.records->Ok_0@,
                now,
            ).contains(r)
            ||| 0 <= n < s.gh@.len() && 0 <= k < screen::prs_of(s.gh@[n].data@).len()
                && crate::overview::github::pr_row(
                s.gh@[n].slug@,
                screen::gh_project(lines, s.gh@[n]),
                screen::prs_of(s.gh@[n].data@)[k],
                branch,
                now,
            ) == Some(r)
            ||| 0 <= n < s.gh@.len() && screen::ci_part_rows(
                s.gh@[n].slug@,
                screen::gh_project(lines, s.gh@[n]),
                s.gh@[n].data@,
                s.gh@[n].log,
                now,
            ).contains(r)
            ||| crate::overview::deploy::drift_row(
                s.drift.drift@,
                screen::project_name(s.drift),
                screen::idle(s.reachable, s.agents@),
            ) == Some(r)
        }),
    ensures
        screen::raised(s, lines, repos, branch, now, cap).contains(r),
{
    let heads = screen::all_heads(s.gh@);
    let a = screen::agent_parts(s.agents@, repos, now);
    let t = screen::tracker_part(s.tracker, heads, now, cap);
    let g = screen::gh_rows(s.gh@, lines, branch, now);
    let drift = crate::overview::deploy::drift_row(
        s.drift.drift@,
        screen::project_name(s.drift),
        screen::idle(s.reachable, s.agents@),
    );
    in_opt(drift, r);
    in_sum(a, t, r);
    in_sum(a + t, g, r);
    in_sum(a + t + g, agents::opt_row(drift), r);
    if 0 <= n < s.agents@.len() {
        let x = s.agents@[n];
        let project = agents::project_of(x.row.cwd.deep_view(), repos);
        let rows = agents::agent_rows(x.row, x.probe, project, now);
        let login = agents::login_row(
            x.row,
            x.confined,
            x.has_login,
            x.login_command@,
            project,
            now,
        );
        in_sum(rows, agents::opt_row(login), r);
        if rows.contains(r) {
            in_agent_parts(s.agents@, repos, now, n, r);
        }
    }
    if s.tracker is Some {
        in_tracker_part(s.tracker->0, heads, now, cap, r);
    }
    if 0 <= n < s.gh@.len() {
        let p = screen::gh_project(lines, s.gh@[n]);
        let prs = screen::prs_of(s.gh@[n].data@);
        if 0 <= k < prs.len() && crate::overview::github::pr_row(
            s.gh@[n].slug@,
            p,
            prs[k],
            branch,
            now,
        ) == Some(r) {
            in_pr_rows(s.gh@[n].slug@, p, prs, branch, now, k, r);
            in_gh_rows(s.gh@, lines, branch, now, n, r);
        }
        if screen::ci_part_rows(s.gh@[n].slug@, p, s.gh@[n].data@, s.gh@[n].log, now).contains(r) {
            in_gh_rows(s.gh@, lines, branch, now, n, r);
        }
    }
}

proof fn in_tracker_part(t: TrackerIn, heads: Seq<Seq<char>>, now: i64, cap: nat, r: ItemView)
    ensures
        tracker::rows_upto(t.issues@, t.issues@.len() as int, heads, t.clocks@, now).contains(r)
            || tracker::intake_block(t.issues@, t.clocks@, now, cap).contains(r) || (t.records is Ok
            && delivery::record_rows(t.records->Ok_0@, now).contains(r))
            ==> screen::tracker_part(Some(t), heads, now, cap).contains(r),
{
    let a = tracker::rows_upto(t.issues@, t.issues@.len() as int, heads, t.clocks@, now);
    let b = tracker::intake_block(t.issues@, t.clocks@, now, cap);
    let c = match t.records {
        Ok(recs) => delivery::record_rows(recs@, now),
        Err(e) => seq![delivery::unreadable_row(e@)],
    };
    let d = agents::opt_row(screen::behind_row(t.behind));
    in_sum(a, b, r);
    in_sum(a + b, c, r);
    in_sum(a + b + c, d, r);
}

// ---------- the screen ----------

proof fn placed_has(groups: Seq<Seq<ItemView>>, x: ItemView)
    ensures
        exists|i: int|
            0 <= i < needs::placed(groups, x).len() && (#[trigger] needs::placed(
                groups,
                x,
            )[i]).contains(x),
        forall|i: int, y: ItemView|
            0 <= i < groups.len() && #[trigger] groups[i].contains(y) ==> held(
                needs::placed(groups, x),
                y,
            ),
    decreases groups.len(),
{
    let r = needs::placed(groups, x);
    if groups.len() == 0 {
        assert(r[0][0] == x);
        assert(r[0].contains(x));
    } else if needs::same_subject(groups[0][0], x) {
        assert(r[0] == groups[0].push(x));
        assert(r[0][groups[0].len() as int] == x);
        assert(r[0].contains(x));
        assert forall|i: int, y: ItemView|
            0 <= i < groups.len() && #[trigger] groups[i].contains(y) implies held(r, y) by {
            if i == 0 {
                let k = choose|k: int| 0 <= k < groups[0].len() && groups[0][k] == y;
                assert(r[0][k] == y);
                assert(r[0].contains(y));
            } else {
                assert(r[i] == groups[i]);
                assert(r[i].contains(y));
            }
        }
    } else {
        let t = groups.drop_first();
        let p = needs::placed(t, x);
        placed_has(t, x);
        let k = choose|k: int| 0 <= k < p.len() && (#[trigger] p[k]).contains(x);
        assert(r[k + 1] == p[k]);
        assert(r[k + 1].contains(x));
        assert forall|i: int, y: ItemView|
            0 <= i < groups.len() && #[trigger] groups[i].contains(y) implies held(r, y) by {
            if i == 0 {
                assert(r[0] == groups[0]);
                assert(r[0].contains(y));
            } else {
                assert(t[i - 1] == groups[i]);
                assert(t[i - 1].contains(y));
                assert(held(p, y));
                let k = choose|k: int| 0 <= k < p.len() && (#[trigger] p[k]).contains(y);
                assert(r[k + 1] == p[k]);
                assert(r[k + 1].contains(y));
            }
        }
    }
}

spec fn held(groups: Seq<Seq<ItemView>>, y: ItemView) -> bool {
    exists|i: int| 0 <= i < groups.len() && (#[trigger] groups[i]).contains(y)
}

proof fn grouped_has(items: Seq<ItemView>, n: int)
    requires
        0 <= n < items.len(),
    ensures
        held(needs::grouped(items), items[n]),
    decreases items.len(),
{
    let rest = items.drop_last();
    placed_has(needs::grouped(rest), items.last());
    if n < items.len() - 1 {
        assert(rest[n] == items[n]);
        grouped_has(rest, n);
        let k = choose|k: int|
            0 <= k < needs::grouped(rest).len() && (#[trigger] needs::grouped(rest)[k]).contains(
                items[n],
            );
        assert(needs::grouped(rest)[k].contains(items[n]));
    }
}

/// A row of the screen stands for a row that was raised: it is about the
/// same subject, ranks at least as high, and names it among its causes.
pub open spec fn names(on: Seq<ItemView>, r: ItemView, i: int, k: int) -> bool {
    &&& 0 <= i < on.len()
    &&& 0 <= k < on[i].causes.len()
    &&& on[i].subject == r.subject
    &&& on[i].rank <= r.rank
    &&& on[i].causes[k].cause == r.kind
    &&& on[i].causes[k].title == r.title
    &&& on[i].causes[k].command == r.command
    &&& on[i].causes[k].age == r.age
}

/// Without a scope every row reaches the screen: the row of its subject
/// names it among its causes, with its title and its command, and ranks at
/// least as high.
pub proof fn a_raised_row_reaches_the_screen(
    rows: Seq<ItemView>,
    owners: Owners,
    now: i64,
    after: i64,
    n: int,
)
    requires
        0 <= n < rows.len(),
    ensures
        exists|i: int, k: int| #[trigger]
            names(needs::screen(rows, owners, now, after, None, None), rows[n], i, k),
{
    let f = |i: ItemView| needs::classified(i, owners, now, after);
    let judged = rows.map_values(f);
    let x = judged[n];
    assert(x == needs::classified(rows[n], owners, now, after));
    grouped_has(judged, n);
    needs::one_row_per_subject(judged);
    let groups = needs::grouped(judged);
    let g = choose|g: int| 0 <= g < groups.len() && (#[trigger] groups[g]).contains(x);
    let group = groups[g];
    let e = choose|e: int| 0 <= e < group.len() && group[e] == x;
    assert(needs::same_subject(groups[g][e], groups[g][0]));
    let le = needs::by_rank();
    let sorted = order::sorted(group, le);
    assert(order::total(le));
    order::sorted_is_a_sort(group, le);
    vstd::seq_lib::to_multiset_contains(group, x);
    vstd::seq_lib::to_multiset_contains(sorted, x);
    let k = choose|k: int| 0 <= k < sorted.len() && sorted[k] == x;
    if k > 0 {
        assert(le(sorted[0], sorted[k]));
    }
    vstd::seq_lib::to_multiset_contains(sorted, sorted[0]);
    vstd::seq_lib::to_multiset_contains(group, sorted[0]);
    assert(sorted.contains(sorted[0]));
    let z = choose|z: int| 0 <= z < group.len() && group[z] == sorted[0];
    assert(needs::same_subject(groups[g][z], groups[g][0]));
    let row = needs::merged(group);
    assert(row.causes[k] == needs::cause_of(x));
    let all = needs::merged_rows(judged);
    assert(all[g] == row);
    assert(all.contains(row));
    let keep = needs::scoped(None, None);
    all.lemma_filter_contains(keep, g);
    let kept = all.filter(keep);
    let on = needs::screen(rows, owners, now, after, None, None);
    order::sorted_is_a_sort(kept, needs::by_urgency());
    vstd::seq_lib::to_multiset_contains(kept, row);
    vstd::seq_lib::to_multiset_contains(on, row);
    let i = choose|i: int| 0 <= i < on.len() && on[i] == row;
    assert(names(on, rows[n], i, k));
}

/// The screen stands by rank, and within a rank the oldest first; a scope
/// leaves only rows of its project that name one of its members.
pub proof fn the_screen_is_in_order(
    rows: Seq<ItemView>,
    owners: Owners,
    now: i64,
    after: i64,
    project: Option<Seq<char>>,
    members: Option<Seq<Seq<char>>>,
    i: int,
    j: int,
)
    requires
        0 <= i < j < needs::screen(rows, owners, now, after, project, members).len(),
    ensures
        ({
            let on = needs::screen(rows, owners, now, after, project, members);
            &&& on[i].rank < on[j].rank || (on[i].rank == on[j].rank && on[i].age >= on[j].age)
            &&& project is Some ==> on[i].project == project->0
            &&& members is Some ==> exists|m: Seq<char>| #[trigger]
                on[i].agents.contains(m) && members->0.contains(m)
        }),
{
    let f = |i: ItemView| needs::classified(i, owners, now, after);
    let judged = rows.map_values(f);
    let keep = needs::scoped(project, members);
    let all = needs::merged_rows(judged);
    let kept = all.filter(keep);
    let on = needs::screen(rows, owners, now, after, project, members);
    needs::rows_stand_by_urgency(kept);
    assert(needs::by_urgency()(on[i], on[j]));
    vstd::seq_lib::to_multiset_contains(on, on[i]);
    vstd::seq_lib::to_multiset_contains(kept, on[i]);
    assert(on.contains(on[i]));
    let k = choose|k: int| 0 <= k < kept.len() && kept[k] == on[i];
    all.lemma_filter_pred(keep, k);
    if members is Some {
        let a = on[i].agents;
        let m = choose|m: int| 0 <= m < a.len() && members->0.contains(#[trigger] a[m]);
        assert(a.contains(a[m]));
    }
}

// ---------- who a row is for ----------

/// A row that its kind leaves to the team is the operator's exactly where
/// it has no owner who can act, or was left longer than the bound.
pub proof fn a_team_row_goes_up(it: ItemView, owners: Owners, now: i64, after: i64)
    requires
        it.kind == "stalled"@ || it.kind == "review_no_pr"@ || it.kind == "pr_no_verdict"@ || it.kind
            == "blocked_ready"@ || it.kind == "approval_menu"@ || it.kind == "intake"@,
    ensures
        ({
            let r = needs::classified(it, owners, now, after);
            let owned = it.owner is Some && it.owner->0.len() > 0 && it.owner->0 != "operator"@
                && owners.reachable && exists|k: int|
                0 <= k < owners.agents@.len() && (#[trigger] owners.agents@[k]).alias@
                    == it.owner->0;
            &&& !owned ==> r.audience is Operator
            &&& r.audience is Team ==> owned && (it.since is None || it.since->0 > now || now
                - it.since->0 <= after || after >= i64::MAX)
            &&& r.audience is Operator || r.audience is Team
            &&& r.kind == it.kind && r.title == it.title && r.command == it.command && r.rank
                == it.rank && r.subject == it.subject
        }),
{
    kinds_of_the_team();
    if it.owner is Some {
        owner_place(owners.agents@, it.owner->0);
    }
    reveal_strlit("operator");
}

proof fn owner_place(rows: Seq<needs::OwnerRow>, alias: Seq<char>)
    ensures
        match needs::row_of(rows, alias) {
            Some(a) => exists|k: int|
                0 <= k < rows.len() && (#[trigger] rows[k]).alias@ == alias && rows[k] == a,
            None => true,
        },
    decreases rows.len(),
{
    if rows.len() > 0 {
        let rest = rows.drop_last();
        owner_place(rest, alias);
        if rows.last().alias@ == alias {
            assert(rows[rows.len() - 1] == rows.last());
        } else if needs::row_of(rest, alias) is Some {
            let a = needs::row_of(rest, alias)->0;
            let k = choose|k: int|
                0 <= k < rest.len() && (#[trigger] rest[k]).alias@ == alias && rest[k] == a;
            assert(rows[k] == a);
        }
    }
}

proof fn kinds_of_the_team()
    ensures
        needs::class_of("stalled"@) is Team,
        needs::class_of("review_no_pr"@) is Team,
        needs::class_of("pr_no_verdict"@) is Team,
        needs::class_of("blocked_ready"@) is Team,
        needs::class_of("approval_menu"@) is Team,
        needs::class_of("intake"@) is Team,
{
    reveal_strlit("stalled");
    reveal_strlit("review_no_pr");
    reveal_strlit("pr_no_verdict");
    reveal_strlit("blocked_ready");
    reveal_strlit("approval_menu");
    reveal_strlit("intake");
    reveal_strlit("approval");
    reveal_strlit("fenced");
    reveal_strlit("question");
    reveal_strlit("plan");
    reveal_strlit("merge_decision");
    reveal_strlit("review_escalated");
    reveal_strlit("review_unstaffed");
    reveal_strlit("auto_merge_on");
    reveal_strlit("delivery_unreadable");
    reveal_strlit("drift");
    reveal_strlit("inbox_unread");
    reveal_strlit("tracker_behind");
    reveal_strlit("master_unconfined");
    reveal_strlit("master_login");
    assert("stalled"@.len() == 7 && "review_no_pr"@.len() == 12 && "review_no_pr"@[0] == 'r');
    assert("pr_no_verdict"@.len() == 13 && "pr_no_verdict"@[0] == 'p');
    assert("blocked_ready"@.len() == 13 && "blocked_ready"@[0] == 'b');
    assert("approval_menu"@.len() == 13 && "approval_menu"@[1] == 'p' && "approval_menu"@[0]
        == 'a');
    assert("intake"@.len() == 6 && "intake"@[0] == 'i');
    assert("approval"@.len() == 8 && "fenced"@.len() == 6 && "fenced"@[0] == 'f');
    assert("question"@.len() == 8 && "plan"@.len() == 4 && "merge_decision"@.len() == 14);
    assert("review_escalated"@.len() == 16 && "review_unstaffed"@.len() == 16);
    assert("auto_merge_on"@.len() == 13 && "auto_merge_on"@[1] == 'u' && "auto_merge_on"@[0]
        == 'a');
    assert("delivery_unreadable"@.len() == 19 && "drift"@.len() == 5);
    assert("inbox_unread"@.len() == 12 && "inbox_unread"@[0] == 'i');
    assert("tracker_behind"@.len() == 14 && "master_unconfined"@.len() == 17);
    assert("master_login"@.len() == 12 && "master_login"@[0] == 'm');
}

/// What only the operator can decide is always the operator's, whoever
/// owns it and however long it stood.
pub proof fn a_decision_is_the_operators(it: ItemView, owners: Owners, now: i64, after: i64)
    requires
        it.kind == "approval"@ || it.kind == "fenced"@ || it.kind == "question"@ || it.kind
            == "plan"@ || it.kind == "merge_decision"@ || it.kind == "review_escalated"@ || it.kind
            == "review_unstaffed"@ || it.kind == "auto_merge_on"@ || it.kind
            == "delivery_unreadable"@,
    ensures
        needs::classified(it, owners, now, after).audience is Operator,
{
}

} // verus!
