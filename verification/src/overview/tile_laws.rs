//! Project tiles, repositories and drift, told by the issues, the declared
//! repositories and what git replied.
use crate::json;
use crate::json::JsonView;
use crate::overview;
use crate::overview::deploy;
use crate::overview::deploy::{DriftView, LineView, Project};
use crate::overview::tracker;
use crate::overview::tracker::{Issue, QuestionView};
use crate::text;
use crate::time;
use vstd::prelude::*;

verus! {

// ---------- tiles ----------

/// Each issue counts once, under its status in its project, unless it is done
/// or dropped.
pub proof fn an_open_issue_counts_once(
    issues: Seq<Issue>,
    i: Issue,
    project: Seq<char>,
    status: Seq<char>,
)
    ensures
        tracker::times_in(tracker::open_statuses(seq![], project), status) == 0,
        tracker::times_in(tracker::open_statuses(issues.push(i), project), status)
            == tracker::times_in(tracker::open_statuses(issues, project), status) + (if i.project@
            == project && i.status@ == status && i.status@ != "done"@ && i.status@ != "dropped"@ {
            1nat
        } else {
            0
        }),
{
    let v = issues.push(i);
    assert(v.drop_last() =~= issues);
    let o = tracker::open_statuses(issues, project);
    assert(o.push(i.status@).drop_last() =~= o);
}

/// An open issue of the project in review, of that age.
pub open spec fn in_review(i: Issue, project: Seq<char>, now: i64, age: i64) -> bool {
    i.project@ == project && i.status@ == "review"@ && tracker::issue_age(i, now) == age
}

/// A tile tells the greatest age of what is in review in its project, and
/// none where nothing is.
pub proof fn the_oldest_review_is_told(issues: Seq<Issue>, project: Seq<char>, now: i64)
    ensures
        tracker::oldest_review(issues, project, now) matches Some(a) ==> exists|k: int|
            0 <= k < issues.len() && in_review(#[trigger] issues[k], project, now, a),
        forall|k: int|
            0 <= k < issues.len() && (#[trigger] issues[k]).project@ == project
                && issues[k].status@ == "review"@ ==> tracker::oldest_review(issues, project, now)
                is Some && tracker::issue_age(issues[k], now) <= tracker::oldest_review(
                issues,
                project,
                now,
            )->0,
    decreases issues.len(),
{
    reveal_strlit("review");
    reveal_strlit("done");
    reveal_strlit("dropped");
    assert("review"@[0] != "done"@[0]);
    assert("review"@[0] != "dropped"@[0]);
    if issues.len() > 0 {
        let w = issues.drop_last();
        let last = issues.len() - 1;
        the_oldest_review_is_told(w, project, now);
        assert(forall|k: int| 0 <= k < w.len() ==> #[trigger] issues[k] == w[k]);
        assert(issues[last] == issues.last());
        let old = tracker::oldest_review(w, project, now);
        let new = tracker::oldest_review(issues, project, now);
        if new is Some {
            if new == old {
                let k = choose|k: int|
                    0 <= k < w.len() && in_review(#[trigger] w[k], project, now, old->0);
                assert(in_review(issues[k], project, now, new->0));
            } else {
                assert(in_review(issues[last], project, now, new->0));
            }
        }
        assert forall|k: int|
            0 <= k < issues.len() && (#[trigger] issues[k]).project@ == project
                && issues[k].status@ == "review"@ implies new is Some && tracker::issue_age(
            issues[k],
            now,
        ) <= new->0 by {
            if k < last {
                assert(w[k].project@ == project);
            }
        }
    }
}

/// A tile lists as claimed what is held and in progress or in review in its
/// project.
pub proof fn what_is_claimed(i: Issue, project: Seq<char>)
    ensures
        tracker::claimed(i, project) <==> i.held && i.project@ == project && (i.status@ == "doing"@
            || i.status@ == "review"@),
{
    reveal_strlit("doing");
    reveal_strlit("review");
    reveal_strlit("done");
    reveal_strlit("dropped");
    assert("doing"@.len() != "done"@.len());
    assert("doing"@.len() != "dropped"@.len());
    assert("review"@[0] != "done"@[0]);
    assert("review"@[0] != "dropped"@[0]);
}

/// Clocks are read for what is in review without a pull request, and for the
/// blockers of what they no longer hold up.
pub proof fn whose_clock_is_read(
    issues: Seq<Issue>,
    n: int,
    branches: Seq<Seq<char>>,
    id: Seq<char>,
)
    requires
        0 <= n <= issues.len(),
    ensures
        tracker::clocks_upto(issues, n, branches).contains(id) <==> exists|k: int|
            0 <= k < n && reads_clock(issues, #[trigger] issues[k], branches, id),
    decreases n,
{
    if n > 0 {
        whose_clock_is_read(issues, n - 1, branches, id);
        let i = issues[n - 1];
        let before = tracker::clocks_upto(issues, n - 1, branches);
        let a = if tracker::lacks_pr(i, branches) {
            seq![i.id@]
        } else {
            seq![]
        };
        let b = if tracker::unblocked(i, issues) {
            i.blocked_by.deep_view()
        } else {
            seq![]
        };
        in_sum(before + a, b, id);
        in_sum(before, a, id);
        if tracker::lacks_pr(i, branches) {
            assert(a[0] == i.id@);
        }
        if exists|k: int| 0 <= k < n - 1 && reads_clock(issues, #[trigger] issues[k], branches, id) {
            let k = choose|k: int|
                0 <= k < n - 1 && reads_clock(issues, #[trigger] issues[k], branches, id);
            assert(reads_clock(issues, issues[k], branches, id));
        }
        if exists|k: int| 0 <= k < n && reads_clock(issues, #[trigger] issues[k], branches, id) {
            let k = choose|k: int|
                0 <= k < n && reads_clock(issues, #[trigger] issues[k], branches, id);
            if k < n - 1 {
                assert(reads_clock(issues, issues[k], branches, id));
            }
        }
        blockers(i, id);
        assert(reads_clock(issues, i, branches, id) == (a.contains(id) || b.contains(id)));
    }
}

/// The issue makes the clock of `id` wanted.
pub open spec fn reads_clock(
    issues: Seq<Issue>,
    i: Issue,
    branches: Seq<Seq<char>>,
    id: Seq<char>,
) -> bool {
    ||| i.status@ == "review"@ && !i.open_pr_ref && i.id@ == id && forall|b: int|
        0 <= b < branches.len() ==> !text::begins(#[trigger] branches[b], i.branch_prefix@)
    ||| i.status@ != "done"@ && i.status@ != "dropped"@ && (exists|b: int|
        0 <= b < i.blocked_by@.len() && (#[trigger] i.blocked_by@[b])@ == id) && forall|b: int|
        0 <= b < i.blocked_by@.len() ==> tracker::is_done(issues, (#[trigger] i.blocked_by@[b])@)
}

proof fn blockers(i: Issue, id: Seq<char>)
    ensures
        i.blocked_by.deep_view().contains(id) <==> exists|b: int|
            0 <= b < i.blocked_by@.len() && (#[trigger] i.blocked_by@[b])@ == id,
{
    let d = i.blocked_by.deep_view();
    if d.contains(id) {
        let b = choose|b: int| 0 <= b < d.len() && d[b] == id;
        assert(i.blocked_by@[b]@ == id);
    }
    if exists|b: int| 0 <= b < i.blocked_by@.len() && (#[trigger] i.blocked_by@[b])@ == id {
        let b = choose|b: int|
            0 <= b < i.blocked_by@.len() && (#[trigger] i.blocked_by@[b])@ == id;
        assert(d[b] == id);
    }
}

proof fn in_sum<T>(a: Seq<T>, b: Seq<T>, x: T)
    ensures
        (a + b).contains(x) <==> a.contains(x) || b.contains(x),
{
    let s = a + b;
    if a.contains(x) {
        let k = choose|k: int| 0 <= k < a.len() && a[k] == x;
        assert(s[k] == x);
    }
    if b.contains(x) {
        let k = choose|k: int| 0 <= k < b.len() && b[k] == x;
        assert(s[a.len() + k] == x);
    }
    if s.contains(x) {
        let k = choose|k: int| 0 <= k < s.len() && s[k] == x;
        if k < a.len() {
            assert(a[k] == x);
        } else {
            assert(b[k - a.len()] == x);
        }
    }
}

/// The last issue under an id is the one that counts; it is done by its
/// status alone, and an id that no issue has is never done.
pub proof fn the_last_issue_of_an_id_counts(issues: Seq<Issue>, id: Seq<char>, k: int)
    requires
        0 <= k < issues.len(),
        issues[k].id@ == id,
        forall|j: int| k < j < issues.len() ==> (#[trigger] issues[j]).id@ != id,
    ensures
        tracker::is_done(issues, id) <==> issues[k].status@ == "done"@,
    decreases issues.len(),
{
    last_issue(issues, id, k);
}

proof fn last_issue(issues: Seq<Issue>, id: Seq<char>, k: int)
    requires
        0 <= k < issues.len(),
        issues[k].id@ == id,
        forall|j: int| k < j < issues.len() ==> (#[trigger] issues[j]).id@ != id,
    ensures
        tracker::issue_of(issues, id) == Some(k),
    decreases issues.len(),
{
    if k < issues.len() - 1 {
        let w = issues.drop_last();
        assert(issues[issues.len() - 1].id@ != id);
        assert forall|j: int| k < j < w.len() implies (#[trigger] w[j]).id@ != id by {
            assert(w[j] == issues[j]);
        }
        last_issue(w, id, k);
    }
}

/// A question is escalated by an object recorded under its issue and name.
pub proof fn an_escalation_is_recorded(
    record: JsonView,
    id: Seq<char>,
    q: QuestionView,
)
    ensures
        tracker::raised(record, id)(q) <==> (json::field(record, id + "/"@ + q.name) is Some
            && json::field(record, id + "/"@ + q.name)->0 is Obj),
        tracker::raised(record, id)(q) ==> {
            let entry = json::field(record, id + "/"@ + q.name)->0;
            let told = tracker::with_record(record, id, q);
            &&& json::field(entry, "summary"@) is Some ==> told.summary == json::field(
                entry,
                "summary"@,
            )->0
            &&& json::field(entry, "by"@) is Some ==> told.escalated_by == json::field(
                entry,
                "by"@,
            )->0
            &&& told.name == q.name && told.agent == q.agent && told.impact == q.impact
                && told.body == q.body && told.at == q.at && told.options == q.options
        },
{
}

// ---------- repositories ----------

/// A line of the project with that key for that repository.
pub open spec fn line_for(l: LineView, p: Project, k: int) -> bool {
    &&& l.key == p.key@
    &&& l.path == p.repos@[k].path.deep_view()
    &&& match p.repos@[k].remote {
        Some(r) => if text::begins(r@, "github.com/"@) {
            l.slug is Some && r@ == "github.com/"@ + l.slug->0
        } else {
            l.slug is None
        },
        None => l.slug is None,
    }
}

/// Every declared repository has its line, in the order declared.
pub proof fn every_repository_has_a_line(projects: Seq<Project>, n: int, i: int, k: int)
    requires
        0 <= i < n <= projects.len(),
        0 <= k < projects[i].repos@.len(),
    ensures
        exists|a: int|
            0 <= a < deploy::lines_upto(projects, n).len() && line_for(
                #[trigger] deploy::lines_upto(projects, n)[a],
                projects[i],
                k,
            ),
    decreases n,
{
    let before = deploy::lines_upto(projects, n - 1);
    let all = deploy::lines_upto(projects, n);
    let p = projects[n - 1];
    if i < n - 1 {
        every_repository_has_a_line(projects, n - 1, i, k);
        let a = choose|a: int|
            0 <= a < before.len() && line_for(#[trigger] before[a], projects[i], k);
        assert(all[a] == before[a]);
    } else {
        let l = all[before.len() + k];
        assert(l == deploy::line_of(p.key@, p.repos@[k]));
        reveal_strlit("github.com/");
        if let Some(r) = p.repos@[k].remote {
            if text::begins(r@, "github.com/"@) {
                assert(r@ =~= "github.com/"@ + r@.skip(11));
            }
        }
        assert(line_for(l, projects[i], k));
    }
}

/// The repositories asked about are those with a slug.
pub proof fn every_slug_is_asked_about(lines: Seq<LineView>, slug: Seq<char>)
    ensures
        deploy::slugs(lines).contains(slug) <==> exists|k: int|
            0 <= k < lines.len() && (#[trigger] lines[k]).slug == Some(slug),
    decreases lines.len(),
{
    if lines.len() > 0 {
        let w = lines.drop_last();
        let last = lines.len() - 1;
        every_slug_is_asked_about(w, slug);
        assert(forall|k: int| 0 <= k < w.len() ==> #[trigger] lines[k] == w[k]);
        if let Some(s) = lines.last().slug {
            in_sum(deploy::slugs(w), seq![s], slug);
            assert(deploy::slugs(w).push(s) =~= deploy::slugs(w) + seq![s]);
            assert(seq![s].contains(slug) <==> s == slug) by {
                assert(seq![s][0] == s);
            }
            assert(lines[last].slug == Some(s));
        }
        if exists|k: int| 0 <= k < w.len() && (#[trigger] w[k]).slug == Some(slug) {
            let k = choose|k: int| 0 <= k < w.len() && (#[trigger] w[k]).slug == Some(slug);
            assert(lines[k].slug == Some(slug));
        }
        if exists|k: int| 0 <= k < lines.len() && (#[trigger] lines[k]).slug == Some(slug) {
            let k = choose|k: int|
                0 <= k < lines.len() && (#[trigger] lines[k]).slug == Some(slug);
            if k < last {
                assert(w[k].slug == Some(slug));
            }
        }
    }
}

/// A repository belongs to the last project that declares it.
pub proof fn the_last_declaration_owns(lines: Seq<LineView>, slug: Seq<char>, k: int)
    requires
        0 <= k < lines.len(),
        lines[k].slug == Some(slug),
        forall|j: int| k < j < lines.len() ==> (#[trigger] lines[j]).slug != Some(slug),
    ensures
        deploy::project_of_slug(lines, slug) == lines[k].key,
    decreases lines.len(),
{
    if k < lines.len() - 1 {
        let w = lines.drop_last();
        assert(lines[lines.len() - 1].slug != Some(slug));
        assert forall|j: int| k < j < w.len() implies (#[trigger] w[j]).slug != Some(slug) by {
            assert(w[j] == lines[j]);
        }
        the_last_declaration_owns(w, slug, k);
    }
}

/// Its clone is the first declared for it.
pub proof fn the_first_clone_is_read(lines: Seq<LineView>, slug: Seq<char>, k: int)
    requires
        0 <= k < lines.len(),
        lines[k].slug == Some(slug),
        lines[k].path is Some,
        forall|j: int|
            0 <= j < k ==> (#[trigger] lines[j]).slug != Some(slug) || lines[j].path is None,
    ensures
        deploy::clone_of_slug(lines, slug) == lines[k].path,
    decreases k,
{
    if k > 0 {
        let w = lines.drop_first();
        assert(lines[0].slug != Some(slug) || lines[0].path is None);
        assert(w[k - 1] == lines[k]);
        assert forall|j: int| 0 <= j < k - 1 implies (#[trigger] w[j]).slug != Some(slug)
            || w[j].path is None by {
            assert(w[j] == lines[j + 1]);
        }
        the_first_clone_is_read(w, slug, k - 1);
    }
}

// ---------- drift ----------

/// Drift is told exactly where the build, the branch and the count were all
/// read; the count is git's, and each line of its log is a commit.
pub proof fn drift_is_what_git_counted(
    build: Seq<char>,
    base: Result<Seq<char>, Seq<char>>,
    count: Result<Seq<char>, Seq<char>>,
    log: Seq<char>,
)
    ensures
        deploy::drift(build, base, count, log) is Known <==> build != "unknown"@ && build.len() > 0
            && base is Ok && count is Ok && time::integer(text::trim(count->Ok_0)) is Some,
        deploy::drift(build, base, count, log) matches DriftView::Known { base: b, count: n, commits }
            ==> {
            &&& b == base->Ok_0
            &&& Some(n) == time::integer(text::trim(count->Ok_0))
            &&& commits.len() == text::lines(log).len()
            &&& forall|k: int|
                0 <= k < commits.len() ==> (#[trigger] commits[k]).0 == text::lines(log)[k]
        },
{
}

/// What is behind is offered when every pane is idle, with the command that
/// upgrades; otherwise it is held back and said why; nothing behind is
/// neither.
pub proof fn drift_is_offered_when_idle(
    d: DriftView,
    project: Seq<char>,
    idle: bool,
    unknown: bool,
)
    ensures
        ({
            let row = deploy::drift_row(d, project, idle);
            let why = deploy::held(d, idle, unknown);
            let late = d matches DriftView::Known { base, count, commits } && count > 0;
            &&& row is Some <==> late && idle
            &&& why is Some <==> late && !idle
            &&& row matches Some(r) ==> r.rank == 50 && r.kind == "drift"@ && r.project == project
                && r.command == "cadence upgrade --latest-main"@ && r.subject == (
                "deploy"@,
                project,
            )
        }),
{
}

proof fn no_mark_in(s: Seq<char>, p: Seq<char>, lo: int, i: int)
    requires
        lo <= i,
        lo >= -1,
        forall|j: int| lo < j <= i ==> !text::at(s, p, j),
    ensures
        overview::after_last_at(s, p, i) == overview::after_last_at(s, p, lo),
    decreases i - lo,
{
    if lo < i {
        no_mark_in(s, p, lo, i - 1);
    }
}

proof fn dec_digits(n: nat)
    ensures
        forall|k: int| 0 <= k < text::dec(n).len() ==> '0' <= #[trigger] text::dec(n)[k] <= '9',
    decreases n,
{
    let d = text::dec(n);
    let last = text::digit((n % 10) as int);
    assert('0' <= last <= '9');
    if n >= 10 {
        dec_digits(n / 10);
        let w = text::dec(n / 10);
        assert forall|k: int| 0 <= k < d.len() implies '0' <= #[trigger] d[k] <= '9' by {
            if k < w.len() {
                assert(d[k] == w[k]);
            }
        }
    } else {
        assert(n % 10 == n);
        assert(d =~= seq![last]);
    }
}

/// A subject that ends in a number behind `(#` and in front of `)` names that
/// pull request.
pub proof fn a_subject_names_its_pull_request(head: Seq<char>, n: nat)
    requires
        n <= u64::MAX,
    ensures
        overview::pr_in(head + "(#"@ + text::dec(n) + ")"@) == Some(n),
{
    reveal_strlit("(#");
    reveal_strlit(")");
    let s = head + "(#"@ + text::dec(n) + ")"@;
    assert(s.last() == ')');
    assert(text::trim_end(s) == s);
    let inner = s.drop_last();
    let d = text::dec(n);
    assert(inner =~= head + "(#"@ + d);
    dec_digits(n);
    text::dec_reads_back(n);
    let h = head.len() as int;
    assert forall|j: int| h < j <= inner.len() implies !text::at(inner, "(#"@, j) by {
        if text::at(inner, "(#"@, j) {
            assert(inner.subrange(j, j + 2)[0] == '(');
            if j == h + 1 {
                assert(inner[j] == '#');
            } else {
                assert(inner[j] == d[j - h - 2]);
            }
            assert(false);
        }
    }
    no_mark_in(inner, "(#"@, h, inner.len() as int);
    assert(inner.subrange(h, h + 2) =~= "(#"@);
    assert(text::at(inner, "(#"@, h));
    assert(inner.skip(h + 2) =~= d);
}

} // verus!
