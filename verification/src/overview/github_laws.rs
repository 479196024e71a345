//! What is read out of GitHub's replies, told by what the replies hold.
use crate::json;
use crate::json::JsonView;
use crate::order;
use crate::overview::github;
use crate::overview::github::{BranchIssue, ShaCiView};
use crate::text;
use crate::time;
use vstd::prelude::*;

verus! {

// ---------- checks and verdict of a head ----------

/// The name that an entry goes by: its context, or failing that its name.
pub open spec fn goes_by(e: JsonView, name: Seq<char>) -> bool {
    json::field_str(e, "context"@) == Some(name) || (json::field_str(e, "context"@) is None
        && json::field_str(e, "name"@) == Some(name))
}

/// The entry is the verdict, in small or capital letters.
pub open spec fn gives_verdict(e: JsonView) -> bool {
    exists|name: Seq<char>| #[trigger] goes_by(e, name) && text::smalls(name) == "qa-verdict"@
}

proof fn verdict_by_name(e: JsonView)
    ensures
        github::is_verdict(e) == gives_verdict(e),
{
    reveal_strlit("qa-verdict");
    assert(text::smalls("qa-verdict"@) =~= "qa-verdict"@);
    let n = github::check_name(e);
    if github::is_verdict(e) {
        if json::field_str(e, "context"@) is None && json::field_str(e, "name"@) is None {
            assert(text::smalls(n).len() == 0);
            assert(false);
        }
        assert(goes_by(e, n));
    }
    if gives_verdict(e) {
        let name = choose|name: Seq<char>| #[trigger]
            goes_by(e, name) && text::smalls(name) == "qa-verdict"@;
        assert(name == n);
    }
}

/// A check run, by its type or because it has a conclusion.
pub open spec fn is_check_run(e: JsonView) -> bool {
    json::field_str(e, "__typename"@) == Some("CheckRun"@) || json::field_str(e, "conclusion"@)
        is Some
}

/// One check that ended badly, is still at work, or gave a status other than
/// success stands against the head.
pub proof fn one_bad_check_is_not_green(rollup: Seq<JsonView>, i: int)
    requires
        0 <= i < rollup.len(),
        !gives_verdict(rollup[i]),
        ({
            let e = rollup[i];
            let c = json::field_str(e, "conclusion"@);
            let s = json::field(e, "status"@);
            if is_check_run(e) {
                (c != Some("SUCCESS"@) && c != Some("SKIPPED"@) && c != Some("NEUTRAL"@)) || (s
                    is Some && !(s->0 is Null) && s != Some(JsonView::Str("COMPLETED"@)))
            } else {
                json::field_str(e, "state"@) != Some("SUCCESS"@)
            }
        }),
    ensures
        !github::green(rollup),
{
    verdict_by_name(rollup[i]);
    assert(!github::entry_green(rollup[i]));
}

/// Where every check but the verdict ended well, the head is green.
pub proof fn good_checks_are_green(rollup: Seq<JsonView>)
    requires
        forall|i: int|
            0 <= i < rollup.len() ==> {
                let e = #[trigger] rollup[i];
                let c = json::field_str(e, "conclusion"@);
                let s = json::field(e, "status"@);
                ||| gives_verdict(e)
                ||| is_check_run(e) && (c == Some("SUCCESS"@) || c == Some("SKIPPED"@) || c == Some(
                    "NEUTRAL"@,
                )) && (s is None || s->0 is Null || s == Some(JsonView::Str("COMPLETED"@)))
                ||| !is_check_run(e) && json::field_str(e, "state"@) == Some("SUCCESS"@)
            },
    ensures
        github::green(rollup),
{
    assert forall|i: int| 0 <= i < rollup.len() implies github::entry_green(
        #[trigger] rollup[i],
    ) by {
        verdict_by_name(rollup[i]);
    }
}

/// The first verdict entry speaks, by its state or failing that its
/// conclusion.
pub proof fn the_first_verdict_speaks(rollup: Seq<JsonView>, i: int)
    requires
        0 <= i < rollup.len(),
        gives_verdict(rollup[i]),
        forall|j: int| 0 <= j < i ==> !gives_verdict(#[trigger] rollup[j]),
    ensures
        json::field_str(rollup[i], "state"@) is Some ==> github::verdict(rollup)
            == json::field_str(rollup[i], "state"@),
        json::field_str(rollup[i], "state"@) is None ==> github::verdict(rollup)
            == json::field_str(rollup[i], "conclusion"@),
    decreases i,
{
    verdict_by_name(rollup[0]);
    if i > 0 {
        let w = rollup.drop_first();
        assert forall|j: int| 0 <= j < i - 1 implies !gives_verdict(#[trigger] w[j]) by {
            assert(w[j] == rollup[j + 1]);
        }
        assert(w[i - 1] == rollup[i]);
        the_first_verdict_speaks(w, i - 1);
    }
}

/// Without such an entry there is no verdict.
pub proof fn without_a_verdict_nothing_speaks(rollup: Seq<JsonView>)
    requires
        forall|j: int| 0 <= j < rollup.len() ==> !gives_verdict(#[trigger] rollup[j]),
    ensures
        github::verdict(rollup) is None,
    decreases rollup.len(),
{
    if rollup.len() > 0 {
        verdict_by_name(rollup[0]);
        let w = rollup.drop_first();
        assert forall|j: int| 0 <= j < w.len() implies !gives_verdict(#[trigger] w[j]) by {
            assert(w[j] == rollup[j + 1]);
        }
        without_a_verdict_nothing_speaks(w);
    }
}

/// The time that an entry gives under a key: one behind the epoch.
pub open spec fn stamped(e: JsonView, k: Seq<char>, t: int) -> bool {
    t > 0 && exists|s: Seq<char>|
        json::field(e, k) == Some(JsonView::Str(s)) && #[trigger] time::iso(s) == Some(t)
}

/// When an entry ended: as it says, or failing that when it started.
pub open spec fn ended(e: JsonView, t: int) -> bool {
    stamped(e, "completedAt"@, t) || (stamped(e, "startedAt"@, t) && forall|u: int|
        !stamped(e, "completedAt"@, u))
}

proof fn stamp_of(e: JsonView, k: Seq<char>, t: int)
    ensures
        stamped(e, k, t) <==> github::time_at(e, k) == Some(t),
{
    if github::time_at(e, k) == Some(t) {
        let s = json::field_str(e, k)->0;
        assert(json::field(e, k) == Some(JsonView::Str(s)));
        assert(time::iso(s) == Some(t));
    }
}

proof fn end_of_entry(e: JsonView, t: int)
    ensures
        ended(e, t) <==> github::end_of(e) == Some(t),
{
    stamp_of(e, "completedAt"@, t);
    stamp_of(e, "startedAt"@, t);
    if github::time_at(e, "completedAt"@) is Some {
        let u = github::time_at(e, "completedAt"@)->0;
        stamp_of(e, "completedAt"@, u);
        assert(stamped(e, "completedAt"@, u));
    } else {
        assert forall|u: int| !stamped(e, "completedAt"@, u) by {
            stamp_of(e, "completedAt"@, u);
        }
    }
}

spec fn lowest(v: Seq<Option<int>>) -> Option<int>
    decreases v.len(),
{
    if v.len() == 0 {
        None
    } else {
        github::least(lowest(v.drop_last()), v.last())
    }
}

spec fn highest(v: Seq<Option<int>>) -> Option<int>
    decreases v.len(),
{
    if v.len() == 0 {
        None
    } else {
        github::greatest(highest(v.drop_last()), v.last())
    }
}

proof fn lowest_is_least(v: Seq<Option<int>>)
    ensures
        lowest(v) is Some ==> v.contains(lowest(v)),
        forall|i: int|
            0 <= i < v.len() && (#[trigger] v[i]) is Some ==> lowest(v) is Some && lowest(v)->0
                <= v[i]->0,
    decreases v.len(),
{
    if v.len() > 0 {
        let w = v.drop_last();
        lowest_is_least(w);
        assert(forall|i: int| 0 <= i < w.len() ==> #[trigger] v[i] == w[i]);
        assert(v[v.len() - 1] == v.last());
        if lowest(v) is Some && lowest(v) == lowest(w) {
            let i = choose|i: int| 0 <= i < w.len() && w[i] == lowest(w);
            assert(v[i] == lowest(v));
        }
    }
}

proof fn highest_is_greatest(v: Seq<Option<int>>)
    ensures
        highest(v) is Some ==> v.contains(highest(v)),
        forall|i: int|
            0 <= i < v.len() && (#[trigger] v[i]) is Some ==> highest(v) is Some && highest(v)->0
                >= v[i]->0,
    decreases v.len(),
{
    if v.len() > 0 {
        let w = v.drop_last();
        highest_is_greatest(w);
        assert(forall|i: int| 0 <= i < w.len() ==> #[trigger] v[i] == w[i]);
        assert(v[v.len() - 1] == v.last());
        if highest(v) is Some && highest(v) == highest(w) {
            let i = choose|i: int| 0 <= i < w.len() && w[i] == highest(w);
            assert(v[i] == highest(v));
        }
    }
}

spec fn starts(rollup: Seq<JsonView>) -> Seq<Option<int>> {
    rollup.map_values(|e: JsonView| github::time_at(e, "startedAt"@))
}

spec fn finishes(rollup: Seq<JsonView>) -> Seq<Option<int>> {
    rollup.map_values(|e: JsonView| github::end_of(e))
}

proof fn span_is_of_all(rollup: Seq<JsonView>)
    ensures
        github::span(rollup).0 == lowest(starts(rollup)),
        github::span(rollup).1 == highest(finishes(rollup)),
    decreases rollup.len(),
{
    if rollup.len() > 0 {
        let w = rollup.drop_last();
        span_is_of_all(w);
        assert(starts(rollup).drop_last() =~= starts(w));
        assert(finishes(rollup).drop_last() =~= finishes(w));
    }
}

/// A head's checks began with the earliest that started.
pub proof fn the_checks_began(rollup: Seq<JsonView>)
    ensures
        github::span(rollup).0 matches Some(t) ==> (exists|i: int|
            0 <= i < rollup.len() && stamped(#[trigger] rollup[i], "startedAt"@, t))
            && forall|i: int, u: int|
            0 <= i < rollup.len() && #[trigger] stamped(rollup[i], "startedAt"@, u) ==> t <= u,
        github::span(rollup).0 is None ==> forall|i: int, u: int|
            0 <= i < rollup.len() ==> !#[trigger] stamped(rollup[i], "startedAt"@, u),
{
    span_is_of_all(rollup);
    let v = starts(rollup);
    lowest_is_least(v);
    let c = github::span(rollup).0;
    if let Some(t) = c {
        let i = choose|i: int| 0 <= i < v.len() && v[i] == c;
        stamp_of(rollup[i], "startedAt"@, t);
        assert(stamped(rollup[i], "startedAt"@, t));
    }
    assert forall|i: int, u: int|
        0 <= i < rollup.len() && #[trigger] stamped(rollup[i], "startedAt"@, u) implies c is Some
        && c->0 <= u by {
        stamp_of(rollup[i], "startedAt"@, u);
        assert(v[i] == Some(u));
    }
}

/// A head's checks ended with the latest that ended.
pub proof fn the_checks_ended(rollup: Seq<JsonView>)
    ensures
        github::span(rollup).1 matches Some(t) ==> (exists|i: int|
            0 <= i < rollup.len() && ended(#[trigger] rollup[i], t)) && forall|i: int, u: int|
            0 <= i < rollup.len() && #[trigger] ended(rollup[i], u) ==> u <= t,
        github::span(rollup).1 is None ==> forall|i: int, u: int|
            0 <= i < rollup.len() ==> !#[trigger] ended(rollup[i], u),
{
    span_is_of_all(rollup);
    let v = finishes(rollup);
    highest_is_greatest(v);
    let d = github::span(rollup).1;
    if let Some(t) = d {
        let i = choose|i: int| 0 <= i < v.len() && v[i] == d;
        end_of_entry(rollup[i], t);
        assert(ended(rollup[i], t));
    }
    assert forall|i: int, u: int|
        0 <= i < rollup.len() && #[trigger] ended(rollup[i], u) implies d is Some && u
        <= d->0 by {
        end_of_entry(rollup[i], u);
        assert(v[i] == Some(u));
    }
}

/// A head with a passing verdict and green checks is to be merged, at the
/// very commit; one without a verdict is to be looked at; any other is
/// nobody's to act on.
pub proof fn what_a_pull_request_asks(
    slug: Seq<char>,
    project: Seq<char>,
    pr: JsonView,
    issues: Seq<BranchIssue>,
    now: i64,
    rollup: Seq<JsonView>,
    n: int,
    head: Seq<char>,
    said: Option<Seq<char>>,
)
    requires
        json::field(pr, "statusCheckRollup"@) == Some(JsonView::Arr(rollup)),
        json::field(pr, "number"@) is Some,
        json::integer(json::field(pr, "number"@)->0) == Some(n),
        json::field(pr, "headRefOid"@) == Some(JsonView::Str(head)),
        github::verdict(rollup) == said,
    ensures
        ({
            let row = github::pr_row(slug, project, pr, issues, now);
            &&& said == Some("SUCCESS"@) && github::green(rollup) ==> row is Some && {
                let r = row->0;
                &&& r.rank == 10 && r.kind == "merge"@
                &&& r.command == "gh pr merge "@ + text::dec_int(n) + " --repo "@ + slug
                    + " --squash --admin --match-head-commit "@ + head
                &&& r.since == github::int_opt(github::span(rollup).1)
            }
            &&& said == Some("SUCCESS"@) && !github::green(rollup) ==> row is None
            &&& said == Some("FAILURE"@) || said == Some("ERROR"@) ==> row is None
            &&& said is None || (said != Some("SUCCESS"@) && said != Some("FAILURE"@) && said
                != Some("ERROR"@)) ==> row is Some && {
                let r = row->0;
                &&& r.rank == 60 && r.kind == "pr_no_verdict"@
                &&& r.command == "gh pr view "@ + text::dec_int(n) + " --repo "@ + slug
                &&& r.since == github::int_opt(github::span(rollup).0)
            }
            &&& row matches Some(r) ==> {
                &&& r.project == project
                &&& r.link == json::field_str(pr, "url"@)
                &&& r.subject == ("pr"@, slug + "#"@ + text::dec_int(n))
            }
        }),
{
    reveal_strlit("SUCCESS");
    reveal_strlit("FAILURE");
    reveal_strlit("ERROR");
    assert("SUCCESS"@[0] != "FAILURE"@[0]);
    assert("SUCCESS"@[0] != "ERROR"@[0]);
}

/// A pull request belongs to whoever owns the first issue whose branch
/// prefix its branch begins with.
pub proof fn a_branch_has_the_owner_of_its_issue(
    head: Seq<char>,
    issues: Seq<BranchIssue>,
    i: int,
)
    requires
        0 <= i < issues.len(),
        text::begins(head, issues[i].prefix@),
        forall|j: int| 0 <= j < i ==> !text::begins(head, (#[trigger] issues[j]).prefix@),
    ensures
        issues[i].owner is Some ==> github::branch_owner(head, issues) == issues[i].owner->0@,
        issues[i].owner is None ==> github::branch_owner(head, issues).len() == 0,
    decreases i,
{
    if i > 0 {
        assert(!text::begins(head, issues[0].prefix@));
        let w = issues.drop_first();
        assert(w[i - 1] == issues[i]);
        assert forall|j: int| 0 <= j < i - 1 implies !text::begins(
            head,
            (#[trigger] w[j]).prefix@,
        ) by {
            assert(w[j] == issues[j + 1]);
        }
        a_branch_has_the_owner_of_its_issue(head, w, i - 1);
    }
}

// ---------- the default branch ----------

/// A push run of the workflow file, whatever directory and reference its path
/// names, of that commit.
pub open spec fn runs_for(r: JsonView, sha: Seq<char>) -> bool {
    &&& json::field(r, "event"@) == Some(JsonView::Str("push"@))
    &&& exists|path: Seq<char>|
        {
            &&& json::field(r, "path"@) == Some(JsonView::Str(path))
            &&& ({
                let file = #[trigger] text::before_first(path, '@');
                file == "ci.yml"@ || text::ends(file, "/ci.yml"@)
            })
        }
    &&& json::field(r, "head_sha"@) == Some(JsonView::Str(sha)) && sha.len() > 0
}

proof fn run_of_sha(r: JsonView, sha: Seq<char>)
    ensures
        runs_for(r, sha) <==> github::run_sha(r) == Some(sha),
{
    reveal_strlit("/");
    reveal_strlit("ci.yml");
    reveal_strlit("/ci.yml");
    assert("/"@ + "ci.yml"@ =~= "/ci.yml"@);
    if github::run_sha(r) == Some(sha) {
        let path = match json::field_str(r, "path"@) {
            Some(p) => p,
            None => seq![],
        };
        let file = text::before_first(path, '@');
        if json::field_str(r, "path"@) is None {
            assert(file =~= seq![]);
            assert("ci.yml"@.len() == 6);
            assert("/ci.yml"@.len() == 7);
            assert(!text::ends(file, "/ci.yml"@));
        }
        assert(json::field(r, "path"@) == Some(JsonView::Str(path)));
        assert(runs_for(r, sha));
    }
}

proof fn own_is_newest(runs: Seq<JsonView>, sha: Seq<char>)
    ensures
        match github::own_run(runs, sha) {
            Some(k) => 0 <= k < runs.len() && github::run_sha(runs[k]) == Some(sha)
                && forall|j: int|
                0 <= j < runs.len() && github::run_sha(#[trigger] runs[j]) == Some(sha)
                    ==> github::run_id(runs[j]) <= github::run_id(runs[k]),
            None => forall|j: int|
                0 <= j < runs.len() ==> github::run_sha(#[trigger] runs[j]) != Some(sha),
        },
    decreases runs.len(),
{
    if runs.len() > 0 {
        let w = runs.drop_last();
        own_is_newest(w, sha);
        assert(forall|j: int| 0 <= j < w.len() ==> #[trigger] runs[j] == w[j]);
    }
}

/// A commit is in the state of its own newest push run of the workflow: at
/// work until it completed, then passed, failed or cancelled by the
/// conclusion.
pub proof fn a_commit_has_the_state_of_its_newest_run(
    runs: Seq<JsonView>,
    sha: Seq<char>,
    k: int,
)
    requires
        0 <= k < runs.len(),
        runs_for(runs[k], sha),
        forall|j: int|
            0 <= j < runs.len() && j != k && runs_for(#[trigger] runs[j], sha) ==> github::run_id(
                runs[j],
            ) < github::run_id(runs[k]),
    ensures
        ({
            let s = github::sha_ci(runs, sha);
            let done = json::field_str(runs[k], "status"@) == Some("completed"@);
            let c = json::field_str(runs[k], "conclusion"@);
            &&& s.sha == sha && s.conclusion == c
            &&& s.run_url == json::field_str(runs[k], "html_url"@)
            &&& s.created_at == json::field_str(runs[k], "created_at"@)
            &&& json::field(runs[k], "id"@) is Some ==> s.run_id == json::whole(
                json::field(runs[k], "id"@)->0,
            )
            &&& !done ==> s.state is Pending
            &&& done && c == Some("success"@) ==> s.state is Passed
            &&& done && (c == Some("failure"@) || c == Some("timed_out"@) || c == Some(
                "startup_failure"@,
            )) ==> s.state is Failed
            &&& done && c != Some("success"@) && c != Some("failure"@) && c != Some("timed_out"@)
                && c != Some("startup_failure"@) ==> s.state is Cancelled
        }),
{
    own_is_newest(runs, sha);
    run_of_sha(runs[k], sha);
    let p = github::own_run(runs, sha)->0;
    run_of_sha(runs[p], sha);
    if p != k {
        assert(runs_for(runs[p], sha));
        assert(false);
    }
    reveal_strlit("success");
    reveal_strlit("failure");
    reveal_strlit("timed_out");
    reveal_strlit("startup_failure");
    assert("success"@[0] != "failure"@[0]);
    assert("success"@[0] != "timed_out"@[0]);
    assert("success"@[1] != "startup_failure"@[1]);
}

/// A commit without such a run is missing its CI.
pub proof fn a_commit_without_a_run_is_missing(runs: Seq<JsonView>, sha: Seq<char>)
    requires
        forall|j: int| 0 <= j < runs.len() ==> !runs_for(#[trigger] runs[j], sha),
    ensures
        github::sha_ci(runs, sha).state is Missing,
        github::sha_ci(runs, sha).sha == sha,
{
    own_is_newest(runs, sha);
    if github::own_run(runs, sha) is Some {
        run_of_sha(runs[github::own_run(runs, sha)->0], sha);
    }
}

/// Of the commits, the first twenty are classified, each by its own run, in
/// the order given; one that is cancelled or missing is covered by the
/// nearest commit in front of it that passed, and no other is.
pub proof fn each_commit_is_classified(runs: Seq<JsonView>, listed: Seq<Seq<char>>, i: int)
    requires
        0 <= i < github::ci_shas(runs, listed).len(),
        i < 20,
    ensures
        ({
            let shas = github::ci_shas(runs, listed);
            let all = github::main_ci(runs, listed);
            let own = github::sha_ci(runs, shas[i]);
            &&& all.len() <= 20 && i < all.len()
            &&& all.len() < 20 ==> all.len() == shas.len()
            &&& all[i].sha == shas[i] && all[i].state == own.state && all[i].run_id == own.run_id
            &&& all[i].covered_by is Some ==> own.state is Cancelled || own.state is Missing
            &&& own.state is Cancelled || own.state is Missing ==> (all[i].covered_by is None
                <==> forall|j: int|
                0 <= j < i ==> !((#[trigger] all[j]).state is Passed))
            &&& all[i].covered_by matches Some(c) ==> exists|j: int|
                0 <= j < i && (#[trigger] all[j]).sha == c && all[j].state is Passed && forall|k: int|
                    j < k < i ==> !((#[trigger] all[k]).state is Passed)
        }),
{
    let shas = github::ci_shas(runs, listed);
    let all = github::main_ci(runs, listed);
    assert forall|j: int| 0 <= j < all.len() implies #[trigger] all[j].state == github::sha_ci(
        runs,
        shas[j],
    ).state && all[j].sha == shas[j] by {
        assert(all[j] == github::covered(runs, shas, j));
        own_is_newest(runs, shas[j]);
    }
    assert(all[i] == github::covered(runs, shas, i));
    let c = github::nearest_pass(runs, shas, i);
    if c is Some {
        let j = last_pass(runs, shas, i);
        assert(all[j].sha == c->0 && all[j].state is Passed);
        assert forall|k: int| j < k < i implies !((#[trigger] all[k]).state is Passed) by {
            assert(!passes(runs, shas[k]));
            reveal(passes);
        }
    } else {
        no_pass(runs, shas, i);
        assert forall|j: int| 0 <= j < i implies !((#[trigger] all[j]).state is Passed) by {
            assert(!passes(runs, shas[j]));
            reveal(passes);
        }
    }
}

#[verifier::opaque]
spec fn passes(runs: Seq<JsonView>, sha: Seq<char>) -> bool {
    github::sha_ci(runs, sha).state is Passed
}

proof fn last_pass(runs: Seq<JsonView>, shas: Seq<Seq<char>>, i: int) -> (j: int)
    requires
        0 <= i <= shas.len(),
        github::nearest_pass(runs, shas, i) is Some,
    ensures
        0 <= j < i,
        shas[j] == github::nearest_pass(runs, shas, i)->0,
        github::sha_ci(runs, shas[j]).state is Passed,
        forall|k: int| j < k < i ==> !passes(runs, #[trigger] shas[k]),
    decreases i,
{
    if github::sha_ci(runs, shas[i - 1]).state is Passed {
        i - 1
    } else {
        let j = last_pass(runs, shas, i - 1);
        assert(!passes(runs, shas[i - 1])) by {
            reveal(passes);
        }
        j
    }
}

proof fn no_pass(runs: Seq<JsonView>, shas: Seq<Seq<char>>, i: int)
    requires
        0 <= i <= shas.len(),
        github::nearest_pass(runs, shas, i) is None,
    ensures
        forall|k: int| 0 <= k < i ==> !passes(runs, #[trigger] shas[k]),
    decreases i,
{
    if i > 0 {
        no_pass(runs, shas, i - 1);
        assert(!passes(runs, shas[i - 1])) by {
            reveal(passes);
        }
    }
}

/// The commits are those of the log, behind the ones that CI knows and the
/// log does not yet: each once, and only such as were run for.
pub proof fn the_log_comes_behind_what_is_ahead(
    runs: Seq<JsonView>,
    listed: Seq<Seq<char>>,
    s: Seq<char>,
)
    ensures
        ({
            let shas = github::ci_shas(runs, listed);
            let n = shas.len() - listed.len();
            &&& n >= 0
            &&& forall|i: int| 0 <= i < listed.len() ==> shas[n + i] == #[trigger] listed[i]
            &&& shas.take(n).contains(s) <==> !listed.contains(s) && (exists|k: int|
                0 <= k < runs.len() && runs_for(#[trigger] runs[k], s)) && text::lt(
                github::newest_listed(runs, listed),
                github::created(runs, s),
            )
        }),
{
    let a = github::ahead(runs, listed, runs.len() as int);
    let shas = github::ci_shas(runs, listed);
    assert(shas.take(a.len() as int) =~= a);
    ahead_holds(runs, listed, runs.len() as int, s);
    if exists|k: int| 0 <= k < runs.len() && github::run_sha(#[trigger] runs[k]) == Some(s) {
        let k = choose|k: int|
            0 <= k < runs.len() && github::run_sha(#[trigger] runs[k]) == Some(s);
        run_of_sha(runs[k], s);
        assert(runs_for(runs[k], s));
    }
    if exists|k: int| 0 <= k < runs.len() && runs_for(#[trigger] runs[k], s) {
        let k = choose|k: int| 0 <= k < runs.len() && runs_for(#[trigger] runs[k], s);
        run_of_sha(runs[k], s);
        assert(github::run_sha(runs[k]) == Some(s));
    }
}

proof fn ahead_holds(runs: Seq<JsonView>, listed: Seq<Seq<char>>, n: int, s: Seq<char>)
    requires
        0 <= n <= runs.len(),
    ensures
        github::ahead(runs, listed, n).contains(s) <==> github::is_ahead(runs, listed, s) && exists|
            k: int,
        |
            0 <= k < n && github::run_sha(#[trigger] runs[k]) == Some(s),
    decreases n,
{
    if n > 0 {
        ahead_holds(runs, listed, n - 1, s);
        let before = github::ahead(runs, listed, n - 1);
        let le = github::later(runs);
        if let Some(x) = github::run_sha(runs[n - 1]) {
            if github::is_ahead(runs, listed, x) && !before.contains(x) {
                insert_holds(before, x, le, s);
            } else if x == s {
                if github::is_ahead(runs, listed, s) {
                    assert(github::run_sha(runs[n - 1]) == Some(s));
                }
            }
        }
        if exists|k: int| 0 <= k < n && github::run_sha(#[trigger] runs[k]) == Some(s) {
            let k = choose|k: int| 0 <= k < n && github::run_sha(#[trigger] runs[k]) == Some(s);
            if k < n - 1 {
                assert(0 <= k < n - 1 && github::run_sha(runs[k]) == Some(s));
            }
        }
    }
}

proof fn insert_holds<T>(v: Seq<T>, x: T, le: spec_fn(T, T) -> bool, s: T)
    ensures
        order::insert(v, x, le).contains(s) <==> v.contains(s) || s == x,
    decreases v.len(),
{
    if v.len() == 0 || le(v.last(), x) {
        push_holds(v, x, s);
    } else {
        let w = v.drop_last();
        insert_holds(w, x, le, s);
        push_holds(order::insert(w, x, le), v.last(), s);
        push_holds(w, v.last(), s);
        assert(w.push(v.last()) =~= v);
    }
}

proof fn push_holds<T>(v: Seq<T>, x: T, s: T)
    ensures
        v.push(x).contains(s) <==> v.contains(s) || s == x,
{
    let p = v.push(x);
    if v.contains(s) {
        let k = choose|k: int| 0 <= k < v.len() && v[k] == s;
        assert(p[k] == s);
    }
    assert(p[v.len() as int] == x);
    if p.contains(s) {
        let k = choose|k: int| 0 <= k < p.len() && p[k] == s;
        if k < v.len() {
            assert(v[k] == s);
        }
    }
}

// ---------- what the default branch raises ----------

proof fn first_said(shas: Seq<ShaCiView>, i: int)
    requires
        0 <= i < shas.len(),
        shas[i].state is Passed || shas[i].state is Failed,
        forall|j: int|
            0 <= j < i ==> !((#[trigger] shas[j]).state is Passed) && !(shas[j].state is Failed),
    ensures
        github::first_verdict(shas) == Some(shas[i]),
    decreases i,
{
    if i > 0 {
        assert(!(shas[0].state is Passed) && !(shas[0].state is Failed));
        let w = shas.drop_first();
        assert(w[i - 1] == shas[i]);
        assert forall|j: int| 0 <= j < i - 1 implies !((#[trigger] w[j]).state is Passed) && !(
        w[j].state is Failed) by {
            assert(w[j] == shas[j + 1]);
        }
        first_said(w, i - 1);
    }
}

/// The branch is red by its newest commit that passed or failed.
pub proof fn the_newest_verdict_is_the_branchs(shas: Seq<ShaCiView>, i: int)
    requires
        0 <= i < shas.len(),
        shas[i].state is Passed || shas[i].state is Failed,
        forall|j: int|
            0 <= j < i ==> !((#[trigger] shas[j]).state is Passed) && !(shas[j].state is Failed),
    ensures
        shas[i].state is Failed ==> github::red_of(shas) == Some(shas[i]),
        shas[i].state is Passed ==> github::red_of(shas) is None,
{
    first_said(shas, i);
}

/// A commit that is cancelled or missing and that no later pass covers.
pub open spec fn open_commit(s: ShaCiView) -> bool {
    (s.state is Cancelled || s.state is Missing) && s.covered_by is None
}

/// A red branch and commits left open raise a row each, and nothing else
/// does.
pub proof fn what_the_default_branch_raises(
    slug: Seq<char>,
    project: Seq<char>,
    branch: Seq<char>,
    shas: Seq<ShaCiView>,
    now: i64,
)
    ensures
        ({
            let rows = github::ci_rows(slug, project, branch, shas, now);
            let red = github::red_of(shas);
            let open = exists|i: int| 0 <= i < shas.len() && open_commit(#[trigger] shas[i]);
            let first: int = if red is Some {
                1
            } else {
                0
            };
            &&& rows.len() == first + (if open {
                1int
            } else {
                0
            })
            &&& red matches Some(s) ==> {
                let r = rows[0];
                &&& r.rank == 90 && r.kind == "ci_red"@ && r.project == project && r.link
                    == s.run_url
                &&& r.subject == ("ci"@, slug + "@"@ + branch)
                &&& s.run_id matches Some(id) ==> r.command == "gh run view "@ + text::dec(id)
                    + " --repo "@ + slug
            }
            &&& open ==> {
                let r = rows[first];
                &&& r.rank == 92 && r.kind == "ci_unverified"@ && r.project == project
                &&& r.subject == ("ci"@, slug + "@"@ + branch)
            }
        }),
{
    let p = github::uncovered();
    let v = shas.filter(p);
    if exists|i: int| 0 <= i < shas.len() && open_commit(#[trigger] shas[i]) {
        let i = choose|i: int| 0 <= i < shas.len() && open_commit(#[trigger] shas[i]);
        shas.lemma_filter_contains(p, i);
        let k = choose|k: int| 0 <= k < v.len() && v[k] == shas[i];
        assert(v.len() > 0);
    } else if v.len() > 0 {
        shas.lemma_filter_pred(p, 0);
        assert(v.contains(v[0]));
        shas.lemma_filter_contains_rev(p, v[0]);
        let i = choose|i: int| 0 <= i < shas.len() && shas[i] == v[0];
        assert(open_commit(shas[i]));
        assert(false);
    }
    reveal_strlit("gh run ");
    reveal_strlit("view");
    reveal_strlit(" ");
    reveal_strlit("gh run view ");
    assert("gh run "@ + "view"@ + " "@ =~= "gh run view "@);
}

// ---------- the cache ----------

/// What is kept of a cache is what it holds of the repositories wanted, in
/// its order.
pub proof fn what_is_kept_of_the_cache(
    v: Seq<(Seq<char>, JsonView)>,
    slugs: Seq<Seq<char>>,
    x: (Seq<char>, JsonView),
)
    ensures
        github::wanted(v, slugs).contains(x) <==> v.contains(x) && slugs.contains(x.0),
        github::wanted(v, slugs).len() <= v.len(),
    decreases v.len(),
{
    if v.len() > 0 {
        let w = v.drop_last();
        what_is_kept_of_the_cache(w, slugs, x);
        push_holds(github::wanted(w, slugs), v.last(), x);
        push_holds(w, v.last(), x);
        assert(w.push(v.last()) =~= v);
    }
}

/// What was fetched is the replies that came, each under its repository.
pub proof fn every_reply_counts(
    slugs: Seq<Seq<char>>,
    results: Seq<Result<json::Json, String>>,
    x: (Seq<char>, JsonView),
)
    requires
        slugs.len() == results.len(),
    ensures
        github::fetched(slugs, results).contains(x) <==> exists|i: int|
            0 <= i < results.len() && (#[trigger] results[i]) is Ok && results[i]->Ok_0@ == x.1
                && slugs[i] == x.0,
        github::fetched(slugs, results).len() == 0 <==> forall|i: int|
            0 <= i < results.len() ==> (#[trigger] results[i]) is Err,
    decreases results.len(),
{
    if results.len() > 0 {
        let (s, w) = (slugs.drop_last(), results.drop_last());
        let last = results.len() - 1;
        every_reply_counts(s, w, x);
        assert(forall|i: int| 0 <= i < w.len() ==> #[trigger] results[i] == w[i] && slugs[i]
            == s[i]);
        assert(results[last] == results.last() && slugs[last] == slugs.last());
        let before = github::fetched(s, w);
        if let Ok(j) = results.last() {
            push_holds(before, (slugs.last(), j@), x);
        }
        if exists|i: int|
            0 <= i < w.len() && (#[trigger] w[i]) is Ok && w[i]->Ok_0@ == x.1 && s[i] == x.0 {
            let i = choose|i: int|
                0 <= i < w.len() && (#[trigger] w[i]) is Ok && w[i]->Ok_0@ == x.1 && s[i] == x.0;
            assert(results[i] is Ok && results[i]->Ok_0@ == x.1 && slugs[i] == x.0);
        }
        if exists|i: int|
            0 <= i < results.len() && (#[trigger] results[i]) is Ok && results[i]->Ok_0@ == x.1
                && slugs[i] == x.0 {
            let i = choose|i: int|
                0 <= i < results.len() && (#[trigger] results[i]) is Ok && results[i]->Ok_0@
                    == x.1 && slugs[i] == x.0;
            if i < last {
                assert(w[i] is Ok && w[i]->Ok_0@ == x.1 && s[i] == x.0);
            }
        }
        if forall|i: int| 0 <= i < w.len() ==> (#[trigger] w[i]) is Err {
        } else {
            let i = choose|i: int| 0 <= i < w.len() && !((#[trigger] w[i]) is Err);
            assert(!(results[i] is Err));
        }
    }
}

/// The first fault is the one that is told.
pub proof fn the_first_fault_is_told(results: Seq<Result<json::Json, String>>, i: int)
    requires
        0 <= i < results.len(),
        results[i] is Err,
        forall|j: int| 0 <= j < i ==> (#[trigger] results[j]) is Ok,
    ensures
        github::first_error(results) == Some(results[i]->Err_0@),
    decreases results.len(),
{
    let w = results.drop_last();
    if i < results.len() - 1 {
        assert(w[i] == results[i]);
        the_first_fault_is_told(w, i);
    } else {
        assert forall|j: int| 0 <= j < w.len() implies (#[trigger] w[j]) is Ok by {
            assert(w[j] == results[j]);
        }
        no_fault_is_told(w);
    }
}

/// Where every reply came, no fault is told.
pub proof fn no_fault_is_told(results: Seq<Result<json::Json, String>>)
    requires
        forall|j: int| 0 <= j < results.len() ==> (#[trigger] results[j]) is Ok,
    ensures
        github::first_error(results) is None,
    decreases results.len(),
{
    if results.len() > 0 {
        let w = results.drop_last();
        assert forall|j: int| 0 <= j < w.len() implies (#[trigger] w[j]) is Ok by {
            assert(w[j] == results[j]);
        }
        no_fault_is_told(w);
        assert(results[results.len() - 1] is Ok);
    }
}

/// Something is held for the repository.
pub open spec fn has_repo(v: Seq<(Seq<char>, JsonView)>, slug: Seq<char>) -> bool {
    exists|i: int| 0 <= i < v.len() && (#[trigger] v[i]).0 == slug
}

proof fn repo_found(v: Seq<(Seq<char>, JsonView)>, slug: Seq<char>)
    ensures
        github::repo_in(v, slug) is Some <==> has_repo(v, slug),
        github::repo_in(v, slug) matches Some(j) ==> v.contains((slug, j)),
    decreases v.len(),
{
    if v.len() > 0 {
        let w = v.drop_first();
        repo_found(w, slug);
        assert(forall|i: int| 0 < i < v.len() ==> #[trigger] v[i] == w[i - 1]);
        if v[0].0 != slug {
            if has_repo(w, slug) {
                let i = choose|i: int| 0 <= i < w.len() && (#[trigger] w[i]).0 == slug;
                assert(v[i + 1].0 == slug);
            }
            if has_repo(v, slug) {
                let i = choose|i: int| 0 <= i < v.len() && (#[trigger] v[i]).0 == slug;
                assert(w[i - 1].0 == slug);
            }
            if let Some(j) = github::repo_in(w, slug) {
                let i = choose|i: int| 0 <= i < w.len() && w[i] == (slug, j);
                assert(v[i + 1] == (slug, j));
            }
        } else {
            assert(v[0] == (slug, v[0].1));
        }
    }
}

/// What was fetched stays in front; a repository whose reply failed is filled
/// in from the cache, and none of the others is.
pub proof fn gaps_are_filled_from_the_cache(
    got: Seq<(Seq<char>, JsonView)>,
    slugs: Seq<Seq<char>>,
    cached: Seq<(Seq<char>, JsonView)>,
    n: int,
)
    requires
        0 <= n <= slugs.len(),
    ensures
        ({
            let all = github::filled(got, slugs, cached, n);
            &&& all.len() >= got.len()
            &&& forall|i: int| 0 <= i < got.len() ==> #[trigger] all[i] == got[i]
            &&& forall|i: int|
                got.len() <= i < all.len() ==> cached.contains(#[trigger] all[i])
                    && slugs.contains(all[i].0) && !has_repo(got, all[i].0)
            &&& forall|k: int|
                0 <= k < n ==> (has_repo(all, #[trigger] slugs[k]) <==> has_repo(got, slugs[k])
                    || has_repo(cached, slugs[k]))
        }),
    decreases n,
{
    if n > 0 {
        gaps_are_filled_from_the_cache(got, slugs, cached, n - 1);
        let before = github::filled(got, slugs, cached, n - 1);
        let all = github::filled(got, slugs, cached, n);
        let slug = slugs[n - 1];
        repo_found(cached, slug);
        repo_found(before, slug);
        assert forall|s: Seq<char>| has_repo(before, s) implies #[trigger] has_repo(all, s) by {
            let i = choose|i: int| 0 <= i < before.len() && (#[trigger] before[i]).0 == s;
            assert(all[i].0 == s);
        }
        assert forall|s: Seq<char>| has_repo(got, s) implies #[trigger] has_repo(before, s) by {
            let i = choose|i: int| 0 <= i < got.len() && (#[trigger] got[i]).0 == s;
            assert(before[i].0 == s);
        }
        if all.len() > before.len() {
            assert(all[before.len() as int].0 == slug);
            assert(has_repo(all, slug));
            assert forall|s: Seq<char>| #[trigger] has_repo(all, s) && s != slug implies has_repo(
                before,
                s,
            ) by {
                let i = choose|i: int| 0 <= i < all.len() && (#[trigger] all[i]).0 == s;
                assert(before[i].0 == s);
            }
        }
        if has_repo(before, slug) && !has_repo(got, slug) {
            let i = choose|i: int| 0 <= i < before.len() && (#[trigger] before[i]).0 == slug;
            assert(cached.contains(before[i]));
            let k = choose|k: int| 0 <= k < cached.len() && cached[k] == before[i];
            assert(cached[k].0 == slug);
        }
        assert forall|k: int| 0 <= k < n implies (has_repo(all, #[trigger] slugs[k]) <==> has_repo(
            got,
            slugs[k],
        ) || has_repo(cached, slugs[k])) by {
            if k < n - 1 {
                assert(has_repo(before, slugs[k]) <==> has_repo(got, slugs[k]) || has_repo(
                    cached,
                    slugs[k],
                ));
            }
        }
    }
}

} // verus!
