//! The parts of the screen beside its rows, told by the sources.
use crate::json;
use crate::json::JsonView;
use crate::overview::deploy::RepoLine;
use crate::overview::github;
use crate::overview::screen;
use crate::overview::screen::{AgentIn, CiEntryView, CiView, GhIn, Sources, TrackerIn};
use crate::overview::Options;
use crate::text;
use vstd::prelude::*;

verus! {

/// All panes are idle exactly where the daemon answers and no agent holds an
/// upgrade back.
pub proof fn when_all_panes_are_idle(reachable: bool, v: Seq<AgentIn>)
    ensures
        screen::idle(reachable, v) <==> reachable && !exists|i: int|
            0 <= i < v.len() && (#[trigger] v[i]).probe.holds_drift,
{
}

/// A screen is refused exactly where it is of a project that no one declared,
/// or of a group that cannot be resolved.
pub proof fn what_screen_is_refused(s: Sources, opts: Options)
    ensures
        screen::refusal(s, opts) is None <==> {
            &&& opts.scope.project is Some ==> exists|i: int|
                0 <= i < s.projects@.len() && (#[trigger] s.projects@[i]).key@
                    == opts.scope.project->0@
            &&& opts.scope.group is Some ==> s.reachable && exists|i: int|
                0 <= i < s.members@.len() && (#[trigger] s.members@[i]).alias@
                    == opts.scope.group->0@
        },
{
    if opts.scope.project is Some {
        let k = opts.scope.project->0@;
        let keys = crate::overview::deploy::keys(s.projects@);
        if keys.contains(k) {
            let i = choose|i: int| 0 <= i < keys.len() && keys[i] == k;
            assert(s.projects@[i].key@ == k);
        }
        if exists|i: int| 0 <= i < s.projects@.len() && (#[trigger] s.projects@[i]).key@ == k {
            let i = choose|i: int|
                0 <= i < s.projects@.len() && (#[trigger] s.projects@[i]).key@ == k;
            assert(keys[i] == k);
        }
    }
}

/// A tracker behind its upstream is told, with how far and the command that
/// syncs it.
pub proof fn when_the_tracker_is_behind(behind: Option<i64>)
    ensures
        screen::behind_row(behind) is Some <==> behind is Some && behind->0 > 0,
        screen::behind_row(behind) matches Some(r) ==> r.rank == 110 && r.kind == "tracker_behind"@
            && r.command == "cadence issue sync"@ && r.title == "tracker "@ + text::dec(
            behind->0 as nat,
        ) + " commit(s) behind upstream"@ && r.subject == ("tracker"@, "pm"@),
{
}

/// Issues whose clocks were not read are counted in a note; without any there
/// is none.
pub proof fn when_clocks_were_skipped(t: TrackerIn)
    ensures
        screen::skipped_note(Some(t)).len() == (if t.skipped > 0 {
            1int
        } else {
            0
        }),
        screen::skipped_note(None).len() == 0,
        t.skipped > 0 ==> text::begins(
            screen::skipped_note(Some(t))[0].detail,
            text::dec(t.skipped as nat),
        ),
{
    if t.skipped > 0 {
        let n = text::dec(t.skipped as nat);
        let d = screen::skipped_note(Some(t))[0].detail;
        assert(d.subrange(0, n.len() as int) =~= n);
    }
}

/// The branch of every pull request that is open is known, in small letters.
pub proof fn every_open_branch_is_known(prs: Seq<JsonView>, i: int, head: Seq<char>)
    requires
        0 <= i < prs.len(),
        json::field(prs[i], "headRefName"@) == Some(JsonView::Str(head)),
    ensures
        screen::heads(prs).contains(text::lowercase(head)),
    decreases prs.len(),
{
    let w = prs.drop_last();
    let before = screen::heads(w);
    let x = text::lowercase(head);
    if i < prs.len() - 1 {
        every_open_branch_is_known(w, i, head);
        let k = choose|k: int| 0 <= k < before.len() && before[k] == x;
        assert(screen::heads(prs)[k] == x);
    } else {
        assert(screen::heads(prs)[before.len() as int] == x);
    }
}

/// And so over all repositories.
pub proof fn branches_of_all_repositories(gh: Seq<GhIn>, i: int, h: Seq<char>)
    requires
        0 <= i < gh.len(),
        screen::heads(screen::prs_of(gh[i].data@)).contains(h),
    ensures
        screen::all_heads(gh).contains(h),
    decreases gh.len(),
{
    let w = gh.drop_last();
    let a = screen::all_heads(w);
    let b = screen::heads(screen::prs_of(gh.last().data@));
    if i < gh.len() - 1 {
        branches_of_all_repositories(w, i, h);
        let k = choose|k: int| 0 <= k < a.len() && a[k] == h;
        assert((a + b)[k] == h);
    } else {
        let k = choose|k: int| 0 <= k < b.len() && b[k] == h;
        assert((a + b)[a.len() + k] == h);
    }
}

/// What is read of the CI of a default branch: nothing where there is none or
/// it is absent, the runs where they came, and a fault otherwise.
pub proof fn what_is_read_of_the_ci(data: JsonView, block: JsonView, branch: Seq<char>)
    requires
        json::field(data, "main_ci"@) == Some(block),
        !(block is Null),
        json::field(block, "branch"@) == Some(JsonView::Str(branch)),
    ensures
        ({
            let c = screen::ci_view(data, None);
            let gone = json::field(block, "absent"@) == Some(JsonView::Bool(true));
            let runs = json::field(block, "runs"@);
            &&& gone ==> c is Nothing
            &&& !gone && runs is Some && runs->0 is Arr ==> (c matches CiView::Shas {
                branch: b,
                by_log,
                log_error,
                shas,
            } && b == branch && !by_log && shas == github::main_ci(runs->0->Arr_0, seq![]))
            &&& !gone && !(runs is Some && runs->0 is Arr) ==> (c matches CiView::Fault {
                branch: b,
                error,
            } && b == Some(branch))
        }),
{
}

/// A repository without CI data is left out; any other of the scope is shown
/// under its project.
pub proof fn which_ci_is_shown(
    gh: Seq<GhIn>,
    lines: Seq<RepoLine>,
    scope: Option<Seq<char>>,
    e: CiEntryView,
)
    ensures
        screen::gh_entries(gh, lines, scope).contains(e) <==> exists|i: int|
            0 <= i < gh.len() && is_entry(#[trigger] gh[i], lines, scope, e),
    decreases gh.len(),
{
    if gh.len() > 0 {
        let w = gh.drop_last();
        let last = gh.len() - 1;
        which_ci_is_shown(w, lines, scope, e);
        assert(forall|i: int| 0 <= i < w.len() ==> #[trigger] gh[i] == w[i]);
        assert(gh[last] == gh.last());
        let before = screen::gh_entries(w, lines, scope);
        let all = screen::gh_entries(gh, lines, scope);
        if before.contains(e) {
            let k = choose|k: int| 0 <= k < before.len() && before[k] == e;
            assert(all[k] == e);
            let i = choose|i: int| 0 <= i < w.len() && is_entry(#[trigger] w[i], lines, scope, e);
            assert(is_entry(gh[i], lines, scope, e));
        }
        if is_entry(gh[last], lines, scope, e) {
            assert(all[before.len() as int] == e);
        }
        if all.contains(e) && !before.contains(e) {
            let k = choose|k: int| 0 <= k < all.len() && all[k] == e;
            if k < before.len() {
                assert(before[k] == e);
                assert(false);
            }
            assert(is_entry(gh[last], lines, scope, e));
        }
        if exists|i: int| 0 <= i < gh.len() && is_entry(#[trigger] gh[i], lines, scope, e) {
            let i = choose|i: int| 0 <= i < gh.len() && is_entry(#[trigger] gh[i], lines, scope, e);
            if i < last {
                assert(is_entry(w[i], lines, scope, e));
            }
        }
    }
}

/// The entry that a repository brings.
pub open spec fn is_entry(
    g: GhIn,
    lines: Seq<RepoLine>,
    scope: Option<Seq<char>>,
    e: CiEntryView,
) -> bool {
    &&& e.slug == g.slug@
    &&& e.project == screen::gh_project(lines, g)
    &&& e.ci == screen::ci_view(g.data@, g.log)
    &&& !(e.ci is Nothing)
    &&& scope is Some ==> scope->0 == e.project
}

} // verus!
