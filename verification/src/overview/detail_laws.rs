//! What the rows of an agent say, told by what the daemon says of it.
use crate::overview::agents;
use crate::overview::agents::{AgentProbe, AgentRow, Message, Request, Show};
use crate::overview::needs::{ExtraView, ItemView};
use crate::paths;
use crate::text;
use vstd::prelude::*;

verus! {

/// Never less than nothing.
pub open spec fn at_least_none(n: int) -> int {
    if n < 0 {
        0
    } else {
        n
    }
}

/// The time since the daemon last heard of the agent.
pub open spec fn unheard(a: AgentRow, now: i64) -> int {
    match a.updated {
        Some(u) => now - u,
        None => 0,
    }
}

/// The time is one that a clock can show.
pub open spec fn shown(n: int) -> bool {
    i64::MIN <= n <= i64::MAX
}

/// The row is of the agent, in the project, and belongs to whoever it answers
/// to.
pub open spec fn of_agent(r: ItemView, a: AgentRow, project: Seq<char>) -> bool {
    &&& r.project == project && r.link is None
    &&& r.subject == ("agent"@, a.alias@)
    &&& r.agents == (if a.alias@.len() == 0 {
        seq![]
    } else {
        seq![a.alias@]
    })
}

pub open spec fn answers_to(r: ItemView, a: AgentRow) -> bool {
    match a.upstream {
        Some(u) => if u@.len() > 0 {
            r.owner == Some(u@)
        } else {
            r.owner is None
        },
        None => r.owner is None,
    }
}

/// A stall tells how long the turn has been silent, or else how long the agent
/// was not heard of, and since when.
pub proof fn what_a_stall_says(a: AgentRow, project: Seq<char>, now: i64)
    requires
        a.stalled,
        shown(unheard(a, now)),
    ensures
        agents::stalled_row(a, project, now) matches Some(r) && {
            &&& of_agent(r, a, project) && answers_to(r, a)
            &&& r.title == "agent "@ + a.alias@ + " turn silent"@
            &&& a.silent_secs matches Some(s) ==> r.age == at_least_none(s as int) && (shown(now - s)
                ==> r.since == Some((now - s) as i64))
            &&& a.silent_secs is None ==> r.age == at_least_none(unheard(a, now)) && r.since is None
        },
{
    assert(Seq::<Seq<char>>::empty().push(a.alias@) =~= seq![a.alias@]);
}

/// A turn that ended in silence tells when it ended.
pub proof fn what_a_silent_end_says(a: AgentRow, project: Seq<char>, now: i64)
    requires
        a.silent_ended,
        shown(unheard(a, now)),
    ensures
        agents::silent_end_row(a, project, now) matches Some(r) && {
            &&& of_agent(r, a, project) && answers_to(r, a)
            &&& r.title == "agent "@ + a.alias@ + " turn ended at an idle pane — never reported"@
            &&& a.ended_secs matches Some(s) ==> r.age == at_least_none(s as int) && (shown(now - s)
                ==> r.since == Some((now - s) as i64))
            &&& a.ended_secs is None ==> r.age == at_least_none(unheard(a, now)) && r.since is None
        },
{
    assert(Seq::<Seq<char>>::empty().push(a.alias@) =~= seq![a.alias@]);
}

/// A menu is shown with its line.
pub proof fn what_a_menu_says(a: AgentRow, project: Seq<char>, now: i64)
    requires
        a.pane_menu is Some,
        shown(unheard(a, now)),
    ensures
        agents::menu_row(a, project, now) matches Some(r) && {
            &&& of_agent(r, a, project) && answers_to(r, a)
            &&& r.title == "agent "@ + a.alias@ + " approval menu: "@ + a.pane_menu->0@
            &&& r.age == at_least_none(unheard(a, now))
        },
{
    assert(Seq::<Seq<char>>::empty().push(a.alias@) =~= seq![a.alias@]);
}

/// A request is named by its method and asks for input or an approval.
pub proof fn what_a_request_says(a: AgentRow, q: Request, project: Seq<char>, now: i64)
    requires
        shown(unheard(a, now)),
    ensures
        ({
            let r = agents::request_row(a, q, project, now);
            let method = match q.method {
                Some(m) => m@,
                None => "request"@,
            };
            &&& of_agent(r, a, project) && answers_to(r, a)
            &&& method == "item/tool/requestUserInput"@ ==> r.title == method + " "@
                + "input request"@ + " for "@ + a.alias@
            &&& method != "item/tool/requestUserInput"@ ==> r.title == method + " "@ + "approval"@
                + " for "@ + a.alias@
            &&& r.age == at_least_none(unheard(a, now))
        }),
{
    assert(Seq::<Seq<char>>::empty().push(a.alias@) =~= seq![a.alias@]);
}

/// A report that others wait behind tells how many, since when, and when it is
/// given up.
pub proof fn what_an_awaited_report_says(a: AgentRow, project: Seq<char>, now: i64)
    requires
        a.awaiting is Some,
        a.awaiting->0.queued_behind > 0,
        a.awaiting->0.since_secs <= i64::MAX,
        shown(now - a.awaiting->0.since_secs),
    ensures
        agents::awaiting_row(a, project, now) matches Some(r) && {
            let w = a.awaiting->0;
            let head = "agent "@ + a.alias@ + " awaiting report for "@ + w.since_text@ + " — "@
                + text::dec(w.queued_behind as nat) + " queued behind it; "@;
            &&& of_agent(r, a, project) && answers_to(r, a)
            &&& w.remaining_text matches Some(left) ==> r.title == head + ("unknown in "@ + left@)
            &&& w.remaining_text is None ==> r.title == head + "no report bound set"@
            &&& r.age == w.since_secs && r.since == Some((now - w.since_secs) as i64)
        },
{
    assert(Seq::<Seq<char>>::empty().push(a.alias@) =~= seq![a.alias@]);
}

/// A mailbox that nobody reads belongs to its owner, failing that to the
/// operator, and tells how old its oldest mail is.
pub proof fn what_a_stale_mailbox_says(a: AgentRow, project: Seq<char>, now: i64)
    requires
        a.health is Some,
        a.health->0.stale,
    ensures
        agents::stale_row(a, project, now) matches Some(r) && {
            let h = a.health->0;
            let owner = match h.owner {
                Some(o) => o@,
                None => "operator"@,
            };
            &&& r.rank == 95 && r.kind == "inbox_stale"@ && r.project == project
            &&& r.title == "inbox "@ + a.alias@ + " has no consumer — "@ + text::dec(
                h.unread as nat,
            ) + " unread, oldest "@ + h.oldest_text@ + ", owner "@ + owner
            &&& owner.len() > 0 ==> r.owner == Some(owner) && r.agents.contains(owner)
            &&& r.extra == ExtraView::Owner(owner)
            &&& h.oldest_unread_age_secs matches Some(s) ==> r.age == at_least_none(s as int) && (
            shown(now - s) ==> r.since == Some((now - s) as i64))
            &&& h.oldest_unread_age_secs is None ==> r.age == 0 && r.since is None
        },
{
    let h = a.health->0;
    let owner = match h.owner {
        Some(o) => o@,
        None => "operator"@,
    };
    let r = agents::stale_row(a, project, now)->0;
    let first = if a.alias@.len() == 0 {
        seq![]
    } else {
        seq![a.alias@]
    };
    assert(Seq::<Seq<char>>::empty().push(a.alias@) =~= seq![a.alias@]);
    if owner.len() > 0 {
        if first.contains(owner) {
            assert(r.agents.contains(owner));
        } else {
            assert(r.agents[first.len() as int] == owner);
        }
    }
}

/// A failed resume tells the message that waits and the reason; a fence is the
/// operator's to lift.
pub proof fn what_a_down_agent_says(a: AgentRow, p: AgentProbe, project: Seq<char>, now: i64)
    requires
        shown(unheard(a, now)),
    ensures
        a.resume_failed matches Some(f) ==> (agents::down_row(a, p, project, now) matches Some(r) && {
            let message = match f.message {
                Some(m) => m@,
                None => "?"@,
            };
            let reason = match f.reason {
                Some(m) => m@,
                None => "unknown error"@,
            };
            &&& of_agent(r, a, project) && answers_to(r, a)
            &&& r.title == "agent "@ + a.alias@ + " auto-resume failed — message "@ + message
                + " waiting: "@ + reason
            &&& r.since == f.at
            &&& f.at matches Some(at) ==> (shown(now - at) ==> r.age == at_least_none(now - at))
            &&& f.at is None ==> r.age == at_least_none(unheard(a, now))
        }),
        a.resume_failed is None && a.state.deep_view() == Some("attention"@) ==> (agents::down_row(
            a,
            p,
            project,
            now,
        ) matches Some(r) && {
            &&& of_agent(r, a, project) && r.owner is None
            &&& r.title == "agent "@ + a.alias@ + " fenced — reconcile then resume"@
            &&& r.age == at_least_none(unheard(a, now))
            &&& r.since == agents::fenced_at(a, p)
        }),
{
    assert(Seq::<Seq<char>>::empty().push(a.alias@) =~= seq![a.alias@]);
}

/// The message ended without being understood, at that time.
pub open spec fn lost_at(m: Message, t: i64) -> bool {
    m.state.deep_view() == Some("unknown"@) && m.completed == Some(t)
}

/// Of the messages that were lost the first decides since when.
pub proof fn the_first_lost_message_counts(ms: Seq<Message>)
    ensures
        agents::earliest_unknown(ms) matches Some(t) ==> exists|i: int|
            0 <= i < ms.len() && lost_at(#[trigger] ms[i], t),
        forall|i: int, u: i64|
            0 <= i < ms.len() && #[trigger] lost_at(ms[i], u) ==> agents::earliest_unknown(ms)
                is Some && agents::earliest_unknown(ms)->0 <= u,
    decreases ms.len(),
{
    if ms.len() > 0 {
        let w = ms.drop_last();
        let last = ms.len() - 1;
        the_first_lost_message_counts(w);
        assert(forall|i: int| 0 <= i < w.len() ==> #[trigger] ms[i] == w[i]);
        assert(ms[last] == ms.last());
        let (old, new) = (agents::earliest_unknown(w), agents::earliest_unknown(ms));
        if new is Some {
            if new == old {
                let i = choose|i: int| 0 <= i < w.len() && lost_at(#[trigger] w[i], old->0);
                assert(lost_at(ms[i], new->0));
            } else {
                assert(lost_at(ms[last], new->0));
            }
        }
        assert forall|i: int, u: i64|
            0 <= i < ms.len() && #[trigger] lost_at(ms[i], u) implies new is Some && new->0
            <= u by {
            if i < last {
                assert(lost_at(w[i], u));
            }
        }
    }
}

/// A master that is confined and runs without a login of its own is told to
/// get one; no other agent is.
pub proof fn who_needs_a_login(
    a: AgentRow,
    confined: bool,
    has_login: bool,
    command: Seq<char>,
    project: Seq<char>,
    now: i64,
)
    ensures
        ({
            let row = agents::login_row(a, confined, has_login, command, project, now);
            &&& row is Some <==> a.master && confined && !has_login && a.state.deep_view() != Some(
                "stopped"@,
            )
            &&& row matches Some(r) ==> r.rank == 90 && r.kind == "master_login"@ && r.command
                == command && r.owner is None && r.project == project
        }),
{
}

/// A pane is busy while a message runs or is submitted, and also where nothing
/// can be told of it.
pub proof fn when_a_pane_is_busy(s: Show, ms: Vec<Message>)
    requires
        s.messages == Some(ms),
    ensures
        agents::busy(None),
        agents::busy(Some(s)) <==> exists|i: int|
            0 <= i < ms@.len() && ((#[trigger] ms@[i]).state.deep_view() == Some("running"@)
                || ms@[i].state.deep_view() == Some("submitted"@)),
{
}

/// The repository lies above the directory.
pub open spec fn above(repos: Seq<(String, String)>, i: int, cwd: Seq<char>) -> bool {
    paths::under(paths::parts(cwd), paths::parts(repos[i].0@))
}

pub open spec fn depth(repos: Seq<(String, String)>, i: int) -> nat {
    paths::parts(repos[i].0@).len()
}

proof fn deepest(cwd: Seq<char>, repos: Seq<(String, String)>, n: int)
    requires
        0 <= n <= repos.len(),
    ensures
        match agents::longest_repo(paths::parts(cwd), repos, n) {
            Some(i) => 0 <= i < n && above(repos, i, cwd) && forall|j: int|
                0 <= j < n && #[trigger] above(repos, j, cwd) ==> depth(repos, j) <= depth(repos, i)
                    && (depth(repos, j) == depth(repos, i) ==> j <= i),
            None => forall|j: int| 0 <= j < n ==> !#[trigger] above(repos, j, cwd),
        },
    decreases n,
{
    if n > 0 {
        deepest(cwd, repos, n - 1);
        assert(above(repos, n - 1, cwd) == paths::under(
            paths::parts(cwd),
            paths::parts(repos[n - 1].0@),
        ));
    }
}

/// An agent works on the project of the deepest repository that its directory
/// lies in, the last of equals; on none where it lies in none.
pub proof fn the_deepest_repository_decides(
    cwd: Seq<char>,
    repos: Seq<(String, String)>,
    i: int,
)
    requires
        cwd.len() > 0,
        0 <= i < repos.len(),
        above(repos, i, cwd),
        forall|j: int|
            0 <= j < repos.len() && j != i && #[trigger] above(repos, j, cwd) ==> depth(repos, j)
                < depth(repos, i) || (depth(repos, j) == depth(repos, i) && j < i),
    ensures
        agents::project_of(Some(cwd), repos) == repos[i].1@,
{
    deepest(cwd, repos, repos.len() as int);
    let k = agents::longest_repo(paths::parts(cwd), repos, repos.len() as int)->0;
    if k != i {
        assert(above(repos, k, cwd));
        assert(false);
    }
}

/// An agent outside every repository works on no project.
pub proof fn outside_every_repository_is_no_project(
    cwd: Seq<char>,
    repos: Seq<(String, String)>,
)
    requires
        forall|j: int| 0 <= j < repos.len() ==> !#[trigger] above(repos, j, cwd),
    ensures
        agents::project_of(Some(cwd), repos).len() == 0,
        agents::project_of(None, repos).len() == 0,
{
    deepest(cwd, repos, repos.len() as int);
}

/// Every agent whose probe did not happen is named, and no other.
pub proof fn the_unprobed_are_named(
    list: Seq<AgentRow>,
    probes: Seq<AgentProbe>,
    x: Seq<char>,
)
    requires
        list.len() == probes.len(),
    ensures
        agents::unprobed_aliases(list, probes).contains(x) <==> exists|i: int|
            0 <= i < list.len() && (#[trigger] probes[i]).unprobed && list[i].alias@ == x,
    decreases list.len(),
{
    if list.len() > 0 {
        let (a, p) = (list.drop_last(), probes.drop_last());
        let last = list.len() - 1;
        the_unprobed_are_named(a, p, x);
        assert(forall|i: int| 0 <= i < p.len() ==> #[trigger] probes[i] == p[i] && list[i] == a[i]);
        assert(probes[last] == probes.last() && list[last] == list.last());
        let before = agents::unprobed_aliases(a, p);
        let all = agents::unprobed_aliases(list, probes);
        if before.contains(x) {
            let k = choose|k: int| 0 <= k < before.len() && before[k] == x;
            assert(all[k] == x);
            let i = choose|i: int|
                0 <= i < a.len() && (#[trigger] p[i]).unprobed && a[i].alias@ == x;
            assert(probes[i].unprobed && list[i].alias@ == x);
        }
        if probes.last().unprobed {
            assert(all[before.len() as int] == list.last().alias@);
        }
        if all.contains(x) && !before.contains(x) {
            let k = choose|k: int| 0 <= k < all.len() && all[k] == x;
            if k < before.len() {
                assert(before[k] == x);
                assert(false);
            }
            assert(probes[last].unprobed && list[last].alias@ == x);
        }
        if exists|i: int|
            0 <= i < list.len() && (#[trigger] probes[i]).unprobed && list[i].alias@ == x {
            let i = choose|i: int|
                0 <= i < list.len() && (#[trigger] probes[i]).unprobed && list[i].alias@ == x;
            if i < last {
                assert(p[i].unprobed && a[i].alias@ == x);
            }
        }
    }
}

} // verus!
