//! Who is shown what, told by the rows and the agents behind them.
use crate::order;
use crate::overview::needs;
use crate::overview::needs::{Audience, ItemView, MemberRow, OwnerRow, Owners};
use crate::text;
use vstd::prelude::*;

verus! {

/// The kinds that only the operator can decide.
pub open spec fn decision(kind: Seq<char>) -> bool {
    ||| kind == "approval"@
    ||| kind == "fenced"@
    ||| kind == "question"@
    ||| kind == "plan"@
    ||| kind == "merge_decision"@
    ||| kind == "review_escalated"@
    ||| kind == "review_unstaffed"@
    ||| kind == "auto_merge_on"@
    ||| kind == "delivery_unreadable"@
}

/// The kinds that are told and ask for nothing.
pub open spec fn notice(kind: Seq<char>) -> bool {
    kind == "inbox_unread"@ || kind == "tracker_behind"@ || kind == "master_unconfined"@ || kind
        == "master_login"@
}

/// Decisions are the operator's, drift is a dependency's, notices are told,
/// and everything else is the team's.
pub proof fn whose_a_row_is(kind: Seq<char>)
    ensures
        needs::class_of(kind) is Operator <==> decision(kind),
        needs::class_of(kind) is Dependency <==> kind == "drift"@,
        needs::class_of(kind) is Info <==> notice(kind),
        needs::class_of(kind) is Team <==> !decision(kind) && !notice(kind) && kind != "drift"@,
{
    reveal_strlit("drift");
    reveal_strlit("approval");
    reveal_strlit("fenced");
    reveal_strlit("question");
    reveal_strlit("plan");
    reveal_strlit("merge_decision");
    reveal_strlit("review_escalated");
    reveal_strlit("review_unstaffed");
    reveal_strlit("auto_merge_on");
    reveal_strlit("delivery_unreadable");
    reveal_strlit("inbox_unread");
    reveal_strlit("tracker_behind");
    reveal_strlit("master_unconfined");
    reveal_strlit("master_login");
    assert("drift"@.len() == 5 && "approval"@.len() == 8 && "fenced"@.len() == 6 && "question"@.len()
        == 8 && "plan"@.len() == 4 && "merge_decision"@.len() == 14 && "review_escalated"@.len()
        == 16 && "review_unstaffed"@.len() == 16 && "auto_merge_on"@.len() == 13
        && "delivery_unreadable"@.len() == 19);
    assert("inbox_unread"@.len() == 12 && "tracker_behind"@.len() == 14
        && "master_unconfined"@.len() == 17 && "master_login"@.len() == 12);
    assert("merge_decision"@[0] != "tracker_behind"@[0]);
}

/// The agent can act: it lives, is neither fenced nor stopped, and its mail is
/// read.
pub open spec fn able(a: OwnerRow) -> bool {
    !a.dead && !a.inbox_stale && a.state.deep_view() != Some("attention"@) && a.state.deep_view()
        != Some("stopped"@)
}

proof fn last_row(rows: Seq<OwnerRow>, k: int)
    requires
        0 <= k < rows.len(),
        forall|j: int| k < j < rows.len() ==> (#[trigger] rows[j]).alias@ != rows[k].alias@,
    ensures
        needs::row_of(rows, rows[k].alias@) == Some(rows[k]),
    decreases rows.len(),
{
    if k < rows.len() - 1 {
        let w = rows.drop_last();
        assert(rows[rows.len() - 1].alias@ != rows[k].alias@);
        assert forall|j: int| k < j < w.len() implies (#[trigger] w[j]).alias@ != w[k].alias@ by {
            assert(w[j] == rows[j]);
        }
        last_row(w, k);
    }
}

/// An owner can act exactly where it is an agent that the daemon knows of and
/// that is able.
pub proof fn who_can_act(owners: Owners, k: int)
    requires
        0 <= k < owners.agents@.len(),
        owners.agents@[k].alias@.len() > 0,
        forall|j: int|
            k < j < owners.agents@.len() ==> (#[trigger] owners.agents@[j]).alias@
                != owners.agents@[k].alias@,
    ensures
        needs::incapable(owners, Some(owners.agents@[k].alias@)) is None <==> owners.reachable
            && able(owners.agents@[k]) && owners.agents@[k].alias@ != "operator"@,
{
    last_row(owners.agents@, k);
}

proof fn no_row(rows: Seq<OwnerRow>, alias: Seq<char>)
    requires
        forall|j: int| 0 <= j < rows.len() ==> (#[trigger] rows[j]).alias@ != alias,
    ensures
        needs::row_of(rows, alias) is None,
    decreases rows.len(),
{
    if rows.len() > 0 {
        let w = rows.drop_last();
        assert(rows[rows.len() - 1].alias@ != alias);
        assert forall|j: int| 0 <= j < w.len() implies (#[trigger] w[j]).alias@ != alias by {
            assert(w[j] == rows[j]);
        }
        no_row(w, alias);
    }
}

/// Nobody, the operator, and an agent that is not there cannot act.
pub proof fn who_cannot_act(owners: Owners, owner: Seq<char>)
    ensures
        needs::incapable(owners, None) is Some,
        needs::incapable(owners, Some(seq![])) is Some,
        needs::incapable(owners, Some("operator"@)) is Some,
        !owners.reachable ==> needs::incapable(owners, Some(owner)) is Some,
        (forall|j: int|
            0 <= j < owners.agents@.len() ==> (#[trigger] owners.agents@[j]).alias@ != owner)
            ==> needs::incapable(owners, Some(owner)) is Some,
{
    reveal_strlit("operator");
    assert("operator"@.len() == 8);
    if forall|j: int|
        0 <= j < owners.agents@.len() ==> (#[trigger] owners.agents@[j]).alias@ != owner {
        no_row(owners.agents@, owner);
    }
}

/// A row of the team stays there while its owner can act and no more time has
/// passed than is left to them; otherwise it is the operator's.
pub proof fn when_a_team_row_stays(
    kind: Seq<char>,
    owner: Option<Seq<char>>,
    since: Option<i64>,
    owners: Owners,
    now: i64,
    patience: i64,
)
    requires
        !decision(kind),
        !notice(kind),
        kind != "drift"@,
        since matches Some(s) ==> i64::MIN <= now - s <= i64::MAX,
        patience >= 0,
    ensures
        ({
            let j = needs::judged(kind, owner, since, owners, now, patience);
            let able = needs::incapable(owners, owner) is None;
            let late = since is Some && now - since->0 > patience;
            &&& able && !late ==> j.0 is Team
            &&& !able || late ==> j.0 is Operator
            &&& !able ==> j.1 == needs::incapable(owners, owner)
        }),
{
    whose_a_row_is(kind);
}

/// A decision stays the operator's, drift a dependency's and a notice a notice,
/// whoever owns it.
pub proof fn what_is_not_the_teams_stays(
    kind: Seq<char>,
    owner: Option<Seq<char>>,
    since: Option<i64>,
    owners: Owners,
    now: i64,
    patience: i64,
)
    ensures
        ({
            let j = needs::judged(kind, owner, since, owners, now, patience);
            &&& decision(kind) ==> j.0 is Operator
            &&& kind == "drift"@ ==> j.0 is Dependency && j.1 is None
            &&& notice(kind) ==> j.0 is Info && j.1 is None
        }),
{
    whose_a_row_is(kind);
}

// ---------- rows of one subject ----------

proof fn sorted_group(g: Seq<ItemView>)
    requires
        g.len() > 0,
    ensures
        ({
            let s = order::sorted(g, needs::by_rank());
            &&& s.len() == g.len()
            &&& s.to_multiset() == g.to_multiset()
            &&& forall|i: int| 0 <= i < s.len() ==> s[0].rank <= (#[trigger] s[i]).rank
            &&& forall|x: ItemView| s.contains(x) <==> #[trigger] g.contains(x)
        }),
{
    let s = order::sorted(g, needs::by_rank());
    order::sorted_is_a_sort(g, needs::by_rank());
    assert(order::total(needs::by_rank()));
    assert forall|i: int| 0 <= i < s.len() implies s[0].rank <= (#[trigger] s[i]).rank by {
        if i > 0 {
            assert(needs::by_rank()(s[0], s[i]));
        }
    }
    assert forall|x: ItemView| s.contains(x) <==> #[trigger] g.contains(x) by {
        vstd::seq_lib::to_multiset_contains(s, x);
        vstd::seq_lib::to_multiset_contains(g, x);
    }
}

/// The rows of one subject become one: the one of the lowest rank, with every
/// one of them among its causes.
pub proof fn one_row_stands_for_all(g: Seq<ItemView>, x: ItemView)
    requires
        g.contains(x),
    ensures
        ({
            let m = needs::merged(g);
            &&& m.rank <= x.rank
            &&& m.causes.len() == g.len()
            &&& exists|k: int|
                0 <= k < m.causes.len() && (#[trigger] m.causes[k]).cause == x.kind
                    && m.causes[k].title == x.title && m.causes[k].age == x.age
                    && m.causes[k].command == x.command && m.causes[k].audience == x.audience
                    && m.causes[k].since == x.since
            &&& exists|k: int|
                0 <= k < g.len() && (#[trigger] g[k]).rank == m.rank && g[k].kind == m.kind
                    && g[k].title == m.title && g[k].command == m.command && g[k].project
                    == m.project && g[k].age == m.age
        }),
{
    sorted_group(g);
    let s = order::sorted(g, needs::by_rank());
    let m = needs::merged(g);
    assert(s.contains(x));
    let k = choose|k: int| 0 <= k < s.len() && s[k] == x;
    assert(m.causes[k] == needs::cause_of(x));
    assert(s.contains(s[0]));
    assert(g.contains(s[0]));
    let j = choose|j: int| 0 <= j < g.len() && g[j] == s[0];
    assert(g[j].rank == m.rank);
}

proof fn agents_of_all(g: Seq<ItemView>, a: Seq<char>)
    ensures
        needs::all_agents(g).contains(a) <==> exists|k: int|
            0 <= k < g.len() && (#[trigger] g[k]).agents.contains(a),
    decreases g.len(),
{
    if g.len() > 0 {
        let w = g.drop_last();
        let last = g.len() - 1;
        agents_of_all(w, a);
        assert(forall|k: int| 0 <= k < w.len() ==> #[trigger] g[k] == w[k]);
        assert(g[last] == g.last());
        in_sum(needs::all_agents(w), g.last().agents, a);
        if exists|k: int| 0 <= k < w.len() && (#[trigger] w[k]).agents.contains(a) {
            let k = choose|k: int| 0 <= k < w.len() && (#[trigger] w[k]).agents.contains(a);
            assert(g[k].agents.contains(a));
        }
        if exists|k: int| 0 <= k < g.len() && (#[trigger] g[k]).agents.contains(a) {
            let k = choose|k: int| 0 <= k < g.len() && (#[trigger] g[k]).agents.contains(a);
            if k < last {
                assert(w[k].agents.contains(a));
            }
        }
    }
}

proof fn in_sum<T>(a: Seq<T>, b: Seq<T>, x: T)
    ensures
        (a + b).contains(x) <==> a.contains(x) || b.contains(x),
{
    let s = a + b;
    if a.contains(x) {
        let k = choose|k: int| 0 <= k < a.len() && a[k] == x;
        assert(s[k] == x);
    }
    if b.contains(x) {
        let k = choose|k: int| 0 <= k < b.len() && b[k] == x;
        assert(s[a.len() + k] == x);
    }
    if s.contains(x) {
        let k = choose|k: int| 0 <= k < s.len() && s[k] == x;
        if k < a.len() {
            assert(a[k] == x);
        } else {
            assert(b[k - a.len()] == x);
        }
    }
}

/// It names every agent that one of them names, and no other.
pub proof fn it_names_every_agent(g: Seq<ItemView>, a: Seq<char>)
    requires
        g.len() > 0,
    ensures
        needs::merged(g).agents.contains(a) <==> exists|k: int|
            0 <= k < g.len() && (#[trigger] g[k]).agents.contains(a),
{
    sorted_group(g);
    let s = order::sorted(g, needs::by_rank());
    agents_of_all(s, a);
    text::name_set_members(needs::all_agents(s));
    if exists|k: int| 0 <= k < g.len() && (#[trigger] g[k]).agents.contains(a) {
        let k = choose|k: int| 0 <= k < g.len() && (#[trigger] g[k]).agents.contains(a);
        assert(g.contains(g[k]));
        let j = choose|j: int| 0 <= j < s.len() && s[j] == g[k];
        assert(s[j].agents.contains(a));
    }
    if exists|k: int| 0 <= k < s.len() && (#[trigger] s[k]).agents.contains(a) {
        let k = choose|k: int| 0 <= k < s.len() && (#[trigger] s[k]).agents.contains(a);
        assert(s.contains(s[k]));
        assert(g.contains(s[k]));
        let j = choose|j: int| 0 <= j < g.len() && g[j] == s[k];
        assert(g[j].agents.contains(a));
    }
}

/// The order of the audiences: the operator, the team, a dependency, a notice.
pub open spec fn presses(a: Audience) -> int {
    match a {
        Audience::Operator => 3,
        Audience::Team => 2,
        Audience::Dependency => 1,
        Audience::Info => 0,
    }
}

proof fn most_pressing(g: Seq<ItemView>)
    requires
        g.len() > 0,
    ensures
        g.contains(needs::most_urgent(g)),
        forall|k: int|
            0 <= k < g.len() ==> presses((#[trigger] g[k]).audience) <= presses(
                needs::most_urgent(g).audience,
            ),
    decreases g.len(),
{
    if g.len() == 1 {
        assert(g.contains(g[0]));
    } else {
        let w = g.drop_last();
        most_pressing(w);
        assert(forall|k: int| 0 <= k < w.len() ==> #[trigger] g[k] == w[k]);
        assert(g[g.len() - 1] == g.last());
        let k = choose|k: int| 0 <= k < w.len() && w[k] == needs::most_urgent(w);
        assert(g.contains(g[k]));
        assert(g.contains(g[g.len() - 1]));
    }
}

/// It is for the most pressing audience of any of them.
pub proof fn it_is_for_the_most_pressing(g: Seq<ItemView>, x: ItemView)
    requires
        g.contains(x),
    ensures
        presses(x.audience) <= presses(needs::merged(g).audience),
        exists|k: int| 0 <= k < g.len() && (#[trigger] g[k]).audience == needs::merged(g).audience,
{
    sorted_group(g);
    let s = order::sorted(g, needs::by_rank());
    most_pressing(s);
    assert(s.contains(x));
    let k = choose|k: int| 0 <= k < s.len() && s[k] == x;
    assert(presses(s[k].audience) <= presses(needs::most_urgent(s).audience));
    assert(g.contains(needs::most_urgent(s)));
    let j = choose|j: int| 0 <= j < g.len() && g[j] == needs::most_urgent(s);
    assert(g[j].audience == needs::merged(g).audience);
}

// ---------- scope ----------

/// A screen of a project shows its rows, one of a group the rows that name one
/// of its members.
pub proof fn what_is_in_scope(
    i: ItemView,
    project: Option<Seq<char>>,
    members: Option<Seq<Seq<char>>>,
)
    ensures
        needs::in_scope(i, None, None),
        needs::in_scope(i, project, members) <==> (project is None || i.project == project->0) && (
        members is None || exists|k: int, j: int|
            0 <= k < i.agents.len() && 0 <= j < members->0.len() && #[trigger] i.agents[k]
                == #[trigger] members->0[j]),
{
    if members is Some {
        let m = members->0;
        if needs::shares_name(i.agents, m) {
            let k = choose|k: int| 0 <= k < i.agents.len() && m.contains(#[trigger] i.agents[k]);
            let j = choose|j: int| 0 <= j < m.len() && m[j] == i.agents[k];
            assert(i.agents[k] == m[j]);
        }
        if exists|k: int, j: int|
            0 <= k < i.agents.len() && 0 <= j < m.len() && #[trigger] i.agents[k]
                == #[trigger] m[j] {
            let (k, j) = choose|k: int, j: int|
                0 <= k < i.agents.len() && 0 <= j < m.len() && #[trigger] i.agents[k]
                    == #[trigger] m[j];
            assert(m.contains(i.agents[k]));
        }
    }
}

/// A group is an agent and those that answer to it.
pub proof fn who_is_in_a_group(list: Seq<MemberRow>, root: Seq<char>, x: Seq<char>)
    ensures
        needs::group_aliases(list, root).contains(x) <==> exists|k: int|
            0 <= k < list.len() && (#[trigger] list[k]).alias@ == x && (x == root
                || list[k].upstream.deep_view() == Some(root)),
    decreases list.len(),
{
    if list.len() > 0 {
        let w = list.drop_last();
        let last = list.len() - 1;
        who_is_in_a_group(w, root, x);
        assert(forall|k: int| 0 <= k < w.len() ==> #[trigger] list[k] == w[k]);
        assert(list[last] == list.last());
        let before = needs::group_aliases(w, root);
        let l = list.last().alias@;
        in_sum(before, seq![l], x);
        assert(before.push(l) =~= before + seq![l]);
        assert(seq![l].contains(x) <==> l == x) by {
            assert(seq![l][0] == l);
        }
        if exists|k: int|
            0 <= k < w.len() && (#[trigger] w[k]).alias@ == x && (x == root
                || w[k].upstream.deep_view() == Some(root)) {
            let k = choose|k: int|
                0 <= k < w.len() && (#[trigger] w[k]).alias@ == x && (x == root
                    || w[k].upstream.deep_view() == Some(root));
            assert(list[k].alias@ == x);
        }
        if exists|k: int|
            0 <= k < list.len() && (#[trigger] list[k]).alias@ == x && (x == root
                || list[k].upstream.deep_view() == Some(root)) {
            let k = choose|k: int|
                0 <= k < list.len() && (#[trigger] list[k]).alias@ == x && (x == root
                    || list[k].upstream.deep_view() == Some(root));
            if k < last {
                assert(w[k].alias@ == x);
            }
        }
    }
}

/// A group is resolved exactly where the daemon answers and knows the agent
/// that leads it.
pub proof fn what_group_is_resolved(reachable: bool, list: Seq<MemberRow>, root: Seq<char>)
    ensures
        needs::group_fault(reachable, list, root) is None <==> reachable && exists|i: int|
            0 <= i < list.len() && (#[trigger] list[i]).alias@ == root,
{
}

} // verus!
