//! What an agent brings to the operator's screen, told by what the daemon
//! says of it.
use crate::overview::agents;
use crate::overview::agents::{AgentProbe, AgentRow};
use crate::overview::needs::ItemView;
use vstd::prelude::*;

verus! {

/// A row of a kind about an agent is among some rows.
pub open spec fn shows(
    rows: Seq<ItemView>,
    a: AgentRow,
    rank: u8,
    kind: Seq<char>,
    command: Seq<char>,
) -> bool {
    exists|i: int|
        0 <= i < rows.len() && (#[trigger] rows[i]).kind == kind && rows[i].rank == rank
            && rows[i].command == command && rows[i].subject == ("agent"@, a.alias@)
}

proof fn shows_in(
    x: Seq<ItemView>,
    y: Seq<ItemView>,
    a: AgentRow,
    rank: u8,
    kind: Seq<char>,
    command: Seq<char>,
)
    ensures
        shows(x, a, rank, kind, command) ==> shows(x + y, a, rank, kind, command),
        shows(y, a, rank, kind, command) ==> shows(x + y, a, rank, kind, command),
{
    if shows(x, a, rank, kind, command) {
        let i = choose|i: int|
            0 <= i < x.len() && (#[trigger] x[i]).kind == kind && x[i].rank == rank && x[i].command
                == command && x[i].subject == ("agent"@, a.alias@);
        assert((x + y)[i] == x[i]);
    }
    if shows(y, a, rank, kind, command) {
        let i = choose|i: int|
            0 <= i < y.len() && (#[trigger] y[i]).kind == kind && y[i].rank == rank && y[i].command
                == command && y[i].subject == ("agent"@, a.alias@);
        assert((x + y)[x.len() + i] == y[i]);
    }
}

proof fn shows_one(r: Option<ItemView>, a: AgentRow)
    requires
        r is Some,
        r->0.subject == ("agent"@, a.alias@),
    ensures
        shows(agents::opt_row(r), a, r->0.rank, r->0.kind, r->0.command),
{
    assert(agents::opt_row(r)[0] == r->0);
}

/// Every condition of an agent that waits on someone has its row, with the
/// command that answers it, and there are no other rows: one for a failed
/// resume or else a fence, one for a stall, a menu, a report that others
/// wait behind, a turn that ended in silence, unread mail and a mailbox
/// that nobody reads, and one for each pending request.
pub proof fn whatever_waits_is_shown(a: AgentRow, p: AgentProbe, project: Seq<char>, now: i64)
    ensures
        ({
            let rows = agents::agent_rows(a, p, project, now);
            let n = a.alias@;
            &&& a.resume_failed is Some ==> shows(
                rows,
                a,
                30,
                "auto_resume_failed"@,
                "cadence agent "@ + "resume"@ + " "@ + n,
            )
            &&& a.resume_failed is None && a.state.deep_view() == Some("attention"@) ==> shows(
                rows,
                a,
                30,
                "fenced"@,
                "cadence agent "@ + "unfence"@ + " "@ + n,
            )
            &&& a.stalled ==> shows(
                rows,
                a,
                40,
                "stalled"@,
                "cadence agent "@ + "show"@ + " "@ + n,
            )
            &&& a.pane_menu is Some ==> shows(
                rows,
                a,
                20,
                "approval_menu"@,
                "cadence agent "@ + "answer"@ + " "@ + n + " <choice>"@,
            )
            &&& a.awaiting is Some && a.awaiting->0.queued_behind > 0 ==> shows(
                rows,
                a,
                40,
                "awaiting_report"@,
                "cadence agent "@ + "show"@ + " "@ + n,
            )
            &&& a.silent_ended ==> shows(
                rows,
                a,
                40,
                "silent_end"@,
                "cadence send "@ + n + " --nudge --text \"finish and report …\""@,
            )
            &&& a.inbox && unread(a, p) > 0 ==> shows(
                rows,
                a,
                100,
                "inbox_unread"@,
                "cadence inbox "@ + n,
            )
            &&& a.health is Some && a.health->0.stale ==> shows(
                rows,
                a,
                95,
                "inbox_stale"@,
                "cadence inbox "@ + n,
            )
            &&& a.master && a.unconfined && a.state.deep_view() != Some("stopped"@) ==> shows(
                rows,
                a,
                90,
                "master_unconfined"@,
                "cadence agent "@ + "show"@ + " "@ + n,
            )
            &&& rows.len() == one(a.resume_failed is Some || a.state.deep_view() == Some(
                "attention"@,
            )) + one(a.stalled) + one(a.pane_menu is Some) + one(
                a.awaiting is Some && a.awaiting->0.queued_behind > 0,
            ) + one(a.silent_ended) + one(a.inbox && unread(a, p) > 0) + one(
                a.health is Some && a.health->0.stale,
            ) + one(a.master && a.unconfined && a.state.deep_view() != Some("stopped"@))
                + p.requests@.len()
        }),
{
    let rows = agents::agent_rows(a, p, project, now);
    let r1 = agents::unconfined_row(a, project, now);
    let r2 = agents::down_row(a, p, project, now);
    let r3 = agents::stalled_row(a, project, now);
    let r4 = agents::menu_row(a, project, now);
    let r5 = agents::awaiting_row(a, project, now);
    let r6 = agents::silent_end_row(a, project, now);
    let r7 = agents::unread_row(a, p, project, now);
    let r8 = agents::stale_row(a, project, now);
    let x1 = agents::opt_row(r1);
    let x2 = x1 + agents::opt_row(r2);
    let x3 = x2 + agents::opt_row(r3);
    let x4 = x3 + agents::opt_row(r4);
    let x5 = x4 + agents::opt_row(r5);
    let x6 = x5 + agents::opt_row(r6);
    let x7 = x6 + agents::opt_row(r7);
    let x8 = x7 + agents::opt_row(r8);
    let last = agents::request_rows(a, p.requests@, project, now);
    assert(rows == x8 + last);
    if r1 is Some {
        shows_one(r1, a);
        carried(x1, agents::opt_row(r2), x2, r1->0, a);
        carried(x2, agents::opt_row(r3), x3, r1->0, a);
        carried(x3, agents::opt_row(r4), x4, r1->0, a);
        carried(x4, agents::opt_row(r5), x5, r1->0, a);
        carried(x5, agents::opt_row(r6), x6, r1->0, a);
        carried(x6, agents::opt_row(r7), x7, r1->0, a);
        carried(x7, agents::opt_row(r8), x8, r1->0, a);
        carried(x8, last, rows, r1->0, a);
    }
    if r2 is Some {
        shows_one(r2, a);
        carried(x1, agents::opt_row(r2), x2, r2->0, a);
        carried(x2, agents::opt_row(r3), x3, r2->0, a);
        carried(x3, agents::opt_row(r4), x4, r2->0, a);
        carried(x4, agents::opt_row(r5), x5, r2->0, a);
        carried(x5, agents::opt_row(r6), x6, r2->0, a);
        carried(x6, agents::opt_row(r7), x7, r2->0, a);
        carried(x7, agents::opt_row(r8), x8, r2->0, a);
        carried(x8, last, rows, r2->0, a);
    }
    if r3 is Some {
        shows_one(r3, a);
        carried(x2, agents::opt_row(r3), x3, r3->0, a);
        carried(x3, agents::opt_row(r4), x4, r3->0, a);
        carried(x4, agents::opt_row(r5), x5, r3->0, a);
        carried(x5, agents::opt_row(r6), x6, r3->0, a);
        carried(x6, agents::opt_row(r7), x7, r3->0, a);
        carried(x7, agents::opt_row(r8), x8, r3->0, a);
        carried(x8, last, rows, r3->0, a);
    }
    if r4 is Some {
        shows_one(r4, a);
        carried(x3, agents::opt_row(r4), x4, r4->0, a);
        carried(x4, agents::opt_row(r5), x5, r4->0, a);
        carried(x5, agents::opt_row(r6), x6, r4->0, a);
        carried(x6, agents::opt_row(r7), x7, r4->0, a);
        carried(x7, agents::opt_row(r8), x8, r4->0, a);
        carried(x8, last, rows, r4->0, a);
    }
    if r5 is Some {
        shows_one(r5, a);
        carried(x4, agents::opt_row(r5), x5, r5->0, a);
        carried(x5, agents::opt_row(r6), x6, r5->0, a);
        carried(x6, agents::opt_row(r7), x7, r5->0, a);
        carried(x7, agents::opt_row(r8), x8, r5->0, a);
        carried(x8, last, rows, r5->0, a);
    }
    if r6 is Some {
        shows_one(r6, a);
        carried(x5, agents::opt_row(r6), x6, r6->0, a);
        carried(x6, agents::opt_row(r7), x7, r6->0, a);
        carried(x7, agents::opt_row(r8), x8, r6->0, a);
        carried(x8, last, rows, r6->0, a);
    }
    if r7 is Some {
        shows_one(r7, a);
        carried(x6, agents::opt_row(r7), x7, r7->0, a);
        carried(x7, agents::opt_row(r8), x8, r7->0, a);
        carried(x8, last, rows, r7->0, a);
    }
    if r8 is Some {
        shows_one(r8, a);
        carried(x7, agents::opt_row(r8), x8, r8->0, a);
        carried(x8, last, rows, r8->0, a);
    }
}

proof fn carried(x: Seq<ItemView>, y: Seq<ItemView>, z: Seq<ItemView>, r: ItemView, a: AgentRow)
    requires
        z == x + y,
    ensures
        shows(x, a, r.rank, r.kind, r.command) || shows(y, a, r.rank, r.kind, r.command) ==> shows(
            z,
            a,
            r.rank,
            r.kind,
            r.command,
        ),
{
    shows_in(x, y, a, r.rank, r.kind, r.command);
}

pub open spec fn one(b: bool) -> nat {
    if b {
        1
    } else {
        0
    }
}

/// What waits in a mailbox: as listed, else as probed.
pub open spec fn unread(a: AgentRow, p: AgentProbe) -> int {
    if a.inbox_queued is Some {
        a.inbox_queued->0 as int
    } else if p.show is Some && p.show->0.queued is Some {
        p.show->0.queued->0 as int
    } else {
        0
    }
}

proof fn approvals_of(rows: Seq<ItemView>)
    requires
        forall|i: int| 0 <= i < rows.len() ==> (#[trigger] rows[i]).kind == "approval"@,
    ensures
        rows.filter(|r: ItemView| r.kind == "approval"@).len() == rows.len(),
    decreases rows.len(),
{
    reveal(Seq::filter);
    if rows.len() > 0 {
        assert forall|i: int| 0 <= i < rows.drop_last().len() implies (
        #[trigger] rows.drop_last()[i]).kind == "approval"@ by {
            assert(rows.drop_last()[i] == rows[i]);
        }
        approvals_of(rows.drop_last());
        assert(rows.last() == rows[rows.len() - 1]);
    }
}

proof fn no_approvals_in(rows: Seq<ItemView>)
    requires
        forall|i: int| 0 <= i < rows.len() ==> (#[trigger] rows[i]).kind != "approval"@,
    ensures
        rows.filter(|r: ItemView| r.kind == "approval"@).len() == 0,
    decreases rows.len(),
{
    reveal(Seq::filter);
    if rows.len() > 0 {
        assert forall|i: int| 0 <= i < rows.drop_last().len() implies (
        #[trigger] rows.drop_last()[i]).kind != "approval"@ by {
            assert(rows.drop_last()[i] == rows[i]);
        }
        no_approvals_in(rows.drop_last());
        assert(rows.last() == rows[rows.len() - 1]);
    }
}

/// Each pending request of an agent has its row, with the command that
/// answers it; there are as many approvals as requests.
pub proof fn every_request_is_shown(
    a: AgentRow,
    p: AgentProbe,
    project: Seq<char>,
    now: i64,
    i: int,
)
    requires
        0 <= i < p.requests@.len(),
    ensures
        ({
            let rows = agents::agent_rows(a, p, project, now);
            let q = p.requests@[i];
            let method = match q.method {
                Some(m) => m@,
                None => "request"@,
            };
            let handle = match q.request {
                Some(h) => h@,
                None => seq![],
            };
            &&& shows(
                rows,
                a,
                20,
                "approval"@,
                if method == "item/tool/requestUserInput"@ {
                    "cadence agent "@ + "respond"@ + " "@ + a.alias@ + " --request "@ + handle
                        + " --answers-file answers-"@ + handle + ".json"@
                } else if crate::text::begins(method, "cadence/"@) || crate::text::ends(
                    method,
                    "requestApproval"@,
                ) || method == "session/request_permission"@ {
                    "cadence agent "@ + "respond"@ + " "@ + a.alias@ + " --request "@ + handle
                        + " --decision accept"@
                } else {
                    "cadence agent "@ + "requests"@ + " "@ + a.alias@
                },
            )
            &&& rows.filter(|r: ItemView| r.kind == "approval"@).len() == p.requests@.len()
        }),
{
    let rows = agents::agent_rows(a, p, project, now);
    let last = agents::request_rows(a, p.requests@, project, now);
    let head = agents::opt_row(agents::unconfined_row(a, project, now)) + agents::opt_row(
        agents::down_row(a, p, project, now),
    ) + agents::opt_row(agents::stalled_row(a, project, now)) + agents::opt_row(
        agents::menu_row(a, project, now),
    ) + agents::opt_row(agents::awaiting_row(a, project, now)) + agents::opt_row(
        agents::silent_end_row(a, project, now),
    ) + agents::opt_row(agents::unread_row(a, p, project, now)) + agents::opt_row(
        agents::stale_row(a, project, now),
    );
    assert(rows == head + last);
    let x = agents::request_row(a, p.requests@[i], project, now);
    assert(last[i] == x);
    assert(shows(last, a, x.rank, x.kind, x.command));
    carried(head, last, rows, x, a);
    let f = |r: ItemView| r.kind == "approval"@;
    head_has_no_approvals(a, p, project, now);
    no_approvals_in(head);
    approvals_of(last);
    Seq::filter_distributes_over_add(head, last, f);
}

spec fn none_is_approval(rows: Seq<ItemView>) -> bool {
    forall|i: int| 0 <= i < rows.len() ==> (#[trigger] rows[i]).kind != "approval"@
}

proof fn none_is_added(x: Seq<ItemView>, r: Option<ItemView>)
    requires
        none_is_approval(x),
        r is Some ==> r->0.kind != "approval"@,
    ensures
        none_is_approval(x + agents::opt_row(r)),
{
    let y = agents::opt_row(r);
    assert forall|i: int| 0 <= i < (x + y).len() implies (#[trigger] (x + y)[i]).kind
        != "approval"@ by {
        if i < x.len() {
            assert((x + y)[i] == x[i]);
        } else {
            assert((x + y)[i] == r->0);
        }
    }
}

proof fn kinds_differ()
    ensures
        "master_unconfined"@ != "approval"@,
        "auto_resume_failed"@ != "approval"@,
        "fenced"@ != "approval"@,
        "stalled"@ != "approval"@,
        "approval_menu"@ != "approval"@,
        "awaiting_report"@ != "approval"@,
        "silent_end"@ != "approval"@,
        "inbox_unread"@ != "approval"@,
        "inbox_stale"@ != "approval"@,
{
    reveal_strlit("approval");
    reveal_strlit("master_unconfined");
    reveal_strlit("auto_resume_failed");
    reveal_strlit("fenced");
    reveal_strlit("stalled");
    reveal_strlit("approval_menu");
    reveal_strlit("awaiting_report");
    reveal_strlit("silent_end");
    reveal_strlit("inbox_unread");
    reveal_strlit("inbox_stale");
    assert("approval"@.len() == 8 && "master_unconfined"@.len() == 17);
    assert("auto_resume_failed"@.len() == 18 && "fenced"@.len() == 6 && "stalled"@.len() == 7);
    assert("approval_menu"@.len() == 13 && "awaiting_report"@.len() == 15);
    assert("silent_end"@.len() == 10 && "inbox_unread"@.len() == 12 && "inbox_stale"@.len() == 11);
}

proof fn head_has_no_approvals(a: AgentRow, p: AgentProbe, project: Seq<char>, now: i64)
    ensures
        none_is_approval(
            agents::opt_row(agents::unconfined_row(a, project, now)) + agents::opt_row(
                agents::down_row(a, p, project, now),
            ) + agents::opt_row(agents::stalled_row(a, project, now)) + agents::opt_row(
                agents::menu_row(a, project, now),
            ) + agents::opt_row(agents::awaiting_row(a, project, now)) + agents::opt_row(
                agents::silent_end_row(a, project, now),
            ) + agents::opt_row(agents::unread_row(a, p, project, now)) + agents::opt_row(
                agents::stale_row(a, project, now),
            ),
        ),
{
    kinds_differ();
    let r1 = agents::unconfined_row(a, project, now);
    let r2 = agents::down_row(a, p, project, now);
    let r3 = agents::stalled_row(a, project, now);
    let r4 = agents::menu_row(a, project, now);
    let r5 = agents::awaiting_row(a, project, now);
    let r6 = agents::silent_end_row(a, project, now);
    let r7 = agents::unread_row(a, p, project, now);
    let r8 = agents::stale_row(a, project, now);
    let x1 = agents::opt_row(r1);
    assert(none_is_approval(x1));
    let x2 = x1 + agents::opt_row(r2);
    none_is_added(x1, r2);
    let x3 = x2 + agents::opt_row(r3);
    none_is_added(x2, r3);
    let x4 = x3 + agents::opt_row(r4);
    none_is_added(x3, r4);
    let x5 = x4 + agents::opt_row(r5);
    none_is_added(x4, r5);
    let x6 = x5 + agents::opt_row(r6);
    none_is_added(x5, r6);
    let x7 = x6 + agents::opt_row(r7);
    none_is_added(x6, r7);
    none_is_added(x7, r8);
}

} // verus!
