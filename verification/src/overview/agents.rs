//! The rows that agents contribute: their state, stalls, mailboxes and
//! pending requests; and what the probe of an agent makes of the answers.
use crate::overview::needs::{item, Extra, ExtraView, Item, ItemView, OPERATOR};
use crate::overview::needs;
use crate::overview::{cmd_agent_answer, cmd_agent_respond, cmd_agent_resume, cmd_agent_show, cmd_agent_unfence, cmd_inbox, cmd_send_nudge, degraded, Note, NoteView};
use crate::overview;
use crate::paths;
use crate::text;
use crate::time;
use vstd::prelude::*;

verus! {

/// An auto-resume for queued work that failed.
#[derive(Debug, Clone)]
pub struct ResumeFailed {
    pub at: Option<i64>,
    pub message: Option<String>,
    pub reason: Option<String>,
}

/// A turn that has not reported yet.
#[derive(Debug, Clone)]
pub struct Awaiting {
    /// Messages waiting behind it.
    pub queued_behind: i64,
    pub since_secs: u64,
    /// The wait, as ages are written.
    pub since_text: String,
    /// The time left until the turn goes unknown, as ages are written.
    pub remaining_text: Option<String>,
}

/// The health of a mailbox.
#[derive(Debug, Clone)]
pub struct InboxHealth {
    pub stale: bool,
    pub owner: Option<String>,
    pub oldest_unread_age_secs: Option<i64>,
    /// The age of the oldest unread message, as ages are written.
    pub oldest_text: String,
    pub unread: u64,
}

/// One agent as the daemon lists it. Times are epoch seconds.
#[derive(Debug, Clone)]
pub struct AgentRow {
    pub alias: String,
    pub cwd: Option<String>,
    pub updated: Option<i64>,
    pub upstream: Option<String>,
    pub state: Option<String>,
    /// It is the master.
    pub master: bool,
    /// Its params say that it runs unconfined.
    pub unconfined: bool,
    pub resume_failed: Option<ResumeFailed>,
    pub stalled: bool,
    pub silent_secs: Option<i64>,
    /// The line of an approval menu sampled on its pane.
    pub pane_menu: Option<String>,
    pub awaiting: Option<Awaiting>,
    pub silent_ended: bool,
    pub ended_secs: Option<i64>,
    pub inbox_queued: Option<i64>,
    /// It is a mailbox by provider.
    pub inbox: bool,
    pub health: Option<InboxHealth>,
}

/// A message of an agent.
#[derive(Debug, Clone)]
pub struct Message {
    pub state: Option<String>,
    pub completed: Option<i64>,
}

/// What the daemon shows of an agent.
#[derive(Debug, Clone)]
pub struct Show {
    pub queued: Option<i64>,
    pub messages: Option<Vec<Message>>,
}

/// A pending request of an agent.
#[derive(Debug, Clone)]
pub struct Request {
    pub request: Option<String>,
    pub method: Option<String>,
}

/// What one agent's probes returned.
#[derive(Debug, Clone)]
pub struct AgentProbe {
    pub show: Option<Show>,
    pub requests: Vec<Request>,
    /// A running turn, a busy pane, or a probe that could not tell: any
    /// of them holds the drift restart back.
    pub holds_drift: bool,
    /// The daemon does not know the pane probe.
    pub probe_unknown: bool,
    /// The probe budget ran out before this agent was reached.
    pub unprobed: bool,
    pub degraded: Vec<Note>,
}

// ---------- the rows ----------

pub open spec fn or_text(s: Option<String>, other: Seq<char>) -> Seq<char> {
    match s {
        Some(x) => x@,
        None => other,
    }
}

fn or_str<'a>(s: &'a Option<String>, other: &'a str) -> (r: &'a str)
    ensures
        r@ == or_text(*s, other@),
{
    match s {
        Some(x) => x.as_str(),
        None => other,
    }
}

/// How long ago the agent's row was written.
pub open spec fn age_of(a: AgentRow, now: i64) -> i64 {
    time::clamp(
        now - (match a.updated {
            Some(u) => u as int,
            None => now as int,
        }),
    )
}

/// When something began that is `secs` old.
pub open spec fn ago(now: i64, secs: Option<i64>) -> Option<i64> {
    match secs {
        Some(s) => Some(time::clamp(now - s)),
        None => None,
    }
}

fn ago_of(now: i64, secs: Option<i64>) -> (r: Option<i64>)
    ensures
        r == ago(now, secs),
{
    match secs {
        Some(s) => Some(time::minus(now, s)),
        None => None,
    }
}

/// A row about an agent, for its PM to act on.
pub open spec fn agent_row(
    a: AgentRow,
    project: Seq<char>,
    rank: u8,
    kind: Seq<char>,
    title: Seq<char>,
    age: i64,
    command: Seq<char>,
) -> ItemView {
    needs::new_row(rank, kind, title, age, project, None, command).about("agent"@, a.alias@).for_agent(
        a.alias@,
    ).owned_by(a.upstream.deep_view())
}

fn agent_row_of(
    a: &AgentRow,
    project: &str,
    rank: u8,
    kind: &str,
    title: &str,
    age: i64,
    command: &str,
) -> (r: Item)
    ensures
        r@ == agent_row(*a, project@, rank, kind@, title@, age, command@),
{
    item(rank, kind, title, age, project, None, command).about("agent", a.alias.as_str()).for_agent(
        a.alias.as_str(),
    ).owned_by(text::opt_str(&a.upstream))
}

/// Adds a row when there is one.
pub fn push_row(items: &mut Vec<Item>, row: Option<Item>)
    ensures
        needs::views(final(items)@) == needs::views(old(items)@) + opt_row(
            match row {
                Some(r) => Some(r@),
                None => None,
            },
        ),
{
    if let Some(r) = row {
        let ghost before = items@;
        items.push(r);
        assert(needs::views(items@) =~= needs::views(before) + seq![r@]);
    } else {
        assert(needs::views(items@) =~= needs::views(items@) + Seq::<ItemView>::empty());
    }
}

pub open spec fn opt_row(r: Option<ItemView>) -> Seq<ItemView> {
    match r {
        Some(x) => seq![x],
        None => seq![],
    }
}

pub open spec fn item_opt(r: Option<Item>) -> Option<ItemView> {
    match r {
        Some(x) => Some(x@),
        None => None,
    }
}

/// The master runs without a sandbox: shown as long as it is registered
/// and not stopped.
pub open spec fn unconfined_row(a: AgentRow, project: Seq<char>, now: i64) -> Option<ItemView> {
    if a.master && a.unconfined && a.state.deep_view() != Some("stopped"@) {
        Some(
            agent_row(
                a,
                project,
                90,
                "master_unconfined"@,
                "master runs unconfined — no filesystem sandbox on this host; it can read and write your files"@,
                age_of(a, now),
                overview::agent_command("show"@, a.alias@),
            ).owned_by(None),
        )
    } else {
        None
    }
}

fn unconfined_item(a: &AgentRow, project: &str, now: i64, age: i64) -> (r: Option<Item>)
    requires
        age == age_of(*a, now),
    ensures
        item_opt(r) == unconfined_row(*a, project@, now),
{
    if a.master && a.unconfined && !text::opt_is(&a.state, "stopped") {
        Some(
            agent_row_of(
                a,
                project,
                90,
                "master_unconfined",
                "master runs unconfined — no filesystem sandbox on this host; it can read and write your files",
                age,
                cmd_agent_show(a.alias.as_str()).as_str(),
            ).owned_by(None),
        )
    } else {
        None
    }
}

/// The earliest end of a message whose outcome is unknown.
pub open spec fn earliest_unknown(ms: Seq<Message>) -> Option<i64>
    decreases ms.len(),
{
    if ms.len() == 0 {
        None
    } else {
        let before = earliest_unknown(ms.drop_last());
        let m = ms.last();
        if m.state.deep_view() == Some("unknown"@) && m.completed is Some {
            match before {
                Some(t) if t <= m.completed->0 => before,
                _ => m.completed,
            }
        } else {
            before
        }
    }
}

/// When a fence began: when its turn went unknown, else when the row was
/// last written.
pub open spec fn fenced_at(a: AgentRow, p: AgentProbe) -> Option<i64> {
    let unknown = match p.show {
        Some(s) => match s.messages {
            Some(ms) => earliest_unknown(ms@),
            None => None,
        },
        None => None,
    };
    if unknown is Some {
        unknown
    } else {
        a.updated
    }
}

/// When a fence began.
pub fn fenced_since(a: &AgentRow, p: &AgentProbe) -> (r: Option<i64>)
    ensures
        r == fenced_at(*a, *p),
{
    if let Some(s) = &p.show {
        if let Some(ms) = &s.messages {
            let mut best: Option<i64> = None;
            let mut i: usize = 0;
            assert(ms@.take(0) =~= Seq::empty());
            while i < ms.len()
                invariant
                    i <= ms@.len(),
                    best == earliest_unknown(ms@.take(i as int)),
                decreases ms.len() - i,
            {
                assert(ms@.take(i + 1).drop_last() =~= ms@.take(i as int));
                let m = &ms[i];
                if text::opt_is(&m.state, "unknown") {
                    if let Some(c) = m.completed {
                        best =
                        match best {
                            Some(t) => if t <= c {
                                Some(t)
                            } else {
                                Some(c)
                            },
                            None => Some(c),
                        };
                    }
                }
                i = i + 1;
            }
            assert(ms@.take(i as int) =~= ms@);
            if best.is_some() {
                return best;
            }
        }
    }
    a.updated
}

/// A failed auto-resume, which is more specific than the fence that a
/// failed open would raise; else the fence.
pub open spec fn down_row(a: AgentRow, p: AgentProbe, project: Seq<char>, now: i64) -> Option<ItemView> {
    match a.resume_failed {
        Some(f) => Some(
            agent_row(
                a,
                project,
                30,
                "auto_resume_failed"@,
                "agent "@ + a.alias@ + " auto-resume failed — message "@ + or_text(f.message, "?"@)
                    + " waiting: "@ + or_text(f.reason, "unknown error"@),
                match f.at {
                    Some(at) => time::clamp(now - at),
                    None => age_of(a, now),
                },
                overview::agent_command("resume"@, a.alias@),
            ).since(f.at),
        ),
        None => if a.state.deep_view() == Some("attention"@) {
            Some(
                agent_row(
                    a,
                    project,
                    30,
                    "fenced"@,
                    "agent "@ + a.alias@ + " fenced — reconcile then resume"@,
                    age_of(a, now),
                    overview::agent_command("unfence"@, a.alias@),
                ).owned_by(None).since(fenced_at(a, p)),
            )
        } else {
            None
        },
    }
}

fn down_item(a: &AgentRow, p: &AgentProbe, project: &str, now: i64, age: i64) -> (r: Option<Item>)
    requires
        age == age_of(*a, now),
    ensures
        item_opt(r) == down_row(*a, *p, project@, now),
{
    let alias = a.alias.as_str();
    match &a.resume_failed {
        Some(f) => {
            let title = "agent ".to_owned().concat(alias).concat(
                " auto-resume failed — message ",
            ).concat(or_str(&f.message, "?")).concat(" waiting: ").concat(
                or_str(&f.reason, "unknown error"),
            );
            let at_age: i64 = match f.at {
                Some(at) => time::minus(now, at),
                None => age,
            };
            Some(
                agent_row_of(
                    a,
                    project,
                    30,
                    "auto_resume_failed",
                    title.as_str(),
                    at_age,
                    cmd_agent_resume(alias).as_str(),
                ).since(f.at),
            )
        },
        None => {
            if !text::opt_is(&a.state, "attention") {
                return None;
            }
            let title = "agent ".to_owned().concat(alias).concat(
                " fenced — reconcile then resume",
            );
            Some(
                agent_row_of(
                    a,
                    project,
                    30,
                    "fenced",
                    title.as_str(),
                    age,
                    cmd_agent_unfence(alias).as_str(),
                ).owned_by(None).since(fenced_since(a, p)),
            )
        },
    }
}

pub open spec fn stalled_row(a: AgentRow, project: Seq<char>, now: i64) -> Option<ItemView> {
    if a.stalled {
        Some(
            agent_row(
                a,
                project,
                40,
                "stalled"@,
                "agent "@ + a.alias@ + " turn silent"@,
                match a.silent_secs {
                    Some(s) => s,
                    None => age_of(a, now),
                },
                overview::agent_command("show"@, a.alias@),
            ).since(ago(now, a.silent_secs)),
        )
    } else {
        None
    }
}

fn stalled_item(a: &AgentRow, project: &str, now: i64, age: i64) -> (r: Option<Item>)
    requires
        age == age_of(*a, now),
    ensures
        item_opt(r) == stalled_row(*a, project@, now),
{
    if !a.stalled {
        return None;
    }
    let title = "agent ".to_owned().concat(a.alias.as_str()).concat(" turn silent");
    let silent: i64 = match a.silent_secs {
        Some(s) => s,
        None => age,
    };
    Some(
        agent_row_of(
            a,
            project,
            40,
            "stalled",
            title.as_str(),
            silent,
            cmd_agent_show(a.alias.as_str()).as_str(),
        ).since(ago_of(now, a.silent_secs)),
    )
}

/// A sampled approval menu: the pane is waiting on a human.
pub open spec fn menu_row(a: AgentRow, project: Seq<char>, now: i64) -> Option<ItemView> {
    match a.pane_menu {
        Some(line) => Some(
            agent_row(
                a,
                project,
                20,
                "approval_menu"@,
                "agent "@ + a.alias@ + " approval menu: "@ + line@,
                age_of(a, now),
                overview::agent_command("answer"@, a.alias@) + " <choice>"@,
            ),
        ),
        None => None,
    }
}

fn menu_item(a: &AgentRow, project: &str, now: i64, age: i64) -> (r: Option<Item>)
    requires
        age == age_of(*a, now),
    ensures
        item_opt(r) == menu_row(*a, project@, now),
{
    match &a.pane_menu {
        Some(line) => {
            let title = "agent ".to_owned().concat(a.alias.as_str()).concat(
                " approval menu: ",
            ).concat(line.as_str());
            Some(
                agent_row_of(
                    a,
                    project,
                    20,
                    "approval_menu",
                    title.as_str(),
                    age,
                    cmd_agent_answer(a.alias.as_str()).as_str(),
                ),
            )
        },
        None => None,
    }
}

/// An unreported turn holds the agent's queue: a row only once work waits
/// behind it, so that a healthy turn is never noise.
pub open spec fn awaiting_row(a: AgentRow, project: Seq<char>, now: i64) -> Option<ItemView> {
    match a.awaiting {
        Some(w) => if w.queued_behind > 0 {
            Some(
                agent_row(
                    a,
                    project,
                    40,
                    "awaiting_report"@,
                    "agent "@ + a.alias@ + " awaiting report for "@ + w.since_text@ + " — "@
                        + text::dec(w.queued_behind as nat) + " queued behind it; "@ + (
                    match w.remaining_text {
                        Some(left) => "unknown in "@ + left@,
                        None => "no report bound set"@,
                    }),
                    time::clamp(w.since_secs as int),
                    overview::agent_command("show"@, a.alias@),
                ).since(Some(time::clamp(now - time::clamp(w.since_secs as int)))),
            )
        } else {
            None
        },
        None => None,
    }
}

fn awaiting_item(a: &AgentRow, project: &str, now: i64) -> (r: Option<Item>)
    ensures
        item_opt(r) == awaiting_row(*a, project@, now),
{
    match &a.awaiting {
        Some(w) => {
            if w.queued_behind <= 0 {
                return None;
            }
            let bound = match &w.remaining_text {
                Some(left) => "unknown in ".to_owned().concat(left.as_str()),
                None => "no report bound set".to_owned(),
            };
            let title = "agent ".to_owned().concat(a.alias.as_str()).concat(
                " awaiting report for ",
            ).concat(w.since_text.as_str()).concat(" — ").concat(
                text::dec_of(w.queued_behind as u64).as_str(),
            ).concat(" queued behind it; ").concat(bound.as_str());
            let waited: i64 = if w.since_secs > i64::MAX as u64 {
                i64::MAX
            } else {
                w.since_secs as i64
            };
            Some(
                agent_row_of(
                    a,
                    project,
                    40,
                    "awaiting_report",
                    title.as_str(),
                    waited,
                    cmd_agent_show(a.alias.as_str()).as_str(),
                ).since(Some(time::minus(now, waited))),
            )
        },
        None => None,
    }
}

pub open spec fn silent_end_row(a: AgentRow, project: Seq<char>, now: i64) -> Option<ItemView> {
    if a.silent_ended {
        Some(
            agent_row(
                a,
                project,
                40,
                "silent_end"@,
                "agent "@ + a.alias@ + " turn ended at an idle pane — never reported"@,
                match a.ended_secs {
                    Some(s) => s,
                    None => age_of(a, now),
                },
                "cadence send "@ + a.alias@ + " --nudge --text \"finish and report …\""@,
            ).since(ago(now, a.ended_secs)),
        )
    } else {
        None
    }
}

fn silent_end_item(a: &AgentRow, project: &str, now: i64, age: i64) -> (r: Option<Item>)
    requires
        age == age_of(*a, now),
    ensures
        item_opt(r) == silent_end_row(*a, project@, now),
{
    if !a.silent_ended {
        return None;
    }
    let title = "agent ".to_owned().concat(a.alias.as_str()).concat(
        " turn ended at an idle pane — never reported",
    );
    let ended: i64 = match a.ended_secs {
        Some(s) => s,
        None => age,
    };
    Some(
        agent_row_of(
            a,
            project,
            40,
            "silent_end",
            title.as_str(),
            ended,
            cmd_send_nudge(a.alias.as_str()).as_str(),
        ).since(ago_of(now, a.ended_secs)),
    )
}

/// The unread count of a mailbox: its own row's, else the one shown.
pub open spec fn queued_count(a: AgentRow, p: AgentProbe) -> int {
    match a.inbox_queued {
        Some(q) => q as int,
        None => match p.show {
            Some(s) => match s.queued {
                Some(q) => q as int,
                None => 0,
            },
            None => 0,
        },
    }
}

pub open spec fn unread_row(a: AgentRow, p: AgentProbe, project: Seq<char>, now: i64) -> Option<
    ItemView,
> {
    if a.inbox && queued_count(a, p) > 0 {
        Some(
            agent_row(
                a,
                project,
                100,
                "inbox_unread"@,
                text::dec(queued_count(a, p) as nat) + " unread for "@ + a.alias@,
                age_of(a, now),
                "cadence inbox "@ + a.alias@,
            ),
        )
    } else {
        None
    }
}

fn unread_item(a: &AgentRow, p: &AgentProbe, project: &str, now: i64, age: i64) -> (r: Option<Item>)
    requires
        age == age_of(*a, now),
    ensures
        item_opt(r) == unread_row(*a, *p, project@, now),
{
    let queued: i64 = match a.inbox_queued {
        Some(q) => q,
        None => match &p.show {
            Some(s) => match s.queued {
                Some(q) => q,
                None => 0,
            },
            None => 0,
        },
    };
    if !a.inbox || queued <= 0 {
        return None;
    }
    let title = text::dec_of(queued as u64).concat(" unread for ").concat(a.alias.as_str());
    Some(
        agent_row_of(
            a,
            project,
            100,
            "inbox_unread",
            title.as_str(),
            age,
            cmd_inbox(a.alias.as_str()).as_str(),
        ),
    )
}

/// A mailbox past its unread threshold that nobody reads, for its owner.
pub open spec fn stale_row(a: AgentRow, project: Seq<char>, now: i64) -> Option<ItemView> {
    match a.health {
        Some(h) => if h.stale {
            let owner = or_text(h.owner, OPERATOR@);
            Some(
                agent_row(
                    a,
                    project,
                    95,
                    "inbox_stale"@,
                    "inbox "@ + a.alias@ + " has no consumer — "@ + text::dec(h.unread as nat)
                        + " unread, oldest "@ + h.oldest_text@ + ", owner "@ + owner,
                    match h.oldest_unread_age_secs {
                        Some(s) => s,
                        None => 0,
                    },
                    "cadence inbox "@ + a.alias@,
                ).for_agent(owner).owned_by(Some(owner)).since(
                    ago(now, h.oldest_unread_age_secs),
                ).with(ExtraView::Owner(owner)),
            )
        } else {
            None
        },
        None => None,
    }
}

fn stale_item(a: &AgentRow, project: &str, now: i64) -> (r: Option<Item>)
    ensures
        item_opt(r) == stale_row(*a, project@, now),
{
    match &a.health {
        Some(h) => {
            if !h.stale {
                return None;
            }
            let owner = or_str(&h.owner, OPERATOR);
            let oldest: i64 = match h.oldest_unread_age_secs {
                Some(s) => s,
                None => 0,
            };
            let title = "inbox ".to_owned().concat(a.alias.as_str()).concat(
                " has no consumer — ",
            ).concat(text::dec_of(h.unread).as_str()).concat(" unread, oldest ").concat(
                h.oldest_text.as_str(),
            ).concat(", owner ").concat(owner);
            Some(
                agent_row_of(
                    a,
                    project,
                    95,
                    "inbox_stale",
                    title.as_str(),
                    oldest,
                    cmd_inbox(a.alias.as_str()).as_str(),
                ).for_agent(owner).owned_by(Some(owner)).since(
                    ago_of(now, h.oldest_unread_age_secs),
                ).with(Extra::Owner(owner.to_owned())),
            )
        },
        None => None,
    }
}

pub open spec fn request_row(a: AgentRow, q: Request, project: Seq<char>, now: i64) -> ItemView {
    let method = or_text(q.method, "request"@);
    agent_row(
        a,
        project,
        20,
        "approval"@,
        method + " "@ + (if method == "item/tool/requestUserInput"@ {
            "input request"@
        } else {
            "approval"@
        }) + " for "@ + a.alias@,
        age_of(a, now),
        overview::respond_command(a.alias@, or_text(q.request, seq![]), method),
    )
}

fn request_item(a: &AgentRow, q: &Request, project: &str, now: i64, age: i64) -> (r: Item)
    requires
        age == age_of(*a, now),
    ensures
        r@ == request_row(*a, *q, project@, now),
{
    let method = or_str(&q.method, "request");
    let empty = String::new();
    let handle = or_str(&q.request, empty.as_str());
    let what = if text::eq(method, "item/tool/requestUserInput") {
        "input request"
    } else {
        "approval"
    };
    let title = method.to_owned().concat(" ").concat(what).concat(" for ").concat(a.alias.as_str());
    assert(or_text(q.request, empty@) == or_text(q.request, seq![]));
    agent_row_of(
        a,
        project,
        20,
        "approval",
        title.as_str(),
        age,
        cmd_agent_respond(a.alias.as_str(), handle, method).as_str(),
    )
}

pub open spec fn request_rows(a: AgentRow, qs: Seq<Request>, project: Seq<char>, now: i64) -> Seq<
    ItemView,
> {
    qs.map_values(|q: Request| request_row(a, q, project, now))
}

/// The rows that one agent contributes.
pub open spec fn agent_rows(a: AgentRow, p: AgentProbe, project: Seq<char>, now: i64) -> Seq<ItemView> {
    opt_row(unconfined_row(a, project, now)) + opt_row(down_row(a, p, project, now)) + opt_row(
        stalled_row(a, project, now),
    ) + opt_row(menu_row(a, project, now)) + opt_row(awaiting_row(a, project, now)) + opt_row(
        silent_end_row(a, project, now),
    ) + opt_row(unread_row(a, p, project, now)) + opt_row(stale_row(a, project, now))
        + request_rows(a, p.requests@, project, now)
}

/// The needs-me rows that one agent contributes: its listed row and its
/// probe.
pub fn agent_items(a: &AgentRow, p: &AgentProbe, project: &str, now: i64) -> (r: Vec<Item>)
    ensures
        needs::views(r@) == agent_rows(*a, *p, project@, now),
{
    let age: i64 = match a.updated {
        Some(u) => time::minus(now, u),
        None => 0,
    };
    let mut items: Vec<Item> = Vec::new();
    let ghost e = needs::views(items@);
    assert(e =~= Seq::empty());
    push_row(&mut items, unconfined_item(a, project, now, age));
    assert(needs::views(items@) =~= opt_row(unconfined_row(*a, project@, now)));
    push_row(&mut items, down_item(a, p, project, now, age));
    push_row(&mut items, stalled_item(a, project, now, age));
    push_row(&mut items, menu_item(a, project, now, age));
    push_row(&mut items, awaiting_item(a, project, now));
    push_row(&mut items, silent_end_item(a, project, now, age));
    push_row(&mut items, unread_item(a, p, project, now, age));
    push_row(&mut items, stale_item(a, project, now));
    let ghost head = needs::views(items@);
    let mut i: usize = 0;
    let ghost all = request_rows(*a, p.requests@, project@, now);
    assert(head + all.take(0) =~= head);
    while i < p.requests.len()
        invariant
            age == age_of(*a, now),
            all == request_rows(*a, p.requests@, project@, now),
            i <= p.requests@.len(),
            needs::views(items@) == head + all.take(i as int),
        decreases p.requests.len() - i,
    {
        let ghost before = items@;
        let x = request_item(a, &p.requests[i], project, now, age);
        items.push(x);
        assert(needs::views(items@) =~= needs::views(before).push(x@));
        assert(head + all.take(i + 1) =~= needs::views(before).push(x@));
        i = i + 1;
    }
    assert(all.take(i as int) =~= all);
    items
}

/// A confined master whose own config holds no login cannot authenticate:
/// one row names the command that gives it one, until it has it.
pub open spec fn login_row(
    a: AgentRow,
    confined: bool,
    has_login: bool,
    command: Seq<char>,
    project: Seq<char>,
    now: i64,
) -> Option<ItemView> {
    if !a.master || !confined || a.state.deep_view() == Some("stopped"@) || has_login {
        None
    } else {
        Some(
            needs::new_row(
                90,
                "master_login"@,
                "master has no provider login — give it its own: "@ + command,
                age_of(a, now),
                project,
                None,
                command,
            ).about("agent"@, a.alias@).for_agent(a.alias@).owned_by(None),
        )
    }
}

/// The row of a master without a login.
pub fn master_login_item(
    a: &AgentRow,
    confined: bool,
    has_login: bool,
    command: &str,
    project: &str,
    now: i64,
) -> (r: Option<Item>)
    ensures
        item_opt(r) == login_row(*a, confined, has_login, command@, project@, now),
{
    if !a.master || !confined || text::opt_is(&a.state, "stopped") || has_login {
        return None;
    }
    let age: i64 = match a.updated {
        Some(u) => time::minus(now, u),
        None => 0,
    };
    let title = "master has no provider login — give it its own: ".to_owned().concat(command);
    Some(
        item(90, "master_login", title.as_str(), age, project, None, command).about(
            "agent",
            a.alias.as_str(),
        ).for_agent(a.alias.as_str()).owned_by(None),
    )
}


// ---------- where an agent works ----------

/// The place of the longest repo path that `cwd` lies under, the last of
/// equals, among the first `n`.
pub open spec fn longest_repo(
    cwd: Seq<Seq<char>>,
    repos: Seq<(String, String)>,
    n: int,
) -> Option<int>
    decreases n,
{
    if n <= 0 {
        None
    } else {
        let before = longest_repo(cwd, repos, n - 1);
        let parts = paths::parts(repos[n - 1].0@);
        if !paths::under(cwd, parts) {
            before
        } else {
            match before {
                Some(i) if paths::parts(repos[i].0@).len() > parts.len() => before,
                _ => Some(n - 1),
            }
        }
    }
}

/// The key of the tracker project that an agent works in; empty when its
/// directory lies in no declared repo.
pub open spec fn project_of(cwd: Option<Seq<char>>, repos: Seq<(String, String)>) -> Seq<char> {
    match cwd {
        Some(c) if c.len() > 0 => match longest_repo(
            paths::parts(c),
            repos,
            repos.len() as int,
        ) {
            Some(i) => repos[i].1@,
            None => seq![],
        },
        _ => seq![],
    }
}

/// The tracker project that an agent works in: the longest declared repo
/// path that its directory sits under. Both are canonical, absolute paths.
pub fn agent_project(cwd: Option<&str>, repos: &Vec<(String, String)>) -> (r: String)
    ensures
        r@ == project_of(cwd.deep_view(), repos@),
{
    let c = match cwd {
        Some(c) => c,
        None => {
            return String::new();
        },
    };
    if c.is_empty() {
        return String::new();
    }
    let parts = paths::parts_of(c);
    let mut best: Option<usize> = None;
    let mut best_len: usize = 0;
    let mut i: usize = 0;
    while i < repos.len()
        invariant
            i <= repos@.len(),
            parts.deep_view() == paths::parts(c@),
            match best {
                Some(b) => b < i && longest_repo(paths::parts(c@), repos@, i as int) == Some(
                    b as int,
                ) && best_len == paths::parts(repos@[b as int].0@).len(),
                None => longest_repo(paths::parts(c@), repos@, i as int) is None,
            },
        decreases repos.len() - i,
    {
        let own = paths::parts_of(repos[i].0.as_str());
        assert(own.deep_view().len() == own@.len());
        if paths::is_under(&parts, &own) {
            let beaten = match best {
                Some(_) => best_len > own.len(),
                None => false,
            };
            if !beaten {
                best = Some(i);
                best_len = own.len();
            }
        }
        i = i + 1;
    }
    match best {
        Some(b) => repos[b].1.clone(),
        None => String::new(),
    }
}

// ---------- probing an agent ----------

/// The words of a failed call: a read that timed out names its bound.
pub open spec fn call_error(error: Seq<char>, bound_ms: u64) -> Seq<char> {
    if text::holds(error, "os error 11"@) || text::holds(error, "timed out"@) {
        "no answer within "@ + text::dec(bound_ms as nat) + "ms"@
    } else {
        error
    }
}

/// The words of a failed call.
pub fn call_error_of(error: &str, bound_ms: u64) -> (r: String)
    ensures
        r@ == call_error(error@, bound_ms),
{
    if text::contains(error, "os error 11") || text::contains(error, "timed out") {
        "no answer within ".to_owned().concat(text::dec_of(bound_ms).as_str()).concat("ms")
    } else {
        error.to_owned()
    }
}

/// The bound of one call: its own timeout, clipped to what is left of the
/// pass; no call is made with less than 50 ms left.
pub fn call_bound(left_ms: u64, timeout_ms: u64) -> (r: Option<u64>)
    ensures
        r == if left_ms < 50 {
            None
        } else if left_ms < timeout_ms {
            Some(left_ms)
        } else {
            Some(timeout_ms)
        },
{
    if left_ms < 50 {
        None
    } else if left_ms < timeout_ms {
        Some(left_ms)
    } else {
        Some(timeout_ms)
    }
}

/// How an agent is reached.
pub struct ProbeTarget {
    pub alias: String,
    /// It has no actor: no pane and no requests.
    pub mailbox: bool,
    /// Its listed row carries the mailbox backlog.
    pub listed_queue: bool,
    /// It has a pty pane with an endpoint.
    pub pane: bool,
}

/// A turn is running or submitted, or the show that would tell never
/// came.
pub open spec fn busy(show: Option<Show>) -> bool {
    match show {
        None => true,
        Some(s) => match s.messages {
            None => false,
            Some(ms) => exists|i: int|
                0 <= i < ms@.len() && ((#[trigger] ms@[i]).state.deep_view() == Some("running"@)
                    || ms@[i].state.deep_view() == Some("submitted"@)),
        },
    }
}

/// Whether a turn of the agent is running, as far as its show tells.
pub fn busy_turn(show: &Option<Show>) -> (r: bool)
    ensures
        r == busy(*show),
{
    match show {
        None => true,
        Some(s) => match &s.messages {
            None => false,
            Some(ms) => {
                let mut i: usize = 0;
                while i < ms.len()
                    invariant
                        *show == Some(*s),
                        s.messages == Some(*ms),
                        i <= ms@.len(),
                        forall|j: int|
                            0 <= j < i ==> !((#[trigger] ms@[j]).state.deep_view() == Some(
                                "running"@,
                            ) || ms@[j].state.deep_view() == Some("submitted"@)),
                    decreases ms.len() - i,
                {
                    if text::opt_is(&ms[i].state, "running") || text::opt_is(
                        &ms[i].state,
                        "submitted",
                    ) {
                        return true;
                    }
                    i = i + 1;
                }
                false
            },
        },
    }
}

pub open spec fn unknown_method(e: Seq<char>) -> bool {
    text::holds(e, "Unknown method"@)
}

/// What the first part of a probe comes to: `Some` when there is nothing
/// to ask, because a mailbox's listed row says it all or because the time
/// is spent, in which case only an agent with an actor holds the restart
/// back.
pub fn begin_probe(t: &ProbeTarget, out_of_time: bool) -> (r: Option<AgentProbe>)
    ensures
        match r {
            None => !(t.mailbox && t.listed_queue) && !out_of_time,
            Some(p) => {
                &&& (t.mailbox && t.listed_queue) || out_of_time
                &&& p.show is None
                &&& p.requests@.len() == 0
                &&& p.degraded@.len() == 0
                &&& !p.probe_unknown
                &&& p.unprobed == !(t.mailbox && t.listed_queue)
                &&& p.holds_drift == (p.unprobed && !t.mailbox)
            },
        },
{
    if t.mailbox && t.listed_queue {
        return Some(
            AgentProbe {
                show: None,
                requests: Vec::new(),
                holds_drift: false,
                probe_unknown: false,
                unprobed: false,
                degraded: Vec::new(),
            },
        );
    }
    if out_of_time {
        return Some(
            AgentProbe {
                show: None,
                requests: Vec::new(),
                holds_drift: !t.mailbox,
                probe_unknown: false,
                unprobed: true,
                degraded: Vec::new(),
            },
        );
    }
    None
}

pub open spec fn note_of(source: Seq<char>, alias: Seq<char>, e: Seq<char>) -> NoteView {
    NoteView { source, subject: alias, detail: e }
}

pub open spec fn fault<T>(r: Result<T, String>, source: Seq<char>, alias: Seq<char>) -> Seq<NoteView> {
    match r {
        Ok(_) => seq![],
        Err(e) => seq![note_of(source, alias, e@)],
    }
}

/// What an old daemon does not know is no fault.
pub open spec fn fault_but_unknown<T>(
    r: Result<T, String>,
    source: Seq<char>,
    alias: Seq<char>,
) -> Seq<NoteView> {
    match r {
        Err(e) if unknown_method(e@) => seq![],
        other => fault(other, source, alias),
    }
}

/// Puts the answers about an agent together. Its show is always asked
/// for; its requests when it has an actor; the pane when it has one and
/// no turn is running. A show or pane that did not answer reads as busy;
/// a daemon that does not know the pane probe cannot tell.
pub fn probe_agent(
    t: &ProbeTarget,
    show: Result<Show, String>,
    requests: Result<Vec<Request>, String>,
    pane_idle: Result<bool, String>,
) -> (r: AgentProbe)
    ensures
        r.show == match show {
            Ok(s) => Some(s),
            Err(_) => None,
        },
        !r.unprobed,
        r.requests@ == match requests {
            Ok(q) if !t.mailbox => q@,
            _ => Seq::empty(),
        },
        r.holds_drift == (!t.mailbox && (busy(r.show) || (t.pane && match pane_idle {
            Ok(idle) => !idle,
            Err(e) => !unknown_method(e@),
        }))),
        r.probe_unknown == (!t.mailbox && !busy(r.show) && t.pane && match pane_idle {
            Ok(_) => false,
            Err(e) => unknown_method(e@),
        }),
        overview::notes(r.degraded@) == fault(show, "agent_show"@, t.alias@) + (if t.mailbox {
            seq![]
        } else {
            fault_but_unknown(requests, "agent_requests"@, t.alias@) + (if t.pane && !busy(r.show) {
                fault_but_unknown(pane_idle, "agent_probe"@, t.alias@)
            } else {
                seq![]
            })
        }),
{
    let alias = t.alias.as_str();
    let mut p = AgentProbe {
        show: None,
        requests: Vec::new(),
        holds_drift: false,
        probe_unknown: false,
        unprobed: false,
        degraded: Vec::new(),
    };
    let ghost first = fault(show, "agent_show"@, t.alias@);
    match show {
        Ok(s) => {
            p.show = Some(s);
        },
        Err(e) => {
            p.degraded.push(degraded("agent_show", alias, e.as_str()));
        },
    }
    assert(overview::notes(p.degraded@) =~= first);
    if t.mailbox {
        assert(first + Seq::<NoteView>::empty() =~= first);
        return p;
    }
    let ghost second = fault_but_unknown(requests, "agent_requests"@, t.alias@);
    match requests {
        Ok(q) => {
            p.requests = q;
        },
        Err(e) => {
            if !text::contains(e.as_str(), "Unknown method") {
                p.degraded.push(degraded("agent_requests", alias, e.as_str()));
            }
        },
    }
    assert(overview::notes(p.degraded@) =~= first + second);
    if busy_turn(&p.show) {
        p.holds_drift = true;
        assert(first + (second + Seq::<NoteView>::empty()) =~= first + second);
        return p;
    }
    if !t.pane {
        assert(first + (second + Seq::<NoteView>::empty()) =~= first + second);
        return p;
    }
    let ghost third = fault_but_unknown(pane_idle, "agent_probe"@, t.alias@);
    match pane_idle {
        Ok(idle) => {
            if !idle {
                p.holds_drift = true;
            }
        },
        Err(e) => {
            if text::contains(e.as_str(), "Unknown method") {
                p.probe_unknown = true;
            } else {
                p.holds_drift = true;
                p.degraded.push(degraded("agent_probe", alias, e.as_str()));
            }
        },
    }
    assert(overview::notes(p.degraded@) =~= first + (second + third));
    p
}

// ---------- the probe pass ----------

/// The aliases of the agents that the pass did not reach.
pub open spec fn unprobed_aliases(agents: Seq<AgentRow>, probes: Seq<AgentProbe>) -> Seq<Seq<char>>
    decreases agents.len(),
{
    if agents.len() == 0 || probes.len() != agents.len() {
        seq![]
    } else if probes.last().unprobed {
        unprobed_aliases(agents.drop_last(), probes.drop_last()).push(agents.last().alias@)
    } else {
        unprobed_aliases(agents.drop_last(), probes.drop_last())
    }
}

pub open spec fn probe_notes(probes: Seq<AgentProbe>) -> Seq<NoteView>
    decreases probes.len(),
{
    if probes.len() == 0 {
        seq![]
    } else {
        probe_notes(probes.drop_last()) + overview::notes(probes.last().degraded@)
    }
}

/// What the daemon half of the screen notes: a list that did not come,
/// the agents that were not reached in time, and every probe's own notes.
pub open spec fn daemon_note_views(
    list_error: Option<Seq<char>>,
    agents: Seq<AgentRow>,
    probes: Seq<AgentProbe>,
    budget_text: Seq<char>,
) -> Seq<NoteView> {
    let missed = unprobed_aliases(agents, probes);
    (match list_error {
        Some(e) => seq![note_of("agent_list"@, seq![], "agent rows missing — "@ + e)],
        None => seq![],
    }) + (if missed.len() > 0 {
        seq![
            note_of(
                "agent_probe_budget"@,
                seq![],
                text::dec(missed.len()) + " agent(s) not probed within "@ + budget_text + "s: "@
                    + text::join(missed, ", "@),
            ),
        ]
    } else {
        seq![]
    }) + probe_notes(probes)
}

/// The notes of the daemon half of the screen.
pub fn daemon_notes(
    list_error: Option<String>,
    agents: &Vec<AgentRow>,
    probes: &Vec<AgentProbe>,
    budget_text: &str,
) -> (r: Vec<Note>)
    requires
        agents@.len() == probes@.len(),
    ensures
        overview::notes(r@) == daemon_note_views(list_error.deep_view(), agents@, probes@, budget_text@),
{
    let empty = String::new();
    let mut out: Vec<Note> = Vec::new();
    let ghost first = match list_error.deep_view() {
        Some(e) => seq![note_of("agent_list"@, seq![], "agent rows missing — "@ + e)],
        None => seq![],
    };
    if let Some(e) = &list_error {
        out.push(
            degraded(
                "agent_list",
                empty.as_str(),
                "agent rows missing — ".to_owned().concat(e.as_str()).as_str(),
            ),
        );
    }
    assert(overview::notes(out@) =~= first);
    let mut missed: Vec<String> = Vec::new();
    let mut i: usize = 0;
    assert(missed.deep_view() =~= unprobed_aliases(agents@.take(0), probes@.take(0)));
    while i < agents.len()
        invariant
            agents@.len() == probes@.len(),
            i <= agents@.len(),
            missed.deep_view() == unprobed_aliases(agents@.take(i as int), probes@.take(i as int)),
        decreases agents.len() - i,
    {
        assert(agents@.take(i + 1).drop_last() =~= agents@.take(i as int));
        assert(probes@.take(i + 1).drop_last() =~= probes@.take(i as int));
        let ghost before = missed.deep_view();
        if probes[i].unprobed {
            missed.push(agents[i].alias.clone());
            assert(missed.deep_view() =~= before.push(agents@[i as int].alias@));
        }
        i = i + 1;
    }
    assert(agents@.take(i as int) =~= agents@);
    assert(probes@.take(i as int) =~= probes@);
    assert(missed.deep_view().len() == missed@.len());
    let ghost second = if missed@.len() > 0 {
        seq![
            note_of(
                "agent_probe_budget"@,
                seq![],
                text::dec(missed@.len()) + " agent(s) not probed within "@ + budget_text@ + "s: "@
                    + text::join(missed.deep_view(), ", "@),
            ),
        ]
    } else {
        seq![]
    };
    if missed.len() > 0 {
        let detail = text::dec_of(missed.len() as u64).concat(" agent(s) not probed within ").concat(
            budget_text,
        ).concat("s: ").concat(text::join_of(&missed, ", ").as_str());
        out.push(degraded("agent_probe_budget", empty.as_str(), detail.as_str()));
    }
    assert(overview::notes(out@) =~= first + second);
    let ghost head = overview::notes(out@);
    let mut k: usize = 0;
    assert(head + probe_notes(probes@.take(0)) =~= head);
    while k < probes.len()
        invariant
            k <= probes@.len(),
            overview::notes(out@) == head + probe_notes(probes@.take(k as int)),
        decreases probes.len() - k,
    {
        assert(probes@.take(k + 1).drop_last() =~= probes@.take(k as int));
        let ghost before = overview::notes(out@);
        let own = &probes[k].degraded;
        let ghost own_notes = overview::notes(own@);
        let mut j: usize = 0;
        assert(before + own_notes.take(0) =~= before);
        while j < own.len()
            invariant
                own_notes == overview::notes(own@),
                j <= own@.len(),
                overview::notes(out@) == before + own_notes.take(j as int),
            decreases own.len() - j,
        {
            let ghost o0 = out@;
            let n = degraded(own[j].source.as_str(), own[j].subject.as_str(), own[j].detail.as_str());
            out.push(n);
            assert(overview::notes(out@) =~= overview::notes(o0).push(own_notes[j as int]));
            assert(before + own_notes.take(j + 1) =~= overview::notes(o0).push(own_notes[j as int]));
            j = j + 1;
        }
        assert(own_notes.take(j as int) =~= own_notes);
        assert(head + probe_notes(probes@.take(k + 1)) =~= before + own_notes);
        k = k + 1;
    }
    assert(probes@.take(k as int) =~= probes@);
    out
}

// ---------- laws ----------

/// An idle fleet stays idle only as far as it answered: a probe of an
/// agent with an actor that missed its show holds the restart back.
pub proof fn silence_reads_as_busy(show: Option<Show>)
    requires
        show is None,
    ensures
        busy(show),
{
}

/// A healthy turn in progress is no row: one appears only once work waits
/// behind it.
pub proof fn a_healthy_turn_is_no_row(a: AgentRow, project: Seq<char>, now: i64)
    requires
        a.awaiting is Some ==> a.awaiting->0.queued_behind <= 0,
    ensures
        awaiting_row(a, project, now) is None,
{
}

/// A failed auto-resume replaces the fence row: an agent raises at most
/// one of the two.
pub proof fn one_row_for_a_down_agent(a: AgentRow, p: AgentProbe, project: Seq<char>, now: i64)
    requires
        a.resume_failed is Some,
    ensures
        down_row(a, p, project, now) is Some,
        down_row(a, p, project, now)->0.kind == "auto_resume_failed"@,
{
}

} // verus!
