//! The rows of the worker loop's record: a merge to decide, a review that
//! did not converge or that nobody can take, and auto-merge left on.
use crate::overview::agents::push_row;
use crate::overview::agents;
use crate::overview::needs::{item, Extra, ExtraView, Item, ItemView, MergeInfo};
use crate::overview::needs;
use crate::overview::{
    cmd_delivery_decline, cmd_delivery_merge, cmd_delivery_sync, cmd_issue_show,
};
use crate::text;
use crate::time;
use vstd::prelude::*;

verus! {

/// Where a ticket stands in the loop, as far as rows depend on it.
#[derive(Clone, Copy, Debug, PartialEq, Eq)]
pub enum State {
    Passed,
    Escalated,
    Unstaffed,
    Other,
}

/// The verdict of a review.
#[derive(Debug)]
pub struct VerdictRec {
    pub sha: String,
    pub reviewer: String,
    pub summary: String,
    pub report: String,
    pub at: i64,
}

/// The size of the change that the operator's process saw.
#[derive(Debug)]
pub struct Observed {
    pub additions: u64,
    pub deletions: u64,
    pub files: u64,
}

/// One ticket in the loop.
#[derive(Debug)]
pub struct Record {
    pub issue: String,
    pub project: String,
    pub worker: String,
    pub since: i64,
    pub pr: Option<String>,
    /// The short form of `pr`.
    pub pr_ref: Option<String>,
    /// Auto-merge must be turned off.
    pub disable_auto: bool,
    pub state: State,
    /// The PR was seen open and green at the reviewed head.
    pub merge_ready: bool,
    pub revisions: u64,
    pub verdict: Option<VerdictRec>,
    pub observed: Option<Observed>,
}

/// A row about a ticket of the loop.
pub open spec fn ticket_row(
    rec: Record,
    rank: u8,
    kind: Seq<char>,
    title: Seq<char>,
    age: i64,
    command: Seq<char>,
    since: i64,
) -> ItemView {
    needs::new_row(rank, kind, title, age, rec.project@, rec.pr.deep_view(), command).about(
        "issue"@,
        rec.issue@,
    ).for_agent(rec.worker@).since(Some(since))
}

fn ticket_item(
    rec: &Record,
    rank: u8,
    kind: &str,
    title: &str,
    age: i64,
    command: &str,
    since: i64,
) -> (r: Item)
    ensures
        r@ == ticket_row(*rec, rank, kind@, title@, age, command@, since),
{
    item(rank, kind, title, age, rec.project.as_str(), text::opt_str(&rec.pr), command).about(
        "issue",
        rec.issue.as_str(),
    ).for_agent(rec.worker.as_str()).since(Some(since))
}

pub open spec fn auto_row(rec: Record, now: i64) -> Option<ItemView> {
    if rec.disable_auto {
        Some(
            ticket_row(
                rec,
                18,
                "auto_merge_on"@,
                rec.issue@ + ": auto-merge is on for a head nobody approved — turn it off"@,
                time::clamp(now - rec.since),
                "cadence delivery sync "@ + rec.issue@,
                rec.since,
            ),
        )
    } else {
        None
    }
}

/// The verdict's time: the record's own where it has none.
pub open spec fn verdict_at(rec: Record) -> i64 {
    match rec.verdict {
        Some(v) => v.at,
        None => rec.since,
    }
}

pub open spec fn verdict_text(rec: Record, f: spec_fn(VerdictRec) -> Seq<char>) -> Seq<char> {
    match rec.verdict {
        Some(v) => f(v),
        None => seq![],
    }
}

pub open spec fn size_of(rec: Record) -> (u64, u64, u64) {
    match rec.observed {
        Some(o) => (o.additions, o.deletions, o.files),
        None => (0, 0, 0),
    }
}

/// The operator's merge decision: who wrote it, who passed it, and how
/// large it is.
pub open spec fn merge_row(rec: Record, now: i64) -> ItemView {
    let id = rec.issue@;
    let reviewer = verdict_text(rec, |v: VerdictRec| v.reviewer@);
    let summary = verdict_text(rec, |v: VerdictRec| v.summary@);
    let size = size_of(rec);
    ticket_row(
        rec,
        22,
        "merge_decision"@,
        "merge? "@ + id + (match rec.pr_ref {
            Some(r) => " "@ + r@,
            None => seq![],
        }) + " by "@ + rec.worker@ + " — PASS by "@ + reviewer + ": "@ + summary + " (+"@
            + text::dec(size.0 as nat) + " −"@ + text::dec(size.1 as nat) + ", "@ + text::dec(
            size.2 as nat,
        ) + " files)"@,
        time::clamp(now - verdict_at(rec)),
        "cadence delivery merge "@ + id,
        verdict_at(rec),
    ).owned_by(Some(rec.worker@)).with(
        ExtraView::Merge {
            issue: id,
            pr: rec.pr.deep_view(),
            pr_ref: rec.pr_ref.deep_view(),
            sha: verdict_text(rec, |v: VerdictRec| v.sha@),
            owner: rec.worker@,
            reviewer,
            verdict_summary: summary,
            report: verdict_text(rec, |v: VerdictRec| v.report@),
            additions: size.0,
            deletions: size.1,
            files: size.2,
            decline: "cadence delivery decline "@ + id + " --reason \"<why>\""@,
        },
    )
}

/// The row of where a ticket stands, when it is the operator's.
pub open spec fn state_row(rec: Record, now: i64) -> Option<ItemView> {
    let age = time::clamp(now - rec.since);
    match rec.state {
        State::Passed => if rec.merge_ready {
            Some(merge_row(rec, now))
        } else {
            None
        },
        State::Escalated => Some(
            ticket_row(
                rec,
                24,
                "review_escalated"@,
                rec.issue@ + ": "@ + text::dec(rec.revisions as nat)
                    + " REVISE verdicts — the review did not converge"@,
                age,
                "cadence issue show "@ + rec.issue@,
                rec.since,
            ),
        ),
        State::Unstaffed => Some(
            ticket_row(
                rec,
                26,
                "review_unstaffed"@,
                rec.issue@ + ": nobody is staffed for its review"@,
                age,
                "cadence agent list"@,
                rec.since,
            ),
        ),
        State::Other => None,
    }
}

fn auto_item(rec: &Record, now: i64) -> (r: Option<Item>)
    ensures
        agents::item_opt(r) == auto_row(*rec, now),
{
    if !rec.disable_auto {
        return None;
    }
    let title = rec.issue.clone().concat(
        ": auto-merge is on for a head nobody approved — turn it off",
    );
    Some(
        ticket_item(
            rec,
            18,
            "auto_merge_on",
            title.as_str(),
            time::minus(now, rec.since),
            cmd_delivery_sync(rec.issue.as_str()).as_str(),
            rec.since,
        ),
    )
}

fn merge_item(rec: &Record, now: i64) -> (r: Item)
    ensures
        r@ == merge_row(*rec, now),
{
    let id = rec.issue.as_str();
    let (reviewer, summary, sha, report) = match &rec.verdict {
        Some(v) => (v.reviewer.clone(), v.summary.clone(), v.sha.clone(), v.report.clone()),
        None => (String::new(), String::new(), String::new(), String::new()),
    };
    let at: i64 = match &rec.verdict {
        Some(v) => v.at,
        None => rec.since,
    };
    let (additions, deletions, files): (u64, u64, u64) = match &rec.observed {
        Some(o) => (o.additions, o.deletions, o.files),
        None => (0, 0, 0),
    };
    let number = match &rec.pr_ref {
        Some(r) => " ".to_owned().concat(r.as_str()),
        None => String::new(),
    };
    let title = "merge? ".to_owned().concat(id).concat(number.as_str()).concat(" by ").concat(
        rec.worker.as_str(),
    ).concat(" — PASS by ").concat(reviewer.as_str()).concat(": ").concat(summary.as_str()).concat(
        " (+",
    ).concat(text::dec_of(additions).as_str()).concat(" −").concat(
        text::dec_of(deletions).as_str(),
    ).concat(", ").concat(text::dec_of(files).as_str()).concat(" files)");
    ticket_item(
        rec,
        22,
        "merge_decision",
        title.as_str(),
        time::minus(now, at),
        cmd_delivery_merge(id).as_str(),
        at,
    ).owned_by(Some(rec.worker.as_str())).with(
        Extra::Merge(
            MergeInfo {
                issue: rec.issue.clone(),
                pr: text::opt_copy(&rec.pr),
                pr_ref: text::opt_copy(&rec.pr_ref),
                sha,
                owner: rec.worker.clone(),
                reviewer,
                verdict_summary: summary,
                report,
                additions,
                deletions,
                files,
                decline: cmd_delivery_decline(id),
            },
        ),
    )
}

fn state_item(rec: &Record, now: i64) -> (r: Option<Item>)
    ensures
        agents::item_opt(r) == state_row(*rec, now),
{
    let age: i64 = time::minus(now, rec.since);
    match rec.state {
        State::Passed => if rec.merge_ready {
            Some(merge_item(rec, now))
        } else {
            None
        },
        State::Escalated => {
            let title = rec.issue.clone().concat(": ").concat(
                text::dec_of(rec.revisions).as_str(),
            ).concat(" REVISE verdicts — the review did not converge");
            Some(
                ticket_item(
                    rec,
                    24,
                    "review_escalated",
                    title.as_str(),
                    age,
                    cmd_issue_show(rec.issue.as_str()).as_str(),
                    rec.since,
                ),
            )
        },
        State::Unstaffed => {
            let title = rec.issue.clone().concat(": nobody is staffed for its review");
            Some(
                ticket_item(
                    rec,
                    26,
                    "review_unstaffed",
                    title.as_str(),
                    age,
                    "cadence agent list",
                    rec.since,
                ),
            )
        },
        State::Other => None,
    }
}

pub open spec fn record_rows(recs: Seq<Record>, now: i64) -> Seq<ItemView>
    decreases recs.len(),
{
    if recs.len() == 0 {
        seq![]
    } else {
        record_rows(recs.drop_last(), now) + agents::opt_row(auto_row(recs.last(), now)) + agents::opt_row(
            state_row(recs.last(), now),
        )
    }
}

/// The row of a record that cannot be read: never a silent empty loop.
pub open spec fn unreadable_row(e: Seq<char>) -> ItemView {
    needs::new_row(
        12,
        "delivery_unreadable"@,
        "the review loop's record is unreadable — "@ + e,
        0,
        seq![],
        None,
        "cadence delivery ls"@,
    ).about("tracker"@, "delivery.json"@)
}

/// The rows of the worker loop's record, which alone can raise them.
pub fn delivery_items(records: Result<Vec<Record>, String>, now: i64) -> (r: Vec<Item>)
    ensures
        needs::views(r@) == match records {
            Ok(recs) => record_rows(recs@, now),
            Err(e) => seq![unreadable_row(e@)],
        },
{
    let mut out: Vec<Item> = Vec::new();
    let recs = match records {
        Err(e) => {
            let title = "the review loop's record is unreadable — ".to_owned().concat(e.as_str());
            let empty = String::new();
            out.push(
                item(
                    12,
                    "delivery_unreadable",
                    title.as_str(),
                    0,
                    empty.as_str(),
                    None,
                    "cadence delivery ls",
                ).about("tracker", "delivery.json"),
            );
            assert(empty@ =~= seq![]);
            assert(needs::views(out@) =~= seq![unreadable_row(e@)]);
            return out;
        },
        Ok(recs) => recs,
    };
    let mut i: usize = 0;
    assert(needs::views(out@) =~= record_rows(recs@.take(0), now));
    while i < recs.len()
        invariant
            i <= recs@.len(),
            needs::views(out@) == record_rows(recs@.take(i as int), now),
        decreases recs.len() - i,
    {
        assert(recs@.take(i + 1).drop_last() =~= recs@.take(i as int));
        push_row(&mut out, auto_item(&recs[i], now));
        push_row(&mut out, state_item(&recs[i], now));
        i = i + 1;
    }
    assert(recs@.take(i as int) =~= recs@);
    out
}

/// A ticket that passed but was not seen green at the reviewed head is no
/// merge decision.
pub proof fn no_merge_row_before_ready(rec: Record, now: i64)
    requires
        rec.state is Passed,
        !rec.merge_ready,
    ensures
        state_row(rec, now) is None,
{
}

} // verus!
