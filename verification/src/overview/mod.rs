//! One derived answer to "what is waiting on a human or the PM right now,
//! and with which command", and to "is what we merged actually running".
//!
//! Nothing is stored. Agents and approvals come from the daemon, review,
//! blocked and project rows from the tracker, PR and CI state from
//! GitHub behind a cache, deploy drift from git. Every source degrades: an
//! unreachable one narrows the screen instead of failing it.
pub mod agent_laws;
pub mod agents;
pub mod clock;
pub mod delivery;
pub mod deploy;
pub mod detail_laws;
pub mod github;
pub mod github_laws;
pub mod monitor_laws;
pub mod monitoring;
pub mod need_laws;
pub mod needs;
pub mod part_laws;
pub mod parts;
pub mod screen;
pub mod screen_laws;
pub mod show;
pub mod tile_laws;
pub mod tracker;
pub mod watch_laws;

use crate::text;
use vstd::prelude::*;

verus! {

/// How long results from GitHub are served from the cache (seconds).
pub const GH_CACHE_SECS: i64 = 60;

/// Bound on one call of `gh` (milliseconds).
pub const GH_TIMEOUT_MS: u64 = 20000;

/// Read bound on each daemon call (milliseconds).
pub const PROBE_TIMEOUT_MS: u64 = 2000;

/// No agent probe starts past this budget (milliseconds).
pub const PROBE_BUDGET_MS: u64 = 4000;

/// How long the board waits on a refresh from GitHub (milliseconds).
pub const GH_BOARD_WAIT_MS: u64 = 1500;

/// How one build of the screen bounds its sources.
#[derive(Debug)]
pub struct Options {
    pub scope: needs::Scope,
    /// Serve GitHub from the cache only: never fetch, never write.
    pub cache_only: bool,
    /// How long to wait on a refresh from GitHub (milliseconds).
    pub gh_wait_ms: u64,
    /// Read bound on each daemon call (milliseconds).
    pub probe_timeout_ms: u64,
    /// The budget of the probe pass (milliseconds).
    pub probe_budget_ms: u64,
}

impl Options {
    /// One-shot callers: the process exits after one build, so a refresh
    /// in the background would never land, and it is waited out.
    pub fn cli() -> (r: Options)
        ensures
            r.scope.project is None,
            r.scope.group is None,
            !r.cache_only,
            r.gh_wait_ms == 2 * GH_TIMEOUT_MS + 1000,
            r.probe_timeout_ms == PROBE_TIMEOUT_MS,
            r.probe_budget_ms == PROBE_BUDGET_MS,
    {
        Options {
            scope: needs::Scope { project: None, group: None },
            cache_only: false,
            gh_wait_ms: GH_TIMEOUT_MS * 2 + 1000,
            probe_timeout_ms: PROBE_TIMEOUT_MS,
            probe_budget_ms: PROBE_BUDGET_MS,
        }
    }

    /// The long-lived board: past its wait the last cache is served while
    /// the refresh finishes for the next request.
    pub fn board() -> (r: Options)
        ensures
            r.scope.project is None,
            r.scope.group is None,
            !r.cache_only,
            r.gh_wait_ms == GH_BOARD_WAIT_MS,
            r.probe_timeout_ms == PROBE_TIMEOUT_MS,
            r.probe_budget_ms == PROBE_BUDGET_MS,
    {
        let mut r = Options::cli();
        r.gh_wait_ms = GH_BOARD_WAIT_MS;
        r
    }
}

// ---------- the commands that rows carry ----------

pub open spec fn agent_command(verb: Seq<char>, alias: Seq<char>) -> Seq<char> {
    "cadence agent "@ + verb + " "@ + alias
}

pub fn cmd_agent_unfence(alias: &str) -> (r: String)
    ensures
        r@ == agent_command("unfence"@, alias@),
{
    "cadence agent ".to_owned().concat("unfence").concat(" ").concat(alias)
}

pub fn cmd_agent_show(alias: &str) -> (r: String)
    ensures
        r@ == agent_command("show"@, alias@),
{
    "cadence agent ".to_owned().concat("show").concat(" ").concat(alias)
}

pub fn cmd_agent_resume(alias: &str) -> (r: String)
    ensures
        r@ == agent_command("resume"@, alias@),
{
    "cadence agent ".to_owned().concat("resume").concat(" ").concat(alias)
}

/// Answers the menu open on a pane; `<choice>` is the printed index.
pub fn cmd_agent_answer(alias: &str) -> (r: String)
    ensures
        r@ == agent_command("answer"@, alias@) + " <choice>"@,
{
    "cadence agent ".to_owned().concat("answer").concat(" ").concat(alias).concat(" <choice>")
}

/// Asks a worker whose turn ended silently to finish and report: a nudge
/// owns no turn, so it does not queue behind the unreported one.
pub fn cmd_send_nudge(alias: &str) -> (r: String)
    ensures
        r@ == "cadence send "@ + alias@ + " --nudge --text \"finish and report …\""@,
{
    "cadence send ".to_owned().concat(alias).concat(" --nudge --text \"finish and report …\"")
}

pub fn cmd_inbox(alias: &str) -> (r: String)
    ensures
        r@ == "cadence inbox "@ + alias@,
{
    "cadence inbox ".to_owned().concat(alias)
}

/// A request that takes a decision.
pub open spec fn takes_decision(method: Seq<char>) -> bool {
    text::begins(method, "cadence/"@) || text::ends(method, "requestApproval"@) || method
        == "session/request_permission"@
}

pub open spec fn respond_command(alias: Seq<char>, handle: Seq<char>, method: Seq<char>) -> Seq<char> {
    if method == "item/tool/requestUserInput"@ {
        agent_command("respond"@, alias) + " --request "@ + handle + " --answers-file answers-"@
            + handle + ".json"@
    } else if takes_decision(method) {
        agent_command("respond"@, alias) + " --request "@ + handle + " --decision accept"@
    } else {
        agent_command("requests"@, alias)
    }
}

/// The command that responds to a pending request, by its method: an
/// input request wants an answers file, an approval takes a decision, and
/// anything else is inspected.
pub fn cmd_agent_respond(alias: &str, handle: &str, method: &str) -> (r: String)
    ensures
        r@ == respond_command(alias@, handle@, method@),
{
    let respond = "cadence agent ".to_owned().concat("respond").concat(" ").concat(alias);
    if text::eq(method, "item/tool/requestUserInput") {
        respond.concat(" --request ").concat(handle).concat(" --answers-file answers-").concat(
            handle,
        ).concat(".json")
    } else if text::starts_with(method, "cadence/") || text::ends_with(method, "requestApproval")
        || text::eq(method, "session/request_permission") {
        respond.concat(" --request ").concat(handle).concat(" --decision accept")
    } else {
        "cadence agent ".to_owned().concat("requests").concat(" ").concat(alias)
    }
}

pub fn cmd_issue_show(id: &str) -> (r: String)
    ensures
        r@ == "cadence issue show "@ + id@,
{
    "cadence issue show ".to_owned().concat(id)
}

/// The operator's merge decision on a passed ticket.
pub fn cmd_delivery_merge(id: &str) -> (r: String)
    ensures
        r@ == "cadence delivery merge "@ + id@,
{
    "cadence delivery merge ".to_owned().concat(id)
}

/// Declines it instead.
pub fn cmd_delivery_decline(id: &str) -> (r: String)
    ensures
        r@ == "cadence delivery decline "@ + id@ + " --reason \"<why>\""@,
{
    "cadence delivery decline ".to_owned().concat(id).concat(" --reason \"<why>\"")
}

/// Reads the loop's PRs again and turns off auto-merge on a moved head.
pub fn cmd_delivery_sync(id: &str) -> (r: String)
    ensures
        r@ == "cadence delivery sync "@ + id@,
{
    "cadence delivery sync ".to_owned().concat(id)
}

pub fn cmd_issue_set_ready(id: &str) -> (r: String)
    ensures
        r@ == "cadence issue set "@ + id@ + " status=ready"@,
{
    "cadence issue set ".to_owned().concat(id).concat(" status=ready")
}

pub const CMD_ISSUE_SYNC: &'static str = "cadence issue sync";

pub const CMD_RESTART_WHEN_IDLE: &'static str = "cadence daemon restart --when-idle --ui";

/// Installs the newest tested main build; it never restarts on its own.
pub const CMD_UPGRADE_LATEST_MAIN: &'static str = "cadence upgrade --latest-main";

/// One source answered late or not at all, and the screen narrowed.
#[derive(Debug, Clone)]
pub struct Note {
    pub source: String,
    pub subject: String,
    pub detail: String,
}

pub struct NoteView {
    pub source: Seq<char>,
    pub subject: Seq<char>,
    pub detail: Seq<char>,
}

impl View for Note {
    type V = NoteView;

    open spec fn view(&self) -> NoteView {
        NoteView { source: self.source@, subject: self.subject@, detail: self.detail@ }
    }
}

pub open spec fn notes(v: Seq<Note>) -> Seq<NoteView> {
    v.map_values(|n: Note| n@)
}

/// A note that a source answered late or not at all.
pub fn degraded(source: &str, subject: &str, detail: &str) -> (r: Note)
    ensures
        r@ == (NoteView { source: source@, subject: subject@, detail: detail@ }),
{
    Note { source: source.to_owned(), subject: subject.to_owned(), detail: detail.to_owned() }
}

// ---------- pull requests in commit subjects ----------

/// What follows the last `p` of `s` that stands at `i` or before.
pub open spec fn after_last_at(s: Seq<char>, p: Seq<char>, i: int) -> Option<Seq<char>>
    decreases i + 1,
{
    if i < 0 {
        None
    } else if text::at(s, p, i) {
        Some(s.skip(i + p.len()))
    } else {
        after_last_at(s, p, i - 1)
    }
}

/// The PR number in a squash-merge subject: `(#123)` at its end.
pub open spec fn pr_in(subject: Seq<char>) -> Option<nat> {
    let t = text::trim_end(subject);
    if t.len() == 0 || t.last() != ')' {
        None
    } else {
        let inner = t.drop_last();
        match after_last_at(inner, "(#"@, inner.len() as int) {
            Some(n) => text::unsigned_upto(n, 10, u64::MAX as nat),
            None => None,
        }
    }
}

/// The PR number in a squash-merge subject.
pub fn pr_number(subject: &str) -> (r: Option<u64>)
    ensures
        match r {
            Some(n) => pr_in(subject@) == Some(n as nat),
            None => pr_in(subject@) is None,
        },
{
    let t = text::trim_end_of(subject);
    let v = text::chars_of(t.as_str());
    if v.len() == 0 || v[v.len() - 1] != ')' {
        return None;
    }
    let inner = text::string_of(v.as_slice(), 0, v.len() - 1);
    assert(inner@ =~= t@.drop_last());
    let w = text::chars_of(inner.as_str());
    let p = text::chars_of("(#");
    let ghost s = inner@;
    let mut i: usize = w.len() + 1;
    while i > 0
        invariant
            w@ == s,
            s == inner@,
            p@ == "(#"@,
            i <= w@.len() + 1,
            w@.len() < v@.len(),
            s == text::trim_end(subject@).drop_last(),
            text::trim_end(subject@).len() > 0,
            text::trim_end(subject@).last() == ')',
            after_last_at(s, p@, s.len() as int) == after_last_at(s, p@, i - 1),
        decreases i,
    {
        i = i - 1;
        if text::stands_at(w.as_slice(), p.as_slice(), i) {
            assert(i + p.len() <= w.len());
            let tail = text::tail(inner.as_str(), i + p.len());
            return text::parse_unsigned(tail.as_str(), 10, u64::MAX);
        }
    }
    None
}

} // verus!
