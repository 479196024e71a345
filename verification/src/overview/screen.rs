//! The whole screen: the rows of every source, judged, merged, scoped and
//! ordered, and beside them the projects, CI, drift and what was degraded.
use crate::json::Json;
use crate::json::JsonView;
use crate::order;
use crate::overview;
use crate::overview::agents;
use crate::overview::agents::{agent_items, agent_project, master_login_item, push_row, AgentProbe, AgentRow};
use crate::overview::degraded;
use crate::overview::delivery;
use crate::overview::delivery::{delivery_items, Record};
use crate::overview::deploy;
use crate::overview::deploy::{check_scope, drift_item, repo_lines, repo_paths, slug_project, DriftPart, Project, RepoLine};
use crate::overview::github;
use crate::overview::github::{main_ci_view, pr_item, BranchIssue, MainCiView, ShaCiView};
use crate::overview::needs;
use crate::overview::needs::{group_members, needs_me, Item, ItemView, MemberRow, Owners};
use crate::overview::tracker;
use crate::overview::tracker::{project_tile, tracker_behind_item, tracker_items, Clocks, Issue, ProjectTile};
use crate::overview::{Note, NoteView, Options};
use crate::text;
use vstd::prelude::*;

verus! {

// ---------- daemon rows ----------

/// An agent, what its probes returned, and what is known of its login.
#[derive(Debug)]
pub struct AgentIn {
    pub row: AgentRow,
    pub probe: AgentProbe,
    pub confined: bool,
    pub has_login: bool,
    pub login_command: String,
}

pub open spec fn agent_part(a: AgentIn, repos: Seq<(String, String)>, now: i64) -> Seq<ItemView> {
    let project = agents::project_of(a.row.cwd.deep_view(), repos);
    agents::agent_rows(a.row, a.probe, project, now) + agents::opt_row(
        agents::login_row(a.row, a.confined, a.has_login, a.login_command@, project, now),
    )
}

pub open spec fn agent_parts(v: Seq<AgentIn>, repos: Seq<(String, String)>, now: i64) -> Seq<
    ItemView,
>
    decreases v.len(),
{
    if v.len() == 0 {
        seq![]
    } else {
        agent_parts(v.drop_last(), repos, now) + agent_part(v.last(), repos, now)
    }
}

/// All panes are known to be idle.
pub open spec fn idle(reachable: bool, v: Seq<AgentIn>) -> bool {
    reachable && forall|i: int| 0 <= i < v.len() ==> !(#[trigger] v[i]).probe.holds_drift
}

pub open spec fn some_unknown(v: Seq<AgentIn>) -> bool {
    exists|i: int| 0 <= i < v.len() && (#[trigger] v[i]).probe.probe_unknown
}

proof fn views_add(a: Seq<Item>, b: Seq<Item>)
    ensures
        needs::views(a + b) == needs::views(a) + needs::views(b),
{
    assert(needs::views(a + b) =~= needs::views(a) + needs::views(b));
}

fn add_rows(items: &mut Vec<Item>, more: Vec<Item>)
    ensures
        needs::views(final(items)@) == needs::views(old(items)@) + needs::views(more@),
{
    let mut more = more;
    let ghost a = items@;
    let ghost b = more@;
    items.append(&mut more);
    proof {
        views_add(a, b);
    }
}

/// The rows of the agents, and whether a pane may be busy.
pub fn daemon_rows(
    reachable: bool,
    v: &Vec<AgentIn>,
    repos: &Vec<(String, String)>,
    now: i64,
) -> (r: (Vec<Item>, bool, bool))
    ensures
        needs::views(r.0@) == agent_parts(v@, repos@, now),
        r.1 == idle(reachable, v@),
        r.2 == some_unknown(v@),
{
    let mut rows: Vec<Item> = Vec::new();
    let mut panes_idle = reachable;
    let mut unknown = false;
    let mut i: usize = 0;
    assert(needs::views(rows@) =~= agent_parts(v@.take(0), repos@, now));
    while i < v.len()
        invariant
            i <= v@.len(),
            needs::views(rows@) == agent_parts(v@.take(i as int), repos@, now),
            panes_idle == (reachable && forall|k: int|
                0 <= k < i ==> !(#[trigger] v@[k]).probe.holds_drift),
            unknown == exists|k: int| 0 <= k < i && (#[trigger] v@[k]).probe.probe_unknown,
        decreases v.len() - i,
    {
        let a = &v[i];
        assert(v@.take(i + 1).drop_last() =~= v@.take(i as int));
        let ghost before = needs::views(rows@);
        let project = agent_project(text::opt_str(&a.row.cwd), repos);
        add_rows(&mut rows, agent_items(&a.row, &a.probe, project.as_str(), now));
        push_row(
            &mut rows,
            master_login_item(
                &a.row,
                a.confined,
                a.has_login,
                a.login_command.as_str(),
                project.as_str(),
                now,
            ),
        );
        assert(needs::views(rows@) =~= before + agent_part(*a, repos@, now));
        if a.probe.holds_drift {
            panes_idle = false;
        }
        if a.probe.probe_unknown {
            unknown = true;
        }
        i = i + 1;
    }
    assert(v@.take(i as int) =~= v@);
    (rows, panes_idle, unknown)
}

// ---------- GitHub rows ----------

/// The data of a repository, and the log of its clone where it has one.
#[derive(Debug)]
pub struct GhIn {
    pub slug: String,
    pub data: Json,
    pub log: Option<Result<Vec<String>, String>>,
}

/// The PRs of a repository.
pub open spec fn prs_of(data: JsonView) -> Seq<JsonView> {
    github::items_of(crate::json::field(data, "prs"@))
}

/// The branches of open PRs, in lower case.
pub open spec fn heads(prs: Seq<JsonView>) -> Seq<Seq<char>>
    decreases prs.len(),
{
    if prs.len() == 0 {
        seq![]
    } else {
        match crate::json::field_str(prs.last(), "headRefName"@) {
            Some(h) => heads(prs.drop_last()).push(text::lowercase(h)),
            None => heads(prs.drop_last()),
        }
    }
}

pub open spec fn all_heads(gh: Seq<GhIn>) -> Seq<Seq<char>>
    decreases gh.len(),
{
    if gh.len() == 0 {
        seq![]
    } else {
        all_heads(gh.drop_last()) + heads(prs_of(gh.last().data@))
    }
}

fn prs_in(data: &Json) -> (r: Option<&Vec<Json>>)
    ensures
        match r {
            Some(v) => github::values(v@) == prs_of(data@),
            None => prs_of(data@).len() == 0,
        },
{
    match data.get("prs") {
        Some(p) => {
            let v = p.as_arr();
            proof {
                if let Some(x) = v {
                    assert(github::values(x@) =~= prs_of(data@));
                }
            }
            v
        },
        None => None,
    }
}

fn push_heads(out: &mut Vec<String>, data: &Json)
    ensures
        final(out).deep_view() == old(out).deep_view() + heads(prs_of(data@)),
{
    let ghost before = out.deep_view();
    let ghost all = prs_of(data@);
    match prs_in(data) {
        Some(prs) => {
            let mut i: usize = 0;
            assert(all.take(0) =~= Seq::empty());
            assert(before + heads(all.take(0)) =~= before);
            while i < prs.len()
                invariant
                    github::values(prs@) == all,
                    i <= prs@.len(),
                    out.deep_view() == before + heads(all.take(i as int)),
                decreases prs.len() - i,
            {
                assert(all.take(i + 1).drop_last() =~= all.take(i as int));
                assert(all[i as int] == prs@[i as int]@);
                if let Some(h) = prs[i].get_str("headRefName") {
                    let ghost o = out.deep_view();
                    let l = text::to_lowercase(h);
                    out.push(l);
                    assert(out.deep_view() =~= o.push(l@));
                    assert(before + heads(all.take(i as int)).push(l@) =~= o.push(l@));
                }
                i = i + 1;
            }
            assert(all.take(i as int) =~= all);
        },
        None => {
            assert(before + heads(all) =~= before);
        },
    }
}

/// The branches of every open PR.
pub fn open_branches(gh: &Vec<GhIn>) -> (r: Vec<String>)
    ensures
        r.deep_view() == all_heads(gh@),
{
    let mut out: Vec<String> = Vec::new();
    let mut i: usize = 0;
    assert(out.deep_view() =~= all_heads(gh@.take(0)));
    while i < gh.len()
        invariant
            i <= gh@.len(),
            out.deep_view() == all_heads(gh@.take(i as int)),
        decreases gh.len() - i,
    {
        assert(gh@.take(i + 1).drop_last() =~= gh@.take(i as int));
        push_heads(&mut out, &gh[i].data);
        i = i + 1;
    }
    assert(gh@.take(i as int) =~= gh@);
    out
}

/// An issue, as a branch finds it.
pub open spec fn same_branch(b: BranchIssue, i: Issue) -> bool {
    b.prefix@ == i.branch_prefix@ && b.owner.deep_view() == i.owner.deep_view()
}

fn branch_issues(issues: &Vec<Issue>) -> (r: Vec<BranchIssue>)
    ensures
        r@.len() == issues@.len(),
        forall|i: int| 0 <= i < r@.len() ==> same_branch(#[trigger] r@[i], issues@[i]),
{
    let mut out: Vec<BranchIssue> = Vec::new();
    let mut i: usize = 0;
    while i < issues.len()
        invariant
            i <= issues@.len(),
            out@.len() == i,
            forall|k: int| 0 <= k < i ==> same_branch(#[trigger] out@[k], issues@[k]),
        decreases issues.len() - i,
    {
        out.push(
            BranchIssue {
                prefix: issues[i].branch_prefix.clone(),
                owner: text::opt_copy(&issues[i].owner),
            },
        );
        i = i + 1;
    }
    out
}

pub open spec fn pr_rows(
    slug: Seq<char>,
    project: Seq<char>,
    prs: Seq<JsonView>,
    issues: Seq<BranchIssue>,
    now: i64,
) -> Seq<ItemView>
    decreases prs.len(),
{
    if prs.len() == 0 {
        seq![]
    } else {
        pr_rows(slug, project, prs.drop_last(), issues, now) + agents::opt_row(
            github::pr_row(slug, project, prs.last(), issues, now),
        )
    }
}

fn pr_items(slug: &str, project: &str, data: &Json, issues: &Vec<BranchIssue>, now: i64) -> (r: Vec<
    Item,
>)
    ensures
        needs::views(r@) == pr_rows(slug@, project@, prs_of(data@), issues@, now),
{
    let mut out: Vec<Item> = Vec::new();
    let ghost all = prs_of(data@);
    assert(needs::views(out@) =~= Seq::empty());
    if let Some(prs) = prs_in(data) {
        let mut i: usize = 0;
        assert(all.take(0) =~= Seq::empty());
        while i < prs.len()
            invariant
                github::values(prs@) == all,
                i <= prs@.len(),
                needs::views(out@) == pr_rows(slug@, project@, all.take(i as int), issues@, now),
            decreases prs.len() - i,
        {
            assert(all.take(i + 1).drop_last() =~= all.take(i as int));
            assert(all[i as int] == prs@[i as int]@);
            push_row(&mut out, pr_item(slug, project, &prs[i], issues, now));
            i = i + 1;
        }
        assert(all.take(i as int) =~= all);
    }
    out
}

/// What a repository shows of its default branch.
pub enum CiView {
    Nothing,
    Fault { branch: Option<Seq<char>>, error: JsonView },
    Shas { branch: Seq<char>, by_log: bool, log_error: Option<Seq<char>>, shas: Seq<ShaCiView> },
}

impl View for MainCiView {
    type V = CiView;

    open spec fn view(&self) -> CiView {
        match self {
            MainCiView::Nothing => CiView::Nothing,
            MainCiView::Fault { branch, error } => CiView::Fault {
                branch: branch.deep_view(),
                error: error@,
            },
            MainCiView::Shas { branch, by_log, log_error, shas } => CiView::Shas {
                branch: branch@,
                by_log: *by_log,
                log_error: log_error.deep_view(),
                shas: github::sha_views(shas@),
            },
        }
    }
}

pub open spec fn ci_view(data: JsonView, log: Option<Result<Vec<String>, String>>) -> CiView {
    match github::ci_block(data) {
        github::CiBlock::Nothing => CiView::Nothing,
        github::CiBlock::Fault { branch, error } => CiView::Fault { branch, error },
        github::CiBlock::Runs { branch, runs } => CiView::Shas {
            branch,
            by_log: github::log_of(log).len() > 0,
            log_error: github::log_error_of(log),
            shas: github::main_ci(runs, github::log_of(log)),
        },
    }
}

pub open spec fn ci_part_rows(
    slug: Seq<char>,
    project: Seq<char>,
    data: JsonView,
    log: Option<Result<Vec<String>, String>>,
    now: i64,
) -> Seq<ItemView> {
    match github::ci_block(data) {
        github::CiBlock::Runs { branch, runs } => github::ci_rows(
            slug,
            project,
            branch,
            github::main_ci(runs, github::log_of(log)),
            now,
        ),
        _ => seq![],
    }
}

/// The CI of one repository on the screen.
#[derive(Debug)]
pub struct CiEntry {
    pub slug: String,
    pub project: String,
    pub ci: MainCiView,
}

pub struct CiEntryView {
    pub slug: Seq<char>,
    pub project: Seq<char>,
    pub ci: CiView,
}

impl View for CiEntry {
    type V = CiEntryView;

    open spec fn view(&self) -> CiEntryView {
        CiEntryView { slug: self.slug@, project: self.project@, ci: self.ci@ }
    }
}

pub open spec fn entry_views(v: Seq<CiEntry>) -> Seq<CiEntryView> {
    v.map_values(|e: CiEntry| e@)
}

pub open spec fn by_slug() -> spec_fn(CiEntryView, CiEntryView) -> bool {
    |a: CiEntryView, b: CiEntryView| text::le(a.slug, b.slug)
}

pub open spec fn ci_note(slug: Seq<char>, ci: CiView) -> Seq<NoteView> {
    match ci {
        CiView::Fault { error: JsonView::Str(e), .. } => seq![
            NoteView { source: "github_ci"@, subject: slug, detail: e },
        ],
        _ => seq![],
    }
}

pub open spec fn gh_project(lines: Seq<RepoLine>, g: GhIn) -> Seq<char> {
    deploy::project_of_slug(deploy::line_views(lines), g.slug@)
}

pub open spec fn gh_rows(
    gh: Seq<GhIn>,
    lines: Seq<RepoLine>,
    issues: Seq<BranchIssue>,
    now: i64,
) -> Seq<ItemView>
    decreases gh.len(),
{
    if gh.len() == 0 {
        seq![]
    } else {
        let g = gh.last();
        let p = gh_project(lines, g);
        gh_rows(gh.drop_last(), lines, issues, now) + pr_rows(
            g.slug@,
            p,
            prs_of(g.data@),
            issues,
            now,
        ) + ci_part_rows(g.slug@, p, g.data@, g.log, now)
    }
}

pub open spec fn gh_notes(gh: Seq<GhIn>) -> Seq<NoteView>
    decreases gh.len(),
{
    if gh.len() == 0 {
        seq![]
    } else {
        let g = gh.last();
        gh_notes(gh.drop_last()) + ci_note(g.slug@, ci_view(g.data@, g.log))
    }
}

/// The CI of the repositories in scope that have any.
pub open spec fn gh_entries(
    gh: Seq<GhIn>,
    lines: Seq<RepoLine>,
    scope: Option<Seq<char>>,
) -> Seq<CiEntryView>
    decreases gh.len(),
{
    if gh.len() == 0 {
        seq![]
    } else {
        let g = gh.last();
        let p = gh_project(lines, g);
        let ci = ci_view(g.data@, g.log);
        let before = gh_entries(gh.drop_last(), lines, scope);
        if ci is Nothing || (scope is Some && scope != Some(p)) {
            before
        } else {
            before.push(CiEntryView { slug: g.slug@, project: p, ci })
        }
    }
}

/// What the repositories add to a screen.
pub struct GhPart {
    pub rows: Vec<Item>,
    pub notes: Vec<Note>,
    pub main_ci: Vec<CiEntry>,
}

fn insert_entry(v: &mut Vec<CiEntry>, e: CiEntry)
    ensures
        entry_views(final(v)@) == order::insert(entry_views(old(v)@), e@, by_slug()),
{
    let ghost o = entry_views(v@);
    let ghost le = by_slug();
    let ghost ev = e@;
    let mut k: usize = v.len();
    while k > 0 && text::less(e.slug.as_str(), v[k - 1].slug.as_str())
        invariant
            le == by_slug(),
            o == entry_views(v@),
            ev == e@,
            k <= v@.len(),
            forall|j: int| k <= j < o.len() ==> !le(#[trigger] o[j], ev),
        decreases k,
    {
        assert(o[k - 1] == v@[k - 1]@);
        proof {
            text::lt_total(o[k - 1].slug, ev.slug);
        }
        k = k - 1;
    }
    proof {
        if k > 0 {
            assert(o[k - 1] == v@[k - 1]@);
            text::lt_total(o[k - 1].slug, ev.slug);
        }
        order::insert_at(o, ev, le, k as int);
    }
    v.insert(k, e);
    assert(entry_views(v@) =~= o.insert(k as int, ev));
}

fn out_of_scope(project: &str, scope: Option<&str>) -> (r: bool)
    ensures
        r == (scope.deep_view() is Some && scope.deep_view() != Some(project@)),
{
    match scope {
        Some(s) => !text::eq(s, project),
        None => false,
    }
}

pub fn gh_part(
    gh: Vec<GhIn>,
    lines: &Vec<RepoLine>,
    issues: &Vec<BranchIssue>,
    scope: Option<&str>,
    now: i64,
) -> (r: GhPart)
    ensures
        needs::views(r.rows@) == gh_rows(gh@, lines@, issues@, now),
        overview::notes(r.notes@) == gh_notes(gh@),
        entry_views(r.main_ci@) == order::sorted(
            gh_entries(gh@, lines@, scope.deep_view()),
            by_slug(),
        ),
{
    let ghost all = gh@;
    let mut rows: Vec<Item> = Vec::new();
    let mut notes: Vec<Note> = Vec::new();
    let mut main_ci: Vec<CiEntry> = Vec::new();
    assert(all.take(0) =~= Seq::empty());
    assert(needs::views(rows@) =~= Seq::empty());
    assert(overview::notes(notes@) =~= Seq::empty());
    assert(entry_views(main_ci@) =~= Seq::empty());
    for g in it: gh
        invariant
            it.seq() == all,
            needs::views(rows@) == gh_rows(all.take(it.index()), lines@, issues@, now),
            overview::notes(notes@) == gh_notes(all.take(it.index())),
            entry_views(main_ci@) == order::sorted(
                gh_entries(all.take(it.index()), lines@, scope.deep_view()),
                by_slug(),
            ),
    {
        let ghost n = it.index();
        assert(all.take(n + 1).drop_last() =~= all.take(n));
        assert(all.take(n + 1).last() == g);
        let ghost before = needs::views(rows@);
        let project = slug_project(lines, g.slug.as_str());
        add_rows(&mut rows, pr_items(g.slug.as_str(), project.as_str(), &g.data, issues, now));
        let ghost log = g.log;
        let (ci, more) = main_ci_view(g.slug.as_str(), project.as_str(), &g.data, g.log, now);
        assert(ci@ == ci_view(g.data@, log));
        assert(needs::views(more@) =~= ci_part_rows(g.slug@, project@, g.data@, log, now));
        let ghost nv = overview::notes(notes@);
        if let MainCiView::Fault { error: Json::Str(e), .. } = &ci {
            let note = degraded("github_ci", g.slug.as_str(), e.as_str());
            notes.push(note);
            assert(overview::notes(notes@) =~= nv + seq![note@]);
        } else {
            assert(overview::notes(notes@) =~= nv + seq![]);
        }
        assert(overview::notes(notes@) == nv + ci_note(g.slug@, ci@));
        let nothing = match &ci {
            MainCiView::Nothing => true,
            _ => false,
        };
        if !nothing && !out_of_scope(project.as_str(), scope) {
            let ghost es = gh_entries(all.take(n), lines@, scope.deep_view());
            let e = CiEntry { slug: g.slug, project, ci };
            assert(es.push(e@).drop_last() =~= es);
            insert_entry(&mut main_ci, e);
        }
        add_rows(&mut rows, more);
    }
    assert(all.take(all.len() as int) =~= all);
    GhPart { rows, notes, main_ci }
}

// ---------- the screen ----------

/// What the tracker gave.
#[derive(Debug)]
pub struct TrackerIn {
    pub issues: Vec<Issue>,
    pub clocks: Clocks,
    /// Issues past the budget of the status clocks.
    pub skipped: usize,
    /// The record of the review loop.
    pub records: Result<Vec<Record>, String>,
    /// Commits that the tracker is behind its upstream, where it has one.
    pub behind: Option<i64>,
}

/// What the sources gave, each as far as it answered.
#[derive(Debug)]
pub struct Sources {
    pub reachable: bool,
    pub agents: Vec<AgentIn>,
    pub owners: Owners,
    pub members: Vec<MemberRow>,
    pub notes: Vec<Note>,
    pub projects: Vec<Project>,
    pub pm_dir: String,
    pub tracker: Option<TrackerIn>,
    pub gh: Vec<GhIn>,
    pub gh_error: Option<String>,
    pub drift: DriftPart,
}

#[derive(Debug)]
pub struct Overview {
    pub needs_me: Vec<Item>,
    pub drift: DriftPart,
    pub projects: Vec<ProjectTile>,
    pub main_ci: Vec<CiEntry>,
    pub degraded: Vec<Note>,
}

/// The rows of the tracker and of what stands beside it.
pub open spec fn tracker_part(
    t: Option<TrackerIn>,
    branches: Seq<Seq<char>>,
    now: i64,
    cap: nat,
) -> Seq<ItemView> {
    match t {
        None => seq![],
        Some(t) => tracker::rows_upto(
            t.issues@,
            t.issues@.len() as int,
            branches,
            t.clocks@,
            now,
        ) + tracker::intake_block(t.issues@, t.clocks@, now, cap) + (match t.records {
            Ok(recs) => delivery::record_rows(recs@, now),
            Err(e) => seq![delivery::unreadable_row(e@)],
        }) + agents::opt_row(behind_row(t.behind)),
    }
}

pub open spec fn behind_row(behind: Option<i64>) -> Option<ItemView> {
    match behind {
        Some(n) => if n > 0 {
            Some(
                needs::new_row(
                    110,
                    "tracker_behind"@,
                    "tracker "@ + text::dec(n as nat) + " commit(s) behind upstream"@,
                    0,
                    seq![],
                    None,
                    overview::CMD_ISSUE_SYNC@,
                ).about("tracker"@, "pm"@),
            )
        } else {
            None
        },
        None => None,
    }
}

pub open spec fn skipped_note(t: Option<TrackerIn>) -> Seq<NoteView> {
    match t {
        Some(t) => if t.skipped > 0 {
            seq![
                NoteView {
                    source: "tracker_status_time"@,
                    subject: ""@,
                    detail: text::dec(t.skipped as nat)
                        + " issue(s) past the status-time budget — those rows escalate by owner only"@,
                },
            ]
        } else {
            seq![]
        },
        None => seq![],
    }
}

/// Without a repository on GitHub its faults are nobody's.
pub open spec fn gh_note(error: Option<Seq<char>>, slugs: Seq<Seq<char>>) -> Seq<NoteView> {
    match error {
        Some(e) => if slugs.len() > 0 {
            seq![NoteView { source: "github"@, subject: ""@, detail: e }]
        } else {
            seq![]
        },
        None => seq![],
    }
}

pub open spec fn project_name(d: DriftPart) -> Seq<char> {
    match d.project {
        Some(p) => p@,
        None => ""@,
    }
}

pub open spec fn issues_of(t: Option<TrackerIn>) -> Seq<Issue> {
    match t {
        Some(t) => t.issues@,
        None => seq![],
    }
}

/// The issues as branches find them are those of the tracker.
pub open spec fn branch_list(b: Seq<BranchIssue>, issues: Seq<Issue>) -> bool {
    b.len() == issues.len() && forall|i: int|
        0 <= i < b.len() ==> same_branch(#[trigger] b[i], issues[i])
}

/// All rows that the sources raise, in the order of the sources.
pub open spec fn raised(
    s: Sources,
    lines: Seq<RepoLine>,
    repos: Seq<(String, String)>,
    branch: Seq<BranchIssue>,
    now: i64,
    cap: nat,
) -> Seq<ItemView> {
    agent_parts(s.agents@, repos, now) + tracker_part(s.tracker, all_heads(s.gh@), now, cap)
        + gh_rows(s.gh@, lines, branch, now) + agents::opt_row(
        deploy::drift_row(s.drift.drift@, project_name(s.drift), idle(s.reachable, s.agents@)),
    )
}

/// Why a scope is refused: the project is not the tracker's, or the group
/// cannot be told.
pub open spec fn refusal(s: Sources, opts: Options) -> Option<Seq<char>> {
    if opts.scope.project is Some && !deploy::keys(s.projects@).contains(
        opts.scope.project->0@,
    ) {
        Some(deploy::unknown_project(opts.scope.project->0@, s.projects@, s.pm_dir@))
    } else {
        match opts.scope.group {
            Some(g) => needs::group_fault(s.reachable, s.members@, g@),
            None => None,
        }
    }
}

pub open spec fn members_of(s: Sources, opts: Options) -> Option<Seq<Seq<char>>> {
    match opts.scope.group {
        Some(g) => Some(needs::group_aliases(s.members@, g@)),
        None => None,
    }
}

/// The projects in scope.
pub open spec fn in_scope(scope: Option<Seq<char>>) -> spec_fn(Project) -> bool {
    |p: Project| scope is None || scope == Some(p.key@)
}

/// The screen that the sources and the rows they raise lead to.
pub open spec fn shows(
    o: Overview,
    s: Sources,
    opts: Options,
    lines: Seq<RepoLine>,
    repos: Seq<(String, String)>,
    branch: Seq<BranchIssue>,
    now: i64,
    cap: nat,
) -> bool {
    let scope = opts.scope.project.deep_view();
    let slugs = deploy::slugs(deploy::line_views(lines));
    let panes_idle = idle(s.reachable, s.agents@);
    let kept = s.projects@.filter(in_scope(scope));
    &&& needs::views(o.needs_me@) == needs::screen(
        raised(s, lines, repos, branch, now, cap),
        s.owners,
        now,
        needs::ESCALATE_AFTER_SECS,
        scope,
        members_of(s, opts),
    )
    &&& o.drift.drift@ == s.drift.drift@
    &&& o.drift.project.deep_view() == s.drift.project.deep_view()
    &&& o.drift.repo.deep_view() == s.drift.repo.deep_view()
    &&& o.drift.held.deep_view() == deploy::held(
        s.drift.drift@,
        panes_idle,
        some_unknown(s.agents@),
    )
    &&& entry_views(o.main_ci@) == order::sorted(gh_entries(s.gh@, lines, scope), by_slug())
    &&& overview::notes(o.degraded@) == overview::notes(s.notes@) + gh_note(
        s.gh_error.deep_view(),
        slugs,
    ) + skipped_note(s.tracker) + gh_notes(s.gh@)
    &&& match s.tracker {
        None => o.projects@.len() == 0,
        Some(t) => {
            &&& o.projects@.len() == kept.len()
            &&& forall|k: int|
                0 <= k < kept.len() ==> tile_of(#[trigger] o.projects@[k], kept[k].key@, t.issues@, now)
        },
    }
}

/// A tile shows a project's open work by status, its oldest review and its
/// claims.
pub open spec fn tile_of(r: ProjectTile, key: Seq<char>, issues: Seq<Issue>, now: i64) -> bool {
    let all = tracker::open_statuses(issues, key);
    let names = text::name_set(all);
    &&& r.key@ == key
    &&& r.open_by_status@.len() == names.len()
    &&& forall|k: int|
        0 <= k < names.len() ==> (#[trigger] r.open_by_status@[k]).0@ == names[k]
            && r.open_by_status@[k].1 == tracker::times_in(all, names[k])
    &&& r.oldest_review_age == tracker::oldest_review(issues, key, now)
    &&& forall|k: int|
        0 <= k < r.claims@.len() ==> (#[trigger] r.claims@[k]) < issues.len() && tracker::claimed(
            issues[r.claims@[k] as int],
            key,
        )
    &&& forall|i: int|
        0 <= i < issues.len() && tracker::claimed(#[trigger] issues[i], key)
            ==> r.claims@.contains(i as usize)
    &&& forall|a: int, b: int| 0 <= a < b < r.claims@.len() ==> r.claims@[a] < r.claims@[b]
}

fn tiles(projects: &Vec<Project>, issues: &Vec<Issue>, scope: Option<&str>, now: i64) -> (r: Vec<
    ProjectTile,
>)
    ensures
        r@.len() == projects@.filter(in_scope(scope.deep_view())).len(),
        forall|k: int|
            0 <= k < r@.len() ==> tile_of(
                #[trigger] r@[k],
                projects@.filter(in_scope(scope.deep_view()))[k].key@,
                issues@,
                now,
            ),
{
    let ghost f = in_scope(scope.deep_view());
    let mut out: Vec<ProjectTile> = Vec::new();
    let mut i: usize = 0;
    proof {
        reveal(Seq::filter);
        assert(projects@.take(0) =~= Seq::empty());
    }
    while i < projects.len()
        invariant
            f == in_scope(scope.deep_view()),
            i <= projects@.len(),
            out@.len() == projects@.take(i as int).filter(f).len(),
            forall|k: int|
                0 <= k < out@.len() ==> tile_of(
                    #[trigger] out@[k],
                    projects@.take(i as int).filter(f)[k].key@,
                    issues@,
                    now,
                ),
        decreases projects.len() - i,
    {
        proof {
            reveal(Seq::filter);
            assert(projects@.take(i + 1).drop_last() =~= projects@.take(i as int));
        }
        if !out_of_scope(projects[i].key.as_str(), scope) {
            out.push(project_tile(projects[i].key.as_str(), issues, now));
        }
        i = i + 1;
    }
    assert(projects@.take(i as int) =~= projects@);
    out
}

fn tracker_rows(t: TrackerIn, branches: &Vec<String>, now: i64, cap: usize) -> (r: (
    Vec<Item>,
    Vec<Issue>,
    usize,
))
    ensures
        needs::views(r.0@) == tracker_part(Some(t), branches.deep_view(), now, cap as nat),
        r.1@ == t.issues@,
        r.2 == t.skipped,
{
    let ghost t0 = t;
    let mut rows = tracker_items(&t.issues, branches, &t.clocks, now, cap);
    let ghost a = needs::views(rows@);
    add_rows(&mut rows, delivery_items(t.records, now));
    if let Some(n) = t.behind {
        push_row(&mut rows, tracker_behind_item(n));
    } else {
        assert(needs::views(rows@) =~= needs::views(rows@) + seq![]);
    }
    (rows, t.issues, t.skipped)
}

fn push_note(notes: &mut Vec<Note>, n: Note)
    ensures
        overview::notes(final(notes)@) == overview::notes(old(notes)@) + seq![n@],
{
    let ghost o = notes@;
    notes.push(n);
    assert(overview::notes(notes@) =~= overview::notes(o) + seq![n@]);
}

fn add_notes(notes: &mut Vec<Note>, more: Vec<Note>)
    ensures
        overview::notes(final(notes)@) == overview::notes(old(notes)@) + overview::notes(more@),
{
    let mut more = more;
    let ghost a = notes@;
    let ghost b = more@;
    notes.append(&mut more);
    assert(overview::notes(notes@) =~= overview::notes(a) + overview::notes(b));
}

/// Builds the screen from what the sources gave. It fails only on a scope
/// that names a project or a group that is not known.
pub fn overview_from(s: Sources, opts: &Options, now: i64, cap: usize) -> (r: Result<
    Overview,
    String,
>)
    ensures
        match r {
            Err(e) => refusal(s, *opts) == Some(e@),
            Ok(o) => refusal(s, *opts) is None && exists|
                lines: Seq<RepoLine>,
                repos: Seq<(String, String)>,
                branch: Seq<BranchIssue>,
            |
                {
                    &&& deploy::line_views(lines) == deploy::lines_upto(
                        s.projects@,
                        s.projects@.len() as int,
                    )
                    &&& deploy::pairs(repos) == deploy::line_views(lines).filter(
                        deploy::with_path(),
                    ).map_values(|l: deploy::LineView| deploy::path_pair(l))
                    &&& branch_list(branch, issues_of(s.tracker))
                    &&& #[trigger] shows(o, s, *opts, lines, repos, branch, now, cap as nat)
                },
        },
{
    let ghost s0 = s;
    if let Some(key) = &opts.scope.project {
        if let Err(e) = check_scope(key.as_str(), &s.projects, s.pm_dir.as_str()) {
            return Err(e);
        }
    }
    let members = match &opts.scope.group {
        Some(root) => match group_members(s.reachable, &s.members, root.as_str()) {
            Ok(m) => Some(m),
            Err(e) => {
                return Err(e);
            },
        },
        None => None,
    };
    let lines = repo_lines(&s.projects);
    let repos = repo_paths(&lines);
    let slugs = deploy::repo_slugs(&lines);
    proof {
        text::name_set_members(deploy::slugs(deploy::line_views(lines@)));
        names_empty(deploy::slugs(deploy::line_views(lines@)));
    }
    let scope = text::opt_str(&opts.scope.project);
    let mut notes = s.notes;
    let ghost n0 = overview::notes(notes@);
    if slugs.len() > 0 {
        if let Some(e) = &s.gh_error {
            push_note(&mut notes, degraded("github", "", e.as_str()));
        }
    }
    assert(overview::notes(notes@) =~= n0 + gh_note(
        s0.gh_error.deep_view(),
        deploy::slugs(deploy::line_views(lines@)),
    ));
    let ghost n1 = overview::notes(notes@);
    let (mut rows, panes_idle, unknown) = daemon_rows(s.reachable, &s.agents, &repos, now);
    let branches = open_branches(&s.gh);
    let ghost r1 = needs::views(rows@);
    let mut projects: Vec<ProjectTile> = Vec::new();
    let mut branch: Vec<BranchIssue> = Vec::new();
    match s.tracker {
        Some(t) => {
            let (more, issues, skipped) = tracker_rows(t, &branches, now, cap);
            add_rows(&mut rows, more);
            branch = branch_issues(&issues);
            projects = tiles(&s.projects, &issues, scope, now);
            if skipped > 0 {
                let detail = text::dec_of(skipped as u64).concat(
                    " issue(s) past the status-time budget — those rows escalate by owner only",
                );
                push_note(&mut notes, degraded("tracker_status_time", "", detail.as_str()));
            }
        },
        None => {
            assert(needs::views(rows@) =~= r1 + tracker_part(s0.tracker, all_heads(s0.gh@), now, cap as nat));
        },
    }
    assert(overview::notes(notes@) =~= n1 + skipped_note(s0.tracker));
    assert(needs::views(rows@) == r1 + tracker_part(s0.tracker, all_heads(s0.gh@), now, cap as nat));
    let part = gh_part(s.gh, &lines, &branch, scope, now);
    add_rows(&mut rows, part.rows);
    add_notes(&mut notes, part.notes);
    let project = match &s.drift.project {
        Some(p) => p.clone(),
        None => "".to_owned(),
    };
    let (row, held) = drift_item(&s.drift.drift, project.as_str(), panes_idle, unknown);
    push_row(&mut rows, row);
    assert(needs::views(rows@) == raised(s0, lines@, repos@, branch@, now, cap as nat));
    let needs_me = needs_me(
        rows,
        &s.owners,
        now,
        needs::ESCALATE_AFTER_SECS,
        scope,
        members.as_ref(),
    );
    let drift = DriftPart {
        project: s.drift.project,
        repo: s.drift.repo,
        drift: s.drift.drift,
        held,
    };
    let o = Overview { needs_me, drift, projects, main_ci: part.main_ci, degraded: notes };
    assert(shows(o, s0, *opts, lines@, repos@, branch@, now, cap as nat));
    Ok(o)
}

proof fn names_empty(v: Seq<Seq<char>>)
    ensures
        text::name_set(v).len() == 0 <==> v.len() == 0,
{
    text::name_set_members(v);
    if v.len() > 0 {
        assert(v.contains(v[0]));
        assert(text::name_set(v).contains(v[0]));
    } else {
        assert(v =~= Seq::empty());
    }
}

} // verus!
