//! Deploy drift: which commits are merged and not running. And the
//! repositories of the projects, by which rows find their project.
use crate::overview;
use crate::overview::agents;
use crate::overview::needs;
use crate::overview::needs::{item, Item, ItemView};
use crate::overview::{pr_number, CMD_UPGRADE_LATEST_MAIN};
use crate::text;
use crate::time;
use vstd::prelude::*;

verus! {

/// Commit subjects listed on drift at most.
pub const DRIFT_SUBJECTS: usize = 20;

/// A repository of a project: its remote in normal form, its declared
/// path with the home directory written out, and that path resolved.
#[derive(Debug)]
pub struct Repo {
    pub remote: Option<String>,
    pub declared: Option<String>,
    pub path: Option<String>,
}

#[derive(Debug)]
pub struct Project {
    pub key: String,
    pub repos: Vec<Repo>,
}

// ---------- scope ----------

pub open spec fn keys(projects: Seq<Project>) -> Seq<Seq<char>> {
    projects.map_values(|p: Project| p.key@)
}

/// Why a key names no project of the tracker.
pub open spec fn unknown_project(key: Seq<char>, projects: Seq<Project>, pm_dir: Seq<char>) -> Seq<
    char,
> {
    if projects.len() == 0 {
        "unknown project '"@ + key + "' — no tracker projects under "@ + pm_dir
    } else {
        "unknown project '"@ + key + "' — known: "@ + text::join(keys(projects), ", "@)
    }
}

/// A scope must name a project of the tracker.
pub fn check_scope(key: &str, projects: &Vec<Project>, pm_dir: &str) -> (r: Result<(), String>)
    ensures
        match r {
            Ok(_) => keys(projects@).contains(key@),
            Err(e) => !keys(projects@).contains(key@) && e@ == unknown_project(
                key@,
                projects@,
                pm_dir@,
            ),
        },
{
    let ghost ks = keys(projects@);
    let mut known: Vec<String> = Vec::new();
    let mut i: usize = 0;
    assert(known.deep_view() =~= ks.take(0));
    while i < projects.len()
        invariant
            ks == keys(projects@),
            i <= projects@.len(),
            known.deep_view() == ks.take(i as int),
            forall|j: int| 0 <= j < i ==> ks[j] != key@,
        decreases projects.len() - i,
    {
        assert(ks[i as int] == projects@[i as int].key@);
        if text::eq(projects[i].key.as_str(), key) {
            assert(ks.contains(key@));
            return Ok(());
        }
        let ghost before = known.deep_view();
        known.push(projects[i].key.clone());
        assert(known.deep_view() =~= before.push(ks[i as int]));
        assert(ks.take(i + 1) =~= before.push(ks[i as int]));
        i = i + 1;
    }
    assert(ks.take(i as int) =~= ks);
    let head = "unknown project '".to_owned().concat(key);
    if known.len() == 0 {
        Err(head.concat("' — no tracker projects under ").concat(pm_dir))
    } else {
        let list = text::join_of(&known, ", ");
        Err(head.concat("' — known: ").concat(list.as_str()))
    }
}

// ---------- repositories ----------

/// One repository, with its project.
#[derive(Debug)]
pub struct RepoLine {
    pub key: String,
    /// `owner/name`, of a repository on GitHub.
    pub slug: Option<String>,
    pub path: Option<String>,
}

pub struct LineView {
    pub key: Seq<char>,
    pub slug: Option<Seq<char>>,
    pub path: Option<Seq<char>>,
}

impl View for RepoLine {
    type V = LineView;

    open spec fn view(&self) -> LineView {
        LineView { key: self.key@, slug: self.slug.deep_view(), path: self.path.deep_view() }
    }
}

pub open spec fn line_views(v: Seq<RepoLine>) -> Seq<LineView> {
    v.map_values(|l: RepoLine| l@)
}

pub open spec fn slug_of(remote: Option<Seq<char>>) -> Option<Seq<char>> {
    match remote {
        Some(r) => if text::begins(r, "github.com/"@) {
            Some(r.skip("github.com/"@.len() as int))
        } else {
            None
        },
        None => None,
    }
}

pub open spec fn line_of(key: Seq<char>, r: Repo) -> LineView {
    LineView { key, slug: slug_of(r.remote.deep_view()), path: r.path.deep_view() }
}

/// The repositories of all projects, in the order of declaration.
pub open spec fn lines_upto(projects: Seq<Project>, n: int) -> Seq<LineView>
    decreases n,
{
    if n <= 0 {
        seq![]
    } else {
        let p = projects[n - 1];
        lines_upto(projects, n - 1) + p.repos@.map_values(|r: Repo| line_of(p.key@, r))
    }
}

fn slug_in(remote: &Option<String>) -> (r: Option<String>)
    ensures
        r.deep_view() == slug_of(remote.deep_view()),
{
    match remote {
        Some(m) => text::strip_prefix(m.as_str(), "github.com/"),
        None => None,
    }
}

pub fn repo_lines(projects: &Vec<Project>) -> (r: Vec<RepoLine>)
    ensures
        line_views(r@) == lines_upto(projects@, projects@.len() as int),
{
    let mut out: Vec<RepoLine> = Vec::new();
    let mut i: usize = 0;
    assert(line_views(out@) =~= lines_upto(projects@, 0));
    while i < projects.len()
        invariant
            i <= projects@.len(),
            line_views(out@) == lines_upto(projects@, i as int),
        decreases projects.len() - i,
    {
        let p = &projects[i];
        let ghost before = line_views(out@);
        let ghost own = p.repos@.map_values(|r: Repo| line_of(p.key@, r));
        let mut k: usize = 0;
        assert(before + own.take(0) =~= before);
        while k < p.repos.len()
            invariant
                own == p.repos@.map_values(|r: Repo| line_of(p.key@, r)),
                k <= p.repos@.len(),
                line_views(out@) == before + own.take(k as int),
            decreases p.repos.len() - k,
        {
            let ghost o = out@;
            let line = RepoLine {
                key: p.key.clone(),
                slug: slug_in(&p.repos[k].remote),
                path: text::opt_copy(&p.repos[k].path),
            };
            assert(line@ == own[k as int]);
            out.push(line);
            assert(line_views(out@) =~= line_views(o).push(line@));
            assert(before + own.take(k + 1) =~= line_views(o).push(line@));
            k = k + 1;
        }
        assert(own.take(k as int) =~= own);
        i = i + 1;
    }
    out
}

pub open spec fn slugs(lines: Seq<LineView>) -> Seq<Seq<char>>
    decreases lines.len(),
{
    if lines.len() == 0 {
        seq![]
    } else {
        match lines.last().slug {
            Some(s) => slugs(lines.drop_last()).push(s),
            None => slugs(lines.drop_last()),
        }
    }
}

/// The repositories on GitHub, each once, in order.
pub fn repo_slugs(lines: &Vec<RepoLine>) -> (r: Vec<String>)
    ensures
        r.deep_view() == text::name_set(slugs(line_views(lines@))),
        text::increasing(r.deep_view()),
{
    let ghost d = line_views(lines@);
    let mut out: Vec<String> = Vec::new();
    let mut i: usize = 0;
    assert(d.take(0) =~= Seq::empty());
    assert(out.deep_view() =~= text::name_set(slugs(d.take(0))));
    while i < lines.len()
        invariant
            d == line_views(lines@),
            i <= lines@.len(),
            out.deep_view() == text::name_set(slugs(d.take(i as int))),
            text::increasing(out.deep_view()),
        decreases lines.len() - i,
    {
        assert(d.take(i + 1).drop_last() =~= d.take(i as int));
        assert(d[i as int] == lines@[i as int]@);
        if let Some(s) = &lines[i].slug {
            let ghost before = slugs(d.take(i as int));
            assert(before.push(s@).drop_last() =~= before);
            text::insert_name(&mut out, s.as_str());
        }
        i = i + 1;
    }
    assert(d.take(i as int) =~= d);
    out
}

/// The project of a repository: the last that declares it, or none.
pub open spec fn project_of_slug(lines: Seq<LineView>, slug: Seq<char>) -> Seq<char>
    decreases lines.len(),
{
    if lines.len() == 0 {
        seq![]
    } else if lines.last().slug == Some(slug) {
        lines.last().key
    } else {
        project_of_slug(lines.drop_last(), slug)
    }
}

fn has_slug(l: &RepoLine, slug: &str) -> (r: bool)
    ensures
        r == (l@.slug == Some(slug@)),
{
    match &l.slug {
        Some(s) => text::eq(s.as_str(), slug),
        None => false,
    }
}

pub fn slug_project(lines: &Vec<RepoLine>, slug: &str) -> (r: String)
    ensures
        r@ == project_of_slug(line_views(lines@), slug@),
{
    let ghost d = line_views(lines@);
    let mut k: usize = lines.len();
    assert(d.take(k as int) =~= d);
    while k > 0
        invariant
            d == line_views(lines@),
            k <= lines@.len(),
            project_of_slug(d, slug@) == project_of_slug(d.take(k as int), slug@),
        decreases k,
    {
        assert(d.take(k as int).drop_last() =~= d.take(k - 1));
        k = k - 1;
        assert(d[k as int] == lines@[k as int]@);
        if has_slug(&lines[k], slug) {
            return lines[k].key.clone();
        }
    }
    let r = String::new();
    assert(r@ =~= seq![]);
    r
}

/// The clone of a repository: the first that is declared with a path.
pub open spec fn clone_of_slug(lines: Seq<LineView>, slug: Seq<char>) -> Option<Seq<char>>
    decreases lines.len(),
{
    if lines.len() == 0 {
        None
    } else if lines[0].slug == Some(slug) && lines[0].path is Some {
        lines[0].path
    } else {
        clone_of_slug(lines.drop_first(), slug)
    }
}

pub fn slug_clone(lines: &Vec<RepoLine>, slug: &str) -> (r: Option<String>)
    ensures
        r.deep_view() == clone_of_slug(line_views(lines@), slug@),
{
    let ghost d = line_views(lines@);
    let mut k: usize = 0;
    assert(d.skip(0) =~= d);
    while k < lines.len()
        invariant
            d == line_views(lines@),
            k <= lines@.len(),
            clone_of_slug(d, slug@) == clone_of_slug(d.skip(k as int), slug@),
        decreases lines.len() - k,
    {
        assert(d.skip(k as int).drop_first() =~= d.skip(k + 1));
        assert(d.skip(k as int)[0] == lines@[k as int]@);
        if has_slug(&lines[k], slug) {
            if let Some(p) = &lines[k].path {
                return Some(p.clone());
            }
        }
        k = k + 1;
    }
    None
}

pub open spec fn with_path() -> spec_fn(LineView) -> bool {
    |l: LineView| l.path is Some
}

pub open spec fn path_pair(l: LineView) -> (Seq<char>, Seq<char>) {
    (l.path->0, l.key)
}

pub open spec fn pairs(v: Seq<(String, String)>) -> Seq<(Seq<char>, Seq<char>)> {
    v.map_values(|p: (String, String)| (p.0@, p.1@))
}

/// The declared paths, each with its project.
pub fn repo_paths(lines: &Vec<RepoLine>) -> (r: Vec<(String, String)>)
    ensures
        pairs(r@) == line_views(lines@).filter(with_path()).map_values(
            |l: LineView| path_pair(l),
        ),
{
    let ghost d = line_views(lines@);
    let mut out: Vec<(String, String)> = Vec::new();
    let mut i: usize = 0;
    proof {
        reveal(Seq::filter);
        assert(d.take(0) =~= Seq::empty());
        assert(pairs(out@) =~= d.take(0).filter(with_path()).map_values(
            |l: LineView| path_pair(l),
        ));
    }
    while i < lines.len()
        invariant
            d == line_views(lines@),
            i <= lines@.len(),
            pairs(out@) == d.take(i as int).filter(with_path()).map_values(
                |l: LineView| path_pair(l),
            ),
        decreases lines.len() - i,
    {
        proof {
            reveal(Seq::filter);
            assert(d.take(i + 1).drop_last() =~= d.take(i as int));
            assert(d[i as int] == lines@[i as int]@);
        }
        if let Some(p) = &lines[i].path {
            let ghost o = pairs(out@);
            let ghost kept = d.take(i as int).filter(with_path());
            out.push((p.clone(), lines[i].key.clone()));
            assert(pairs(out@) =~= o.push((p@, lines@[i as int].key@)));
            assert(kept.push(d[i as int]).map_values(|l: LineView| path_pair(l)) =~= o.push(
                (p@, lines@[i as int].key@),
            ));
        }
        i = i + 1;
    }
    assert(d.take(i as int) =~= d);
    out
}

// ---------- the repository of the build ----------

/// A repository is the build's by its remote or by its path.
pub open spec fn is_build(r: Repo, remote: Option<Seq<char>>, root: Option<Seq<char>>) -> bool {
    (remote is Some && r.remote.deep_view() == remote) || (root is Some && r.path.deep_view()
        == root)
}

/// The clone to walk: the declared path, else the build's own root.
pub open spec fn build_clone(r: Repo, root: Option<Seq<char>>) -> Seq<char> {
    match (r.declared, root) {
        (Some(d), _) => d@,
        (None, Some(b)) => b,
        (None, None) => "."@,
    }
}

/// The position of the build's repository: the project and the repository.
pub open spec fn build_at(
    projects: Seq<Project>,
    remote: Option<Seq<char>>,
    root: Option<Seq<char>>,
    i: int,
    k: int,
) -> bool {
    &&& 0 <= i < projects.len()
    &&& 0 <= k < projects[i].repos@.len()
    &&& is_build(projects[i].repos@[k], remote, root)
    &&& forall|a: int, b: int|
        0 <= a <= i && 0 <= b < projects[a].repos@.len() && (a < i || b < k) ==> !is_build(
            #[trigger] projects[a].repos@[b],
            remote,
            root,
        )
}

fn same_opt(a: &Option<String>, b: &Option<String>) -> (r: bool)
    ensures
        r == (b is Some && a.deep_view() == b.deep_view()),
{
    match (a, b) {
        (Some(x), Some(y)) => text::eq(x.as_str(), y.as_str()),
        _ => false,
    }
}

/// The project of the repository that the program was built from, and the
/// clone to walk: the first repository whose remote or path is the
/// build's. A build that knows neither matches nothing.
pub fn build_repo_match(
    projects: &Vec<Project>,
    remote: &Option<String>,
    root: &Option<String>,
) -> (r: Option<(String, String)>)
    ensures
        match r {
            Some(m) => exists|i: int, k: int|
                #![trigger projects@[i].repos@[k]]
                build_at(projects@, remote.deep_view(), root.deep_view(), i, k) && m.0@
                    == projects@[i].key@ && m.1@ == build_clone(
                    projects@[i].repos@[k],
                    root.deep_view(),
                ),
            None => forall|i: int, k: int|
                0 <= i < projects@.len() && 0 <= k < projects@[i].repos@.len() ==> !is_build(
                    #[trigger] projects@[i].repos@[k],
                    remote.deep_view(),
                    root.deep_view(),
                ),
        },
{
    let mut i: usize = 0;
    while i < projects.len()
        invariant
            i <= projects@.len(),
            forall|a: int, b: int|
                0 <= a < i && 0 <= b < projects@[a].repos@.len() ==> !is_build(
                    #[trigger] projects@[a].repos@[b],
                    remote.deep_view(),
                    root.deep_view(),
                ),
        decreases projects.len() - i,
    {
        let p = &projects[i];
        let mut k: usize = 0;
        while k < p.repos.len()
            invariant
                i < projects@.len(),
                *p == projects@[i as int],
                k <= p.repos@.len(),
                forall|a: int, b: int|
                    0 <= a <= i && 0 <= b < projects@[a].repos@.len() && (a < i || b < k)
                        ==> !is_build(
                        #[trigger] projects@[a].repos@[b],
                        remote.deep_view(),
                        root.deep_view(),
                    ),
            decreases p.repos.len() - k,
        {
            let x = &p.repos[k];
            if same_opt(&x.remote, remote) || same_opt(&x.path, root) {
                let clone = match (&x.declared, root) {
                    (Some(d), _) => d.clone(),
                    (None, Some(b)) => b.clone(),
                    (None, None) => ".".to_owned(),
                };
                assert(is_build(
                    projects@[i as int].repos@[k as int],
                    remote.deep_view(),
                    root.deep_view(),
                ));
                return Some((p.key.clone(), clone));
            }
            k = k + 1;
        }
        i = i + 1;
    }
    None
}

// ---------- drift ----------

/// The names of a default branch, in the order in which they are tried.
pub open spec fn candidates() -> Seq<Seq<char>> {
    seq!["origin/main"@, "origin/master"@, "main"@, "master"@]
}

/// What drift is counted against: the target of `origin/HEAD`, else the
/// first of the usual names that `git` knows.
pub fn default_ref(symref: Option<&str>, known: [bool; 4]) -> (r: Result<String, String>)
    ensures
        match r {
            Ok(b) => match symref {
                Some(s) if text::begins(text::trim(s@), "origin/"@) => b@ == text::trim(s@),
                _ => exists|k: int|
                    0 <= k < 4 && known@[k] && b@ == #[trigger] candidates()[k] && forall|j: int|
                        0 <= j < k ==> !#[trigger] known@[j],
            },
            Err(e) => e@ == "no default branch ref"@ && (symref is Some ==> !text::begins(
                text::trim(symref->0@),
                "origin/"@,
            )) && forall|k: int| 0 <= k < 4 ==> !#[trigger] known@[k],
        },
{
    if let Some(s) = symref {
        let t = text::trim_of(s);
        if text::starts_with(t.as_str(), "origin/") {
            return Ok(t);
        }
    }
    let ghost c = candidates();
    if known[0] {
        assert("origin/main"@ == c[0]);
        return Ok("origin/main".to_owned());
    }
    if known[1] {
        assert("origin/master"@ == c[1]);
        return Ok("origin/master".to_owned());
    }
    if known[2] {
        assert("main"@ == c[2]);
        return Ok("main".to_owned());
    }
    if known[3] {
        assert("master"@ == c[3]);
        return Ok("master".to_owned());
    }
    Err("no default branch ref".to_owned())
}

/// A commit that is merged and not running.
#[derive(Debug)]
pub struct Commit {
    pub subject: String,
    pub pr: Option<u64>,
}

#[derive(Debug)]
pub enum Drift {
    /// Nothing can be told, and why.
    Unknown(String),
    /// So many commits on `base` after the build.
    Known { base: String, count: i64, commits: Vec<Commit> },
}

pub enum DriftView {
    Unknown(Seq<char>),
    Known { base: Seq<char>, count: i64, commits: Seq<(Seq<char>, Option<nat>)> },
}

pub open spec fn commit_view(c: Commit) -> (Seq<char>, Option<nat>) {
    (
        c.subject@,
        match c.pr {
            Some(n) => Some(n as nat),
            None => None,
        },
    )
}

pub open spec fn commit_views(v: Seq<Commit>) -> Seq<(Seq<char>, Option<nat>)> {
    v.map_values(|c: Commit| commit_view(c))
}

impl View for Drift {
    type V = DriftView;

    open spec fn view(&self) -> DriftView {
        match self {
            Drift::Unknown(s) => DriftView::Unknown(s@),
            Drift::Known { base, count, commits } => DriftView::Known {
                base: base@,
                count: *count,
                commits: commit_views(commits@),
            },
        }
    }
}

/// The build commit is not known.
pub open spec fn no_commit(build: Seq<char>) -> bool {
    build == "unknown"@ || build.len() == 0
}

pub open spec fn subjects(log: Seq<char>) -> Seq<(Seq<char>, Option<nat>)> {
    text::lines(log).map_values(|l: Seq<char>| (l, overview::pr_in(l)))
}

/// What is known of the drift from the replies of `git`. A build commit
/// that is unknown, or that `git` cannot place, is "cannot tell", never
/// zero.
pub open spec fn drift(
    build: Seq<char>,
    base: Result<Seq<char>, Seq<char>>,
    count: Result<Seq<char>, Seq<char>>,
    log: Seq<char>,
) -> DriftView {
    if no_commit(build) {
        DriftView::Unknown("build commit unknown — cannot tell"@)
    } else {
        match base {
            Err(e) => DriftView::Unknown("cannot tell — "@ + e),
            Ok(b) => match count {
                Err(e) => DriftView::Unknown("cannot tell — "@ + e),
                Ok(c) => match time::integer(text::trim(c)) {
                    None => DriftView::Unknown("cannot tell — unreadable count"@),
                    Some(n) => DriftView::Known { base: b, count: n, commits: subjects(log) },
                },
            },
        }
    }
}

pub open spec fn reply(r: Result<String, String>) -> Result<Seq<char>, Seq<char>> {
    match r {
        Ok(s) => Ok(s@),
        Err(e) => Err(e@),
    }
}

/// The range of commits after the build.
pub fn drift_range(build: &str, base: &str) -> (r: String)
    ensures
        r@ == build@ + ".."@ + base@,
{
    build.to_owned().concat("..").concat(base)
}

fn commits_of(log: &str) -> (r: Vec<Commit>)
    ensures
        commit_views(r@) == subjects(log@),
{
    let lines = text::lines_of(log);
    let ghost all = subjects(log@);
    let mut out: Vec<Commit> = Vec::new();
    let mut i: usize = 0;
    assert(commit_views(out@) =~= all.take(0));
    while i < lines.len()
        invariant
            all == subjects(log@),
            lines.deep_view() == text::lines(log@),
            i <= lines@.len(),
            commit_views(out@) == all.take(i as int),
        decreases lines.len() - i,
    {
        let ghost o = out@;
        assert(lines.deep_view()[i as int] == lines@[i as int]@);
        let c = Commit { subject: lines[i].clone(), pr: pr_number(lines[i].as_str()) };
        assert(commit_view(c) == all[i as int]);
        out.push(c);
        assert(commit_views(out@) =~= commit_views(o).push(all[i as int]));
        assert(all.take(i + 1) =~= commit_views(o).push(all[i as int]));
        i = i + 1;
    }
    assert(all.take(i as int) =~= all);
    out
}

pub fn compute_drift(
    build: &str,
    base: Result<String, String>,
    count: Result<String, String>,
    log: &str,
) -> (r: Drift)
    ensures
        r@ == drift(build@, reply(base), reply(count), log@),
{
    proof {
        reveal_strlit("");
        assert(build@.len() == 0 ==> build@ =~= ""@);
    }
    if text::eq(build, "unknown") || text::eq(build, "") {
        return Drift::Unknown("build commit unknown — cannot tell".to_owned());
    }
    match base {
        Err(e) => Drift::Unknown("cannot tell — ".to_owned().concat(e.as_str())),
        Ok(b) => match count {
            Err(e) => Drift::Unknown("cannot tell — ".to_owned().concat(e.as_str())),
            Ok(c) => match time::parse_integer(text::trim_of(c.as_str()).as_str()) {
                None => Drift::Unknown("cannot tell — unreadable count".to_owned()),
                Some(n) => Drift::Known { base: b, count: n, commits: commits_of(log) },
            },
        },
    }
}

/// What the screen says of drift.
#[derive(Debug)]
pub struct DriftPart {
    /// The project whose repository the build is from.
    pub project: Option<String>,
    pub repo: Option<String>,
    pub drift: Drift,
    /// Why the row for it is held back.
    pub held: Option<&'static str>,
}

/// Why drift cannot be told before `git` is asked.
pub fn drift_unasked(reachable: bool, info: bool) -> (r: Option<String>)
    ensures
        r.deep_view() == if !reachable {
            Some("daemon unreachable — cannot tell"@)
        } else if !info {
            Some(
                "daemon build unknown (daemon predates daemon_info) — restart to enable drift"@,
            )
        } else {
            None
        },
{
    if !reachable {
        Some("daemon unreachable — cannot tell".to_owned())
    } else if !info {
        Some(
            "daemon build unknown (daemon predates daemon_info) — restart to enable drift".to_owned(),
        )
    } else {
        None
    }
}

pub open spec fn behind(d: DriftView) -> int {
    match d {
        DriftView::Known { count, .. } => count as int,
        DriftView::Unknown(_) => 0,
    }
}

pub open spec fn drift_row(d: DriftView, project: Seq<char>, panes_idle: bool) -> Option<ItemView> {
    if behind(d) > 0 && panes_idle {
        Some(
            needs::new_row(
                50,
                "drift"@,
                text::dec(behind(d) as nat) + " merged commit(s) not running — all panes idle"@,
                0,
                project,
                None,
                CMD_UPGRADE_LATEST_MAIN@,
            ).about("deploy"@, project),
        )
    } else {
        None
    }
}

/// Why the row is held back: a pane is busy, or none can be asked.
pub open spec fn held(d: DriftView, panes_idle: bool, probes_unknown: bool) -> Option<Seq<char>> {
    if behind(d) > 0 && !panes_idle {
        Some(
            if probes_unknown {
                "cannot tell whether panes are idle — daemon predates agent_probe"@
            } else {
                "a pane is busy — restart only when idle"@
            },
        )
    } else {
        None
    }
}

/// The row that offers the upgrade, or why there is none: it is offered
/// only where all panes are idle.
pub fn drift_item(drift: &Drift, project: &str, panes_idle: bool, probes_unknown: bool) -> (r: (
    Option<Item>,
    Option<&'static str>,
))
    ensures
        agents::item_opt(r.0) == drift_row(drift@, project@, panes_idle),
        r.1.deep_view() == held(drift@, panes_idle, probes_unknown),
{
    let n: i64 = match drift {
        Drift::Known { count, .. } => *count,
        Drift::Unknown(_) => 0,
    };
    if n <= 0 {
        return (None, None);
    }
    if panes_idle {
        let title = text::dec_of(n as u64).concat(
            " merged commit(s) not running — all panes idle",
        );
        (
            Some(
                item(50, "drift", title.as_str(), 0, project, None, CMD_UPGRADE_LATEST_MAIN).about(
                    "deploy",
                    project,
                ),
            ),
            None,
        )
    } else if probes_unknown {
        (None, Some("cannot tell whether panes are idle — daemon predates agent_probe"))
    } else {
        (None, Some("a pane is busy — restart only when idle"))
    }
}

// ---------- laws ----------

/// Drift that cannot be told raises no row and no reason for holding one.
pub proof fn unknown_is_never_zero_nor_a_row(
    why: Seq<char>,
    project: Seq<char>,
    panes_idle: bool,
    probes_unknown: bool,
)
    ensures
        drift_row(DriftView::Unknown(why), project, panes_idle) is None,
        held(DriftView::Unknown(why), panes_idle, probes_unknown) is None,
{
}

/// A build commit that is not known is never counted as up to date.
pub proof fn an_unknown_build_is_not_up_to_date(
    build: Seq<char>,
    base: Result<Seq<char>, Seq<char>>,
    count: Result<Seq<char>, Seq<char>>,
    log: Seq<char>,
)
    requires
        no_commit(build),
    ensures
        drift(build, base, count, log) is Unknown,
{
}

/// Where commits are merged and not running, the screen either offers the
/// upgrade or says why it does not, never both.
pub proof fn drift_is_offered_or_held(
    d: DriftView,
    project: Seq<char>,
    panes_idle: bool,
    probes_unknown: bool,
)
    requires
        behind(d) > 0,
    ensures
        drift_row(d, project, panes_idle) is Some <==> held(d, panes_idle, probes_unknown) is None,
{
}

} // verus!
