//! The parts of the screen beside its rows, as the board reads them.
use crate::json;
use crate::json::{array_of, object_of, put_member, show_opt, Json, JsonView, Member, MemberView};
use crate::overview::deploy;
use crate::overview::deploy::{Commit, Drift, DriftPart, DriftView};
use crate::overview::github;
use crate::overview::github::{GhState, MainCiView, ShaCi, ShaCiView};
use crate::overview::screen::{CiEntry, CiEntryView, CiView};
use crate::overview::show;
use crate::overview::show::{show, show_number, show_opt_number, show_whole};
use crate::overview::{Note, NoteView};
use crate::text;
use vstd::prelude::*;

verus! {

/// A count, or null.
pub open spec fn opt_whole(n: Option<nat>) -> JsonView {
    match n {
        Some(n) => show::whole(n),
        None => JsonView::Null,
    }
}

fn show_opt_whole(n: Option<u64>) -> (r: Json)
    ensures
        r@ == opt_whole(
            match n {
                Some(n) => Some(n as nat),
                None => None,
            },
        ),
{
    match n {
        Some(n) => show_whole(n),
        None => Json::Null,
    }
}

// ---------- notes ----------

pub open spec fn note(n: NoteView) -> JsonView {
    JsonView::Obj(
        seq![
            show::entry("detail"@, JsonView::Str(n.detail)),
            show::entry("source"@, JsonView::Str(n.source)),
            show::entry("subject"@, JsonView::Str(n.subject)),
        ],
    )
}

/// A note on a source that answered late or not at all.
pub fn note_json(n: &Note) -> (r: Json)
    ensures
        r@ == note(n@),
{
    let mut m: Vec<Member> = Vec::new();
    assert(json::members(m@) =~= seq![]);
    put_member(&mut m, "detail", show(&n.detail));
    put_member(&mut m, "source", show(&n.source));
    put_member(&mut m, "subject", show(&n.subject));
    let r = object_of(m);
    assert(r@->Obj_0 =~= note(n@)->Obj_0);
    r
}

// ---------- GitHub ----------

/// What is said of GitHub: its state; the time of the rows where there are
/// any; and, where a fetch was called for, the time and the error whether
/// there is one or not.
pub open spec fn gh_state(s: GhState) -> JsonView {
    let as_of = if s.tried || s.as_of is Some {
        seq![show::entry("as_of"@, show::opt_number(s.as_of))]
    } else {
        seq![]
    };
    let at = if s.state@ == "cached"@ {
        seq![show::entry("at"@, show::opt_number(s.as_of))]
    } else {
        seq![]
    };
    let error = if s.tried {
        seq![show::entry("error"@, json::opt_string(s.error.deep_view()))]
    } else {
        seq![]
    };
    JsonView::Obj(as_of + at + error + seq![show::entry("state"@, JsonView::Str(s.state@))])
}

/// What the screen says of GitHub.
pub fn gh_state_json(s: &GhState) -> (r: Json)
    ensures
        r@ == gh_state(*s),
{
    let mut m: Vec<Member> = Vec::new();
    assert(json::members(m@) =~= seq![]);
    if s.tried || s.as_of.is_some() {
        put_member(&mut m, "as_of", show_opt_number(s.as_of));
    }
    if text::eq(s.state, "cached") {
        put_member(&mut m, "at", show_opt_number(s.as_of));
    }
    if s.tried {
        put_member(&mut m, "error", show_opt(&s.error));
    }
    put_member(&mut m, "state", Json::Str(s.state.to_owned()));
    let r = object_of(m);
    assert(r@->Obj_0 =~= gh_state(*s)->Obj_0);
    r
}

// ---------- default-branch CI ----------

/// One commit of the branch and what CI says of it.
pub open spec fn sha(s: ShaCiView) -> JsonView {
    JsonView::Obj(
        seq![
            show::entry("conclusion"@, json::opt_string(s.conclusion)),
            show::entry("covered_by"@, json::opt_string(s.covered_by)),
            show::entry("created_at"@, json::opt_string(s.created_at)),
            show::entry("run_id"@, opt_whole(s.run_id)),
            show::entry("run_url"@, json::opt_string(s.run_url)),
            show::entry("sha"@, JsonView::Str(s.sha)),
            show::entry("state"@, JsonView::Str(s.state.name())),
        ],
    )
}

fn show_sha(s: &ShaCi) -> (r: Json)
    ensures
        r@ == sha(s@),
{
    let mut m: Vec<Member> = Vec::new();
    assert(json::members(m@) =~= seq![]);
    put_member(&mut m, "conclusion", show_opt(&s.conclusion));
    put_member(&mut m, "covered_by", show_opt(&s.covered_by));
    put_member(&mut m, "created_at", show_opt(&s.created_at));
    put_member(&mut m, "run_id", show_opt_whole(s.run_id));
    put_member(&mut m, "run_url", show_opt(&s.run_url));
    put_member(&mut m, "sha", show(&s.sha));
    put_member(&mut m, "state", Json::Str(s.state.as_str().to_owned()));
    let r = object_of(m);
    assert(r@->Obj_0 =~= sha(s@)->Obj_0);
    r
}

pub open spec fn shas(v: Seq<ShaCiView>) -> Seq<JsonView> {
    v.map_values(|s: ShaCiView| sha(s))
}

fn show_shas(v: &Vec<ShaCi>) -> (r: Json)
    ensures
        r@ == JsonView::Arr(shas(github::sha_views(v@))),
{
    let ghost d = github::sha_views(v@);
    let mut out: Vec<Json> = Vec::new();
    let mut i: usize = 0;
    while i < v.len()
        invariant
            d == github::sha_views(v@),
            i <= v@.len(),
            out@.len() == i,
            forall|j: int| 0 <= j < i ==> #[trigger] out@[j]@ == sha(d[j]),
        decreases v.len() - i,
    {
        let x = show_sha(&v[i]);
        out.push(x);
        i = i + 1;
    }
    assert(out@.map_values(|x: Json| x@) =~= shas(d));
    array_of(out)
}

/// A repo's default branch: its commits newest first, or why they could
/// not be read. A repo without CI shows nothing.
pub open spec fn ci(e: CiEntryView) -> JsonView {
    match e.ci {
        CiView::Nothing => JsonView::Null,
        CiView::Fault { branch, error } => JsonView::Obj(
            (match branch {
                Some(b) => seq![show::entry("branch"@, JsonView::Str(b))],
                None => seq![],
            }) + seq![
                show::entry("error"@, error),
                show::entry("project"@, JsonView::Str(e.project)),
                show::entry("slug"@, JsonView::Str(e.slug)),
            ],
        ),
        CiView::Shas { branch, by_log, log_error, shas: all } => JsonView::Obj(
            seq![
                show::entry("branch"@, JsonView::Str(branch)),
                show::entry("log_error"@, json::opt_string(log_error)),
                show::entry(
                    "order"@,
                    JsonView::Str(
                        if by_log {
                            "first_parent"@
                        } else {
                            "runs"@
                        },
                    ),
                ),
                show::entry("project"@, JsonView::Str(e.project)),
                show::entry("shas"@, JsonView::Arr(shas(all))),
                show::entry("slug"@, JsonView::Str(e.slug)),
                show::entry("workflow"@, JsonView::Str(github::CI_WORKFLOW@)),
            ],
        ),
    }
}

/// A repo's default branch.
pub fn ci_json(e: &CiEntry) -> (r: Json)
    ensures
        r@ == ci(e@),
{
    let mut m: Vec<Member> = Vec::new();
    assert(json::members(m@) =~= seq![]);
    match &e.ci {
        MainCiView::Nothing => {
            return Json::Null;
        },
        MainCiView::Fault { branch, error } => {
            if let Some(b) = branch {
                put_member(&mut m, "branch", show(b));
            }
            put_member(&mut m, "error", json::copy(error));
            put_member(&mut m, "project", show(&e.project));
            put_member(&mut m, "slug", show(&e.slug));
        },
        MainCiView::Shas { branch, by_log, log_error, shas } => {
            let order = if *by_log {
                "first_parent"
            } else {
                "runs"
            };
            put_member(&mut m, "branch", show(branch));
            put_member(&mut m, "log_error", show_opt(log_error));
            put_member(&mut m, "order", Json::Str(order.to_owned()));
            put_member(&mut m, "project", show(&e.project));
            put_member(&mut m, "shas", show_shas(shas));
            put_member(&mut m, "slug", show(&e.slug));
            put_member(&mut m, "workflow", Json::Str(github::CI_WORKFLOW.to_owned()));
        },
    }
    let r = object_of(m);
    assert(r@->Obj_0 =~= ci(e@)->Obj_0);
    r
}

// ---------- drift ----------

pub open spec fn commit(c: (Seq<char>, Option<nat>)) -> JsonView {
    JsonView::Obj(
        seq![show::entry("pr"@, opt_whole(c.1)), show::entry("subject"@, JsonView::Str(c.0))],
    )
}

pub open spec fn commits(v: Seq<(Seq<char>, Option<nat>)>) -> Seq<JsonView> {
    v.map_values(|c: (Seq<char>, Option<nat>)| commit(c))
}

fn show_commits(v: &Vec<Commit>) -> (r: Json)
    ensures
        r@ == JsonView::Arr(commits(deploy::commit_views(v@))),
{
    let ghost d = deploy::commit_views(v@);
    let mut out: Vec<Json> = Vec::new();
    let mut i: usize = 0;
    while i < v.len()
        invariant
            d == deploy::commit_views(v@),
            i <= v@.len(),
            out@.len() == i,
            forall|j: int| 0 <= j < i ==> #[trigger] out@[j]@ == commit(d[j]),
        decreases v.len() - i,
    {
        let mut m: Vec<Member> = Vec::new();
        assert(json::members(m@) =~= seq![]);
        put_member(&mut m, "pr", show_opt_whole(v[i].pr));
        put_member(&mut m, "subject", show(&v[i].subject));
        let x = object_of(m);
        assert(d[i as int] == deploy::commit_view(v@[i as int]));
        assert(x@->Obj_0 =~= commit(d[i as int])->Obj_0);
        out.push(x);
        i = i + 1;
    }
    assert(out@.map_values(|x: Json| x@) =~= commits(d));
    array_of(out)
}

/// Whether what was merged is running. A build that belongs to no project
/// says only why nothing can be told, and the commit where one is known.
pub open spec fn drift(p: DriftPart, build: Option<Seq<char>>) -> JsonView {
    let known_build = match build {
        Some(b) => seq![show::entry("build_commit"@, JsonView::Str(b))],
        None => seq![],
    };
    let held = match p.held {
        Some(why) => seq![show::entry("held"@, JsonView::Str(why@))],
        None => seq![],
    };
    let matched = show::entry("matched"@, JsonView::Bool(p.project is Some));
    match (p.project, p.drift@) {
        (None, DriftView::Unknown(why)) => JsonView::Obj(
            known_build + seq![matched, show::entry("reason"@, JsonView::Str(why))],
        ),
        (_, DriftView::Unknown(why)) => JsonView::Obj(
            seq![
                show::entry("known"@, JsonView::Bool(false)),
                matched,
                show::entry("project"@, json::opt_string(p.project.deep_view())),
                show::entry("reason"@, JsonView::Str(why)),
                show::entry("repo"@, json::opt_string(p.repo.deep_view())),
            ],
        ),
        (_, DriftView::Known { base, count, commits: all }) => JsonView::Obj(
            known_build + seq![
                show::entry("commits"@, JsonView::Arr(commits(all))),
                show::entry("count"@, JsonView::Num(text::dec_int(count as int))),
            ] + held + seq![
                show::entry("known"@, JsonView::Bool(true)),
                matched,
                show::entry("project"@, json::opt_string(p.project.deep_view())),
                show::entry("ref"@, JsonView::Str(base)),
                show::entry("repo"@, json::opt_string(p.repo.deep_view())),
            ],
        ),
    }
}

/// Whether what was merged is running. `build` is the commit that the
/// daemon was built from, where it said one.
pub fn drift_json(p: &DriftPart, build: Option<&str>) -> (r: Json)
    ensures
        r@ == drift(*p, build.deep_view()),
{
    let ghost want = drift(*p, build.deep_view());
    let mut m: Vec<Member> = Vec::new();
    assert(json::members(m@) =~= seq![]);
    match &p.drift {
        Drift::Unknown(why) => {
            if p.project.is_none() {
                if let Some(b) = build {
                    put_member(&mut m, "build_commit", Json::Str(b.to_owned()));
                }
                put_member(&mut m, "matched", Json::Bool(false));
                put_member(&mut m, "reason", show(why));
            } else {
                put_member(&mut m, "known", Json::Bool(false));
                put_member(&mut m, "matched", Json::Bool(true));
                put_member(&mut m, "project", show_opt(&p.project));
                put_member(&mut m, "reason", show(why));
                put_member(&mut m, "repo", show_opt(&p.repo));
            }
        },
        Drift::Known { base, count, commits } => {
            if let Some(b) = build {
                put_member(&mut m, "build_commit", Json::Str(b.to_owned()));
            }
            put_member(&mut m, "commits", show_commits(commits));
            put_member(&mut m, "count", show_number(*count));
            if let Some(why) = p.held {
                put_member(&mut m, "held", Json::Str(why.to_owned()));
            }
            put_member(&mut m, "known", Json::Bool(true));
            put_member(&mut m, "matched", Json::Bool(p.project.is_some()));
            put_member(&mut m, "project", show_opt(&p.project));
            put_member(&mut m, "ref", show(base));
            put_member(&mut m, "repo", show_opt(&p.repo));
        },
    }
    let r = object_of(m);
    assert(r@->Obj_0 =~= want->Obj_0);
    r
}

} // verus!
