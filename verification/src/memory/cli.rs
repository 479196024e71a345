//! `cadence memory`: reads go to the tracker, and every write that carries
//! authority is a request to the daemon, which derives the identity of its
//! caller itself.
use crate::error::Error;
use crate::json;
use crate::json::{object_of, put_member, show_opt, show_strings, Json, JsonView, Member, MemberView};
use crate::memory::body;
use crate::memory::matching;
use crate::memory::matching::{matches_ctx, CtxView, MatchCtx};
use crate::memory::store::Stale;
use crate::memory::{Memory, MemoryView, Scope, ScopeView};
use crate::text;
use vstd::prelude::*;

verus! {

/// What `cadence memory` is asked to do.
#[derive(Debug)]
pub enum MemoryAction {
    Propose {
        project: String,
        kind: String,
        scope: Scope,
        source: Option<String>,
        confidence: Option<String>,
        /// A file to read the content from.
        from: Option<String>,
        text: Option<String>,
        id: Option<String>,
    },
    Accept { slug: String, project: Option<String>, text: Option<String> },
    Reject { slug: String, project: Option<String> },
    Review {
        slug: String,
        project: Option<String>,
        operation: String,
        verdict: String,
        evidence: String,
        digest: String,
    },
    Supersede { old_slug: String, new_slug: String, project: Option<String> },
    Verify { slug: String, project: Option<String> },
    Ls {
        project: Option<String>,
        status: Option<String>,
        kind: Option<String>,
        component: Option<String>,
        path: Option<String>,
        stale: bool,
        days: u64,
        json: bool,
    },
    Show { slug: String, project: Option<String>, json: bool },
    Match {
        issue: Option<String>,
        project: Option<String>,
        provider: Option<String>,
        component: Vec<String>,
        path: Vec<String>,
        tag: Vec<String>,
        json: bool,
    },
    Lint { project: Option<String> },
}

// ---------- requests to the daemon ----------

/// A request: its method and its parameters.
#[derive(Debug)]
pub struct Rpc {
    pub method: &'static str,
    pub params: Json,
}

pub open spec fn entry(k: Seq<char>, v: JsonView) -> MemberView {
    MemberView { key: k, value: v }
}

pub open spec fn axis_view(k: Seq<char>, v: Seq<Seq<char>>) -> Seq<MemberView> {
    if v.len() == 0 {
        seq![]
    } else {
        seq![entry(k, json::strings(v))]
    }
}

/// The axes of a scope, without those that are empty.
pub open spec fn scope_view(s: ScopeView) -> JsonView {
    JsonView::Obj(
        axis_view("components"@, s.components) + axis_view("paths"@, s.paths) + axis_view(
            "providers"@,
            s.providers,
        ) + axis_view("tags"@, s.tags) + (if s.project {
            seq![entry("project"@, JsonView::Bool(true))]
        } else {
            seq![]
        }),
    )
}

/// The request of an action: `content` is what the file held that a
/// proposal names, and `digest` that of the memory at hand. An action that
/// only reads makes none.
pub open spec fn request(
    a: MemoryAction,
    content: Option<Seq<char>>,
    digest: Seq<char>,
) -> Option<(Seq<char>, Seq<MemberView>)> {
    match a {
        MemoryAction::Propose { project, kind, scope, source, confidence, from, text, id } => Some(
            (
                "memory_propose"@,
                seq![
                    entry("project"@, JsonView::Str(project@)),
                    entry("kind"@, JsonView::Str(kind@)),
                    entry("scope"@, scope_view(scope@)),
                    entry("source"@, json::opt_string(source.deep_view())),
                    entry("confidence"@, json::opt_string(confidence.deep_view())),
                    entry("from"@, json::opt_string(content)),
                    entry("text"@, json::opt_string(text.deep_view())),
                    entry("id"@, json::opt_string(id.deep_view())),
                ],
            ),
        ),
        MemoryAction::Accept { slug, project, text } => Some(
            (
                "memory_finalize"@,
                seq![
                    entry("project"@, json::opt_string(project.deep_view())),
                    entry("slug"@, JsonView::Str(slug@)),
                    entry("operation"@, JsonView::Str("accept"@)),
                    entry("digest"@, JsonView::Str(digest)),
                ] + (match text {
                    Some(t) => seq![entry("body"@, JsonView::Str(t@))],
                    None => seq![],
                }),
            ),
        ),
        MemoryAction::Reject { slug, project } => Some(
            (
                "memory_finalize"@,
                seq![
                    entry("project"@, json::opt_string(project.deep_view())),
                    entry("slug"@, JsonView::Str(slug@)),
                    entry("operation"@, JsonView::Str("reject"@)),
                ],
            ),
        ),
        MemoryAction::Review { slug, project, operation, verdict, evidence, digest } => Some(
            (
                "memory_review"@,
                seq![
                    entry("project"@, json::opt_string(project.deep_view())),
                    entry("slug"@, JsonView::Str(slug@)),
                    entry("operation"@, JsonView::Str(operation@)),
                    entry("verdict"@, JsonView::Str(verdict@)),
                    entry("evidence"@, JsonView::Str(evidence@)),
                    entry("digest"@, JsonView::Str(digest@)),
                ],
            ),
        ),
        MemoryAction::Supersede { old_slug, new_slug, project } => Some(
            (
                "memory_finalize"@,
                seq![
                    entry("project"@, json::opt_string(project.deep_view())),
                    entry("old"@, JsonView::Str(old_slug@)),
                    entry("new"@, JsonView::Str(new_slug@)),
                    entry("operation"@, JsonView::Str("supersede"@)),
                ],
            ),
        ),
        MemoryAction::Verify { slug, project } => Some(
            (
                "memory_finalize"@,
                seq![
                    entry("project"@, json::opt_string(project.deep_view())),
                    entry("slug"@, JsonView::Str(slug@)),
                    entry("operation"@, JsonView::Str("verify"@)),
                    entry("digest"@, JsonView::Str(digest)),
                ],
            ),
        ),
        _ => None,
    }
}

/// A proposal takes one source of content.
pub fn check_sources(a: &MemoryAction) -> (r: Result<(), Error>)
    ensures
        ({
            let both = a is Propose && a->from is Some && a->Propose_text is Some;
            match r {
                Ok(_) => !both,
                Err(e) => both && e is Rejected && e.text()
                    == "propose takes --from or -m, not both"@,
            }
        }),
{
    match a {
        MemoryAction::Propose { from: Some(_), text: Some(_), .. } => Err(
            Error::Rejected("propose takes --from or -m, not both".to_owned()),
        ),
        _ => Ok(()),
    }
}

fn str_json(s: &str) -> (r: Json)
    ensures
        r@ == JsonView::Str(s@),
{
    Json::Str(s.to_owned())
}

fn put_axis(m: &mut Vec<Member>, k: &str, v: &Vec<String>)
    ensures
        json::members(final(m)@) == json::members(old(m)@) + axis_view(k@, v.deep_view()),
{
    let ghost o = json::members(m@);
    if v.len() > 0 {
        put_member(m, k, show_strings(v));
    }
    assert(json::members(m@) =~= o + axis_view(k@, v.deep_view()));
}

fn scope_json(s: &Scope) -> (r: Json)
    ensures
        r@ == scope_view(s@),
{
    let mut m: Vec<Member> = Vec::new();
    assert(json::members(m@) =~= seq![]);
    put_axis(&mut m, "components", &s.components);
    assert(json::members(m@) =~= axis_view("components"@, s@.components));
    put_axis(&mut m, "paths", &s.paths);
    put_axis(&mut m, "providers", &s.providers);
    put_axis(&mut m, "tags", &s.tags);
    let ghost o = json::members(m@);
    if s.project {
        put_member(&mut m, "project", Json::Bool(true));
        assert(json::members(m@) =~= o + seq![entry("project"@, JsonView::Bool(true))]);
    } else {
        assert(json::members(m@) =~= o + seq![]);
    }
    object_of(m)
}

fn finalize(project: &Option<String>, slug: &str, operation: &str) -> (m: Vec<Member>)
    ensures
        json::members(m@) == seq![
            entry("project"@, json::opt_string(project.deep_view())),
            entry("slug"@, JsonView::Str(slug@)),
            entry("operation"@, JsonView::Str(operation@)),
        ],
{
    let mut m: Vec<Member> = Vec::new();
    put_member(&mut m, "project", show_opt(project));
    put_member(&mut m, "slug", str_json(slug));
    put_member(&mut m, "operation", str_json(operation));
    assert(json::members(m@) =~= seq![
        entry("project"@, json::opt_string(project.deep_view())),
        entry("slug"@, JsonView::Str(slug@)),
        entry("operation"@, JsonView::Str(operation@)),
    ]);
    m
}

/// The request that an action makes of the daemon, if it makes one.
pub fn rpc_request(a: &MemoryAction, content: &Option<String>, digest: &str) -> (r: Option<Rpc>)
    ensures
        match (r, request(*a, content.deep_view(), digest@)) {
            (Some(q), Some(w)) => q.method@ == w.0 && q.params@ == JsonView::Obj(w.1),
            (None, None) => true,
            _ => false,
        },
{
    let ghost w = request(*a, content.deep_view(), digest@);
    let mut m: Vec<Member> = Vec::new();
    match a {
        MemoryAction::Propose { project, kind, scope, source, confidence, from, text, id } => {
            put_member(&mut m, "project", str_json(project.as_str()));
            put_member(&mut m, "kind", str_json(kind.as_str()));
            put_member(&mut m, "scope", scope_json(scope));
            put_member(&mut m, "source", show_opt(source));
            put_member(&mut m, "confidence", show_opt(confidence));
            put_member(&mut m, "from", show_opt(content));
            put_member(&mut m, "text", show_opt(text));
            put_member(&mut m, "id", show_opt(id));
            assert(json::members(m@) =~= (w->0).1);
            Some(Rpc { method: "memory_propose", params: object_of(m) })
        },
        MemoryAction::Accept { slug, project, text } => {
            let mut m = finalize(project, slug.as_str(), "accept");
            put_member(&mut m, "digest", str_json(digest));
            if let Some(t) = text {
                put_member(&mut m, "body", str_json(t.as_str()));
            }
            assert(json::members(m@) =~= (w->0).1);
            Some(Rpc { method: "memory_finalize", params: object_of(m) })
        },
        MemoryAction::Reject { slug, project } => {
            let m = finalize(project, slug.as_str(), "reject");
            Some(Rpc { method: "memory_finalize", params: object_of(m) })
        },
        MemoryAction::Review { slug, project, operation, verdict, evidence, digest } => {
            let mut m = finalize(project, slug.as_str(), operation.as_str());
            put_member(&mut m, "verdict", str_json(verdict.as_str()));
            put_member(&mut m, "evidence", str_json(evidence.as_str()));
            put_member(&mut m, "digest", str_json(digest.as_str()));
            assert(json::members(m@) =~= (w->0).1);
            Some(Rpc { method: "memory_review", params: object_of(m) })
        },
        MemoryAction::Supersede { old_slug, new_slug, project } => {
            put_member(&mut m, "project", show_opt(project));
            put_member(&mut m, "old", str_json(old_slug.as_str()));
            put_member(&mut m, "new", str_json(new_slug.as_str()));
            put_member(&mut m, "operation", str_json("supersede"));
            assert(json::members(m@) =~= (w->0).1);
            Some(Rpc { method: "memory_finalize", params: object_of(m) })
        },
        MemoryAction::Verify { slug, project } => {
            let mut m = finalize(project, slug.as_str(), "verify");
            put_member(&mut m, "digest", str_json(digest));
            assert(json::members(m@) =~= (w->0).1);
            Some(Rpc { method: "memory_finalize", params: object_of(m) })
        },
        _ => None,
    }
}

// ---------- listings ----------

pub open spec fn is_or_any(want: Option<Seq<char>>, have: Seq<char>) -> bool {
    want is None || want == Some(have)
}

pub open spec fn opt_list(s: Option<Seq<char>>) -> Seq<Seq<char>> {
    matching::opt_seq(s)
}

/// A memory that a listing shows: every filter that is given holds.
pub open spec fn shown(
    m: MemoryView,
    project: Option<Seq<char>>,
    status: Option<Seq<char>>,
    kind: Option<Seq<char>>,
    component: Option<Seq<char>>,
    path: Option<Seq<char>>,
) -> bool {
    &&& is_or_any(project, m.project)
    &&& is_or_any(status, m.front.status)
    &&& is_or_any(kind, m.front.kind)
    &&& (component is None && path is None) || matching::listed(
        m.front.scope,
        CtxView {
            components: opt_list(component),
            paths: opt_list(path),
            providers: seq![],
            tags: seq![],
        },
    )
}

fn is_or_any_of(want: Option<&str>, have: &str) -> (r: bool)
    ensures
        r == is_or_any(want.deep_view(), have@),
{
    match want {
        Some(w) => text::eq(w, have),
        None => true,
    }
}

fn one(s: Option<&str>) -> (r: Vec<String>)
    ensures
        r.deep_view() == opt_list(s.deep_view()),
{
    let mut v: Vec<String> = Vec::new();
    if let Some(x) = s {
        v.push(x.to_owned());
    }
    assert(v.deep_view() =~= opt_list(s.deep_view()));
    v
}

/// Whether a listing shows a memory.
pub fn is_shown(
    m: &Memory,
    project: Option<&str>,
    status: Option<&str>,
    kind: Option<&str>,
    component: Option<&str>,
    path: Option<&str>,
) -> (r: bool)
    ensures
        r == shown(
            m@,
            project.deep_view(),
            status.deep_view(),
            kind.deep_view(),
            component.deep_view(),
            path.deep_view(),
        ),
{
    if !is_or_any_of(project, m.project.as_str()) || !is_or_any_of(status, m.front.status.as_str())
        || !is_or_any_of(kind, m.front.kind.as_str()) {
        return false;
    }
    if component.is_none() && path.is_none() {
        return true;
    }
    let ctx = MatchCtx {
        components: one(component),
        paths: one(path),
        providers: Vec::new(),
        tags: Vec::new(),
    };
    assert(ctx@.providers =~= seq![]);
    assert(ctx@.tags =~= seq![]);
    matches_ctx(&m.front.scope, &ctx)
}

/// The line of a memory in a listing.
pub fn ls_line(m: &Memory) -> (r: String)
    ensures
        r@ == m@.project + "/"@ + m@.front.id + "\t"@ + m@.front.status + "\t"@ + m@.front.kind
            + "\t"@ + m@.front.confidence + "\t"@ + body::first_or_empty(body::fact(m@.body)),
{
    let f = &m.front;
    m.project.clone().concat("/").concat(f.id.as_str()).concat("\t").concat(
        f.status.as_str(),
    ).concat("\t").concat(f.kind.as_str()).concat("\t").concat(f.confidence.as_str()).concat(
        "\t",
    ).concat(body::fact_line(m.body.as_str()).as_str())
}

/// The line of a stale memory.
pub fn stale_line(s: &Stale) -> (r: String)
    ensures
        r@ == s.project@ + "/"@ + s.slug@ + "\tverified "@ + (match s.verified_at.deep_view() {
            Some(v) => v,
            None => "never"@,
        }) + "\t"@ + text::join(s.changed.deep_view(), ", "@),
{
    let when = match &s.verified_at {
        Some(v) => v.clone(),
        None => "never".to_owned(),
    };
    s.project.clone().concat("/").concat(s.slug.as_str()).concat("\tverified ").concat(
        when.as_str(),
    ).concat("\t").concat(text::join_of(&s.changed, ", ").as_str())
}

/// What lint exits with.
pub fn lint_exit(errors: &Vec<String>) -> (r: i32)
    ensures
        r == if errors@.len() == 0 {
            0i32
        } else {
            1
        },
{
    if errors.len() == 0 {
        0
    } else {
        1
    }
}

} // verus!
