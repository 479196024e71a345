//! What the memory writes answer, and how they are recorded in history.
use crate::json;
use crate::json::{object_of, put_member, Json, JsonView, Member, MemberView};
use crate::memory;
use crate::memory::quorum;
use crate::memory::quorum::quorum_status;
use crate::memory::{semantic_digest, Memory, MemoryView};
use crate::text;
use vstd::prelude::*;

verus! {

pub open spec fn entry(key: Seq<char>, value: JsonView) -> MemberView {
    MemberView { key, value }
}

fn show(s: &str) -> (r: Json)
    ensures
        r@ == JsonView::Str(s@),
{
    Json::Str(s.to_owned())
}

/// The subject of the commit that records a write.
pub open spec fn subject_text(m: MemoryView, slug: Seq<char>, what: Seq<char>) -> Seq<char> {
    m.project + "/memory/"@ + slug + ": "@ + what
}

/// The subject of the commit that records a write: what was done to the
/// memory.
pub fn subject(m: &Memory, slug: &str, what: &str) -> (r: String)
    ensures
        r@ == subject_text(m@, slug@, what@),
{
    m.project.clone().concat("/memory/").concat(slug).concat(": ").concat(what)
}

/// What a review did.
pub fn review_subject(m: &Memory, slug: &str, operation: &str, verdict: &str) -> (r: String)
    ensures
        r@ == subject_text(m@, slug@, "review "@ + operation@ + " "@ + verdict@),
{
    let what = "review ".to_owned().concat(operation).concat(" ").concat(verdict);
    subject(m, slug, what.as_str())
}

/// What a finalization did.
pub fn final_subject(m: &Memory, slug: &str, operation: &str) -> (r: String)
    ensures
        r@ == subject_text(m@, slug@, operation@ + " finalized"@),
{
    let what = operation.to_owned().concat(" finalized");
    subject(m, slug, what.as_str())
}

/// Whether the memory may be finalized, and why not.
pub open spec fn standing(eligible: bool, reason: Seq<char>) -> JsonView {
    JsonView::Obj(
        seq![entry("eligible"@, JsonView::Bool(eligible)), entry("reason"@, JsonView::Str(reason))],
    )
}

fn show_standing(eligible: bool, reason: &str) -> (r: Json)
    ensures
        r@ == standing(eligible, reason@),
{
    let mut m: Vec<Member> = Vec::new();
    assert(json::members(m@) =~= seq![]);
    put_member(&mut m, "eligible", Json::Bool(eligible));
    put_member(&mut m, "reason", show(reason));
    let r = object_of(m);
    assert(r@->Obj_0 =~= standing(eligible, reason@)->Obj_0);
    r
}

/// The answer to a proposal.
pub open spec fn proposed(m: MemoryView, committed: bool) -> JsonView {
    JsonView::Obj(
        seq![
            entry("committed"@, JsonView::Bool(committed)),
            entry("digest"@, JsonView::Str(memory::digest(m))),
            entry("path"@, JsonView::Str(m.path)),
            entry("project"@, JsonView::Str(m.project)),
            entry("quorum"@, standing(false, "review required"@)),
            entry("slug"@, JsonView::Str(m.front.id)),
            entry("status"@, JsonView::Str("proposed"@)),
        ],
    )
}

/// The answer to a proposal: it waits for its reviews.
pub fn propose_reply(mem: &Memory, committed: bool) -> (r: Json)
    ensures
        r@ == proposed(mem@, committed),
{
    let mut m: Vec<Member> = Vec::new();
    assert(json::members(m@) =~= seq![]);
    put_member(&mut m, "committed", Json::Bool(committed));
    put_member(&mut m, "digest", Json::Str(semantic_digest(mem)));
    put_member(&mut m, "path", show(mem.path.as_str()));
    put_member(&mut m, "project", show(mem.project.as_str()));
    put_member(&mut m, "quorum", show_standing(false, "review required"));
    put_member(&mut m, "slug", show(mem.front.id.as_str()));
    put_member(&mut m, "status", show("proposed"));
    let r = object_of(m);
    assert(r@->Obj_0 =~= proposed(mem@, committed)->Obj_0);
    r
}

/// The answer to a review.
pub open spec fn reviewed(
    m: MemoryView,
    slug: Seq<char>,
    operation: Seq<char>,
    verdict: Seq<char>,
    committed: bool,
) -> JsonView {
    let s = quorum::standing(m, operation);
    JsonView::Obj(
        seq![
            entry("committed"@, JsonView::Bool(committed)),
            entry("cycle"@, JsonView::Num(text::dec(m.front.review_cycle as nat))),
            entry("digest"@, JsonView::Str(memory::digest(m))),
            entry("operation"@, JsonView::Str(operation)),
            entry("project"@, JsonView::Str(m.project)),
            entry("quorum"@, standing(s.0, s.1)),
            entry("slug"@, JsonView::Str(slug)),
            entry("status"@, JsonView::Str(m.front.status)),
            entry("verdict"@, JsonView::Str(verdict)),
        ],
    )
}

/// The answer to a review: its cycle, and where the quorum stands now.
/// `mem` holds the review.
pub fn review_reply(mem: &Memory, slug: &str, operation: &str, verdict: &str, committed: bool) -> (r: Json)
    ensures
        r@ == reviewed(mem@, slug@, operation@, verdict@, committed),
{
    let (eligible, reason) = quorum_status(mem, operation);
    let mut m: Vec<Member> = Vec::new();
    assert(json::members(m@) =~= seq![]);
    put_member(&mut m, "committed", Json::Bool(committed));
    put_member(&mut m, "cycle", Json::Num(text::dec_of(mem.front.review_cycle)));
    put_member(&mut m, "digest", Json::Str(semantic_digest(mem)));
    put_member(&mut m, "operation", show(operation));
    put_member(&mut m, "project", show(mem.project.as_str()));
    put_member(&mut m, "quorum", show_standing(eligible, reason.as_str()));
    put_member(&mut m, "slug", show(slug));
    put_member(&mut m, "status", show(mem.front.status.as_str()));
    put_member(&mut m, "verdict", show(verdict));
    let r = object_of(m);
    assert(r@->Obj_0 =~= reviewed(mem@, slug@, operation@, verdict@, committed)->Obj_0);
    r
}

/// The answer to a finalization.
pub open spec fn finalized(
    m: MemoryView,
    slug: Seq<char>,
    operation: Seq<char>,
    reason: Seq<char>,
    committed: bool,
) -> JsonView {
    JsonView::Obj(
        seq![
            entry("committed"@, JsonView::Bool(committed)),
            entry("cycle"@, JsonView::Num(text::dec(m.front.review_cycle as nat))),
            entry("digest"@, JsonView::Str(memory::digest(m))),
            entry("finalized"@, JsonView::Bool(true)),
            entry("operation"@, JsonView::Str(operation)),
            entry("project"@, JsonView::Str(m.project)),
            entry("quorum"@, standing(true, reason)),
            entry("slug"@, JsonView::Str(slug)),
            entry("status"@, JsonView::Str(m.front.status)),
        ],
    )
}

/// The answer to a finalization. `mem` holds the finalization, and
/// `reason` is how the quorum stood before it.
pub fn finalize_reply(mem: &Memory, slug: &str, operation: &str, reason: &str, committed: bool) -> (r: Json)
    ensures
        r@ == finalized(mem@, slug@, operation@, reason@, committed),
{
    let mut m: Vec<Member> = Vec::new();
    assert(json::members(m@) =~= seq![]);
    put_member(&mut m, "committed", Json::Bool(committed));
    put_member(&mut m, "cycle", Json::Num(text::dec_of(mem.front.review_cycle)));
    put_member(&mut m, "digest", Json::Str(semantic_digest(mem)));
    put_member(&mut m, "finalized", Json::Bool(true));
    put_member(&mut m, "operation", show(operation));
    put_member(&mut m, "project", show(mem.project.as_str()));
    put_member(&mut m, "quorum", show_standing(true, reason));
    put_member(&mut m, "slug", show(slug));
    put_member(&mut m, "status", show(mem.front.status.as_str()));
    let r = object_of(m);
    assert(r@->Obj_0 =~= finalized(mem@, slug@, operation@, reason@, committed)->Obj_0);
    r
}

/// The answer to a rejection.
pub open spec fn rejected(m: MemoryView, slug: Seq<char>, committed: bool) -> JsonView {
    JsonView::Obj(
        seq![
            entry("committed"@, JsonView::Bool(committed)),
            entry("digest"@, JsonView::Str(memory::digest(m))),
            entry("project"@, JsonView::Str(m.project)),
            entry("slug"@, JsonView::Str(slug)),
            entry("status"@, JsonView::Str("rejected"@)),
        ],
    )
}

/// The answer to a rejection.
pub fn reject_reply(mem: &Memory, slug: &str, committed: bool) -> (r: Json)
    ensures
        r@ == rejected(mem@, slug@, committed),
{
    let mut m: Vec<Member> = Vec::new();
    assert(json::members(m@) =~= seq![]);
    put_member(&mut m, "committed", Json::Bool(committed));
    put_member(&mut m, "digest", Json::Str(semantic_digest(mem)));
    put_member(&mut m, "project", show(mem.project.as_str()));
    put_member(&mut m, "slug", show(slug));
    put_member(&mut m, "status", show("rejected"));
    let r = object_of(m);
    assert(r@->Obj_0 =~= rejected(mem@, slug@, committed)->Obj_0);
    r
}

} // verus!
