//! A memory as lists and pages show it.
use crate::json;
use crate::json::{array_of, object_of, put_member, show_opt, show_strings, Json, JsonView, Member, MemberView};
use crate::memory;
use crate::memory::body;
use crate::memory::body::fact_line;
use crate::memory::quorum;
use crate::memory::quorum::{quorum_status, retrieval_status};
use crate::memory::{semantic_digest, FinalView, FinalizationReceipt, Memory, MemoryView, Scope, ScopeView};
use crate::text;
use vstd::prelude::*;

verus! {

pub open spec fn entry(key: Seq<char>, value: JsonView) -> MemberView {
    MemberView { key, value }
}

pub open spec fn count(n: nat) -> JsonView {
    JsonView::Num(text::dec(n))
}

pub open spec fn scope_card(s: ScopeView) -> JsonView {
    JsonView::Obj(
        seq![
            entry("components"@, json::strings(s.components)),
            entry("paths"@, json::strings(s.paths)),
            entry("project"@, JsonView::Bool(s.project)),
            entry("providers"@, json::strings(s.providers)),
            entry("tags"@, json::strings(s.tags)),
        ],
    )
}

pub open spec fn final_card(f: FinalView) -> JsonView {
    JsonView::Obj(
        seq![
            entry("cycle"@, count(f.cycle as nat)),
            entry("digest"@, JsonView::Str(f.digest)),
            entry("finalized_at"@, JsonView::Str(f.finalized_at)),
            entry("finalizer"@, JsonView::Str(f.finalizer.alias)),
            entry("operation"@, JsonView::Str(f.operation)),
        ],
    )
}

/// Whether something may happen, and why not.
pub open spec fn standing_card(s: (bool, Seq<char>)) -> JsonView {
    JsonView::Obj(
        seq![entry("eligible"@, JsonView::Bool(s.0)), entry("reason"@, JsonView::Str(s.1))],
    )
}

pub open spec fn quorum_card(m: MemoryView) -> JsonView {
    JsonView::Obj(
        seq![
            entry("accept"@, standing_card(quorum::standing(m, "accept"@))),
            entry("eligible"@, JsonView::Bool(quorum::retrieval(m).0)),
            entry("reason"@, JsonView::Str(quorum::retrieval(m).1)),
            entry("verify"@, standing_card(quorum::standing(m, "verify"@))),
        ],
    )
}

/// The card of a memory: its frontmatter, its digest, where its reviews
/// stand, and its fact.
pub open spec fn card(m: MemoryView) -> Seq<MemberView> {
    seq![
        entry("active_operation"@, json::opt_string(m.front.active_operation)),
        entry("author"@, json::opt_string(m.front.author)),
        entry("confidence"@, JsonView::Str(m.front.confidence)),
        entry("created"@, JsonView::Str(m.front.created)),
        entry("fact"@, JsonView::Str(body::first_or_empty(body::fact(m.body)))),
        entry("finalization_count"@, count(m.front.finalizations.len())),
        entry(
            "finalized_operations"@,
            JsonView::Arr(m.front.finalizations.map_values(|f: FinalView| final_card(f))),
        ),
        entry("path"@, JsonView::Str(m.path)),
        entry("project"@, JsonView::Str(m.project)),
        entry("quorum"@, quorum_card(m)),
        entry("review_count"@, count(m.front.reviews.len())),
        entry("review_cycle"@, count(m.front.review_cycle as nat)),
        entry("revision_digest"@, JsonView::Str(memory::digest(m))),
        entry("scope"@, scope_card(m.front.scope)),
        entry("slug"@, JsonView::Str(m.front.id)),
        entry("source"@, json::opt_string(m.front.source)),
        entry("status"@, JsonView::Str(m.front.status)),
        entry("supersedes"@, json::opt_string(m.front.supersedes)),
        entry("type"@, JsonView::Str(m.front.kind)),
        entry("verified_at"@, json::opt_string(m.front.verified_at)),
    ]
}

fn show(s: &String) -> (r: Json)
    ensures
        r@ == JsonView::Str(s@),
{
    Json::Str(s.clone())
}

fn show_count(n: u64) -> (r: Json)
    ensures
        r@ == count(n as nat),
{
    Json::Num(text::dec_of(n))
}

fn show_scope(s: &Scope) -> (r: Json)
    ensures
        r@ == scope_card(s@),
{
    let mut m: Vec<Member> = Vec::new();
    assert(json::members(m@) =~= seq![]);
    put_member(&mut m, "components", show_strings(&s.components));
    put_member(&mut m, "paths", show_strings(&s.paths));
    put_member(&mut m, "project", Json::Bool(s.project));
    put_member(&mut m, "providers", show_strings(&s.providers));
    put_member(&mut m, "tags", show_strings(&s.tags));
    let r = object_of(m);
    assert(r@->Obj_0 =~= scope_card(s@)->Obj_0);
    r
}

fn show_final(f: &FinalizationReceipt) -> (r: Json)
    ensures
        r@ == final_card(f@),
{
    let mut m: Vec<Member> = Vec::new();
    assert(json::members(m@) =~= seq![]);
    put_member(&mut m, "cycle", show_count(f.cycle));
    put_member(&mut m, "digest", show(&f.digest));
    put_member(&mut m, "finalized_at", show(&f.finalized_at));
    put_member(&mut m, "finalizer", show(&f.finalizer.alias));
    put_member(&mut m, "operation", show(&f.operation));
    let r = object_of(m);
    assert(r@->Obj_0 =~= final_card(f@)->Obj_0);
    r
}

fn show_finals(v: &Vec<FinalizationReceipt>) -> (r: Json)
    ensures
        r@ == JsonView::Arr(
            memory::final_views(v@).map_values(|f: FinalView| final_card(f)),
        ),
{
    let ghost d = memory::final_views(v@);
    let mut out: Vec<Json> = Vec::new();
    let mut i: usize = 0;
    while i < v.len()
        invariant
            d == memory::final_views(v@),
            i <= v@.len(),
            out@.len() == i,
            forall|k: int| 0 <= k < i ==> (#[trigger] out@[k])@ == final_card(d[k]),
        decreases v.len() - i,
    {
        out.push(show_final(&v[i]));
        i = i + 1;
    }
    let r = array_of(out);
    assert(r@->Arr_0 =~= d.map_values(|f: FinalView| final_card(f)));
    r
}

fn show_standing(eligible: bool, reason: String) -> (r: Json)
    ensures
        r@ == standing_card((eligible, reason@)),
{
    let mut m: Vec<Member> = Vec::new();
    assert(json::members(m@) =~= seq![]);
    put_member(&mut m, "eligible", Json::Bool(eligible));
    put_member(&mut m, "reason", show(&reason));
    let r = object_of(m);
    assert(r@->Obj_0 =~= standing_card((eligible, reason@))->Obj_0);
    r
}

fn show_quorum(mem: &Memory) -> (r: Json)
    ensures
        r@ == quorum_card(mem@),
{
    let (eligible, reason) = retrieval_status(mem);
    let (accept, accept_reason) = quorum_status(mem, "accept");
    let (verify, verify_reason) = quorum_status(mem, "verify");
    let mut m: Vec<Member> = Vec::new();
    assert(json::members(m@) =~= seq![]);
    put_member(&mut m, "accept", show_standing(accept, accept_reason));
    put_member(&mut m, "eligible", Json::Bool(eligible));
    put_member(&mut m, "reason", show(&reason));
    put_member(&mut m, "verify", show_standing(verify, verify_reason));
    let r = object_of(m);
    assert(r@->Obj_0 =~= quorum_card(mem@)->Obj_0);
    r
}

fn members_of(mem: &Memory) -> (m: Vec<Member>)
    ensures
        json::members(m@) == card(mem@),
{
    let f = &mem.front;
    let mut m: Vec<Member> = Vec::new();
    assert(json::members(m@) =~= seq![]);
    put_member(&mut m, "active_operation", show_opt(&f.active_operation));
    put_member(&mut m, "author", show_opt(&f.author));
    put_member(&mut m, "confidence", show(&f.confidence));
    put_member(&mut m, "created", show(&f.created));
    put_member(&mut m, "fact", Json::Str(fact_line(mem.body.as_str())));
    put_member(&mut m, "finalization_count", show_count(f.finalizations.len() as u64));
    put_member(&mut m, "finalized_operations", show_finals(&f.finalizations));
    put_member(&mut m, "path", show(&mem.path));
    put_member(&mut m, "project", show(&mem.project));
    put_member(&mut m, "quorum", show_quorum(mem));
    put_member(&mut m, "review_count", show_count(f.reviews.len() as u64));
    put_member(&mut m, "review_cycle", show_count(f.review_cycle));
    put_member(&mut m, "revision_digest", Json::Str(semantic_digest(mem)));
    put_member(&mut m, "scope", show_scope(&f.scope));
    put_member(&mut m, "slug", show(&f.id));
    put_member(&mut m, "source", show_opt(&f.source));
    put_member(&mut m, "status", show(&f.status));
    put_member(&mut m, "supersedes", show_opt(&f.supersedes));
    put_member(&mut m, "type", show(&f.kind));
    put_member(&mut m, "verified_at", show_opt(&f.verified_at));
    assert(json::members(m@) =~= card(mem@));
    m
}

/// The card of a memory, for lists.
pub fn card_json(mem: &Memory) -> (r: Json)
    ensures
        r@ == JsonView::Obj(card(mem@)),
{
    object_of(members_of(mem))
}

/// The card of a memory with its body, for its page.
pub fn detail_json(mem: &Memory) -> (r: Json)
    ensures
        r@ == JsonView::Obj(json::with(card(mem@), "body"@, JsonView::Str(mem.body@))),
{
    object_of(json::set_key(members_of(mem), "body", show(&mem.body)))
}

/// A page shows everything that the card does.
pub proof fn a_page_shows_the_card(m: MemoryView, k: Seq<char>)
    requires
        k != "body"@,
    ensures
        json::entry(json::with(card(m), "body"@, JsonView::Str(m.body)), k) == json::entry(
            card(m),
            k,
        ),
{
    json::with_entry(card(m), "body"@, JsonView::Str(m.body), k);
}

} // verus!
