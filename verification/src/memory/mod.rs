//! Project memory: reviewed, scoped facts shared across agents.
//!
//! One fact per file: frontmatter and a body that holds the fact (at most
//! 5 lines), a `**Why:**` and a `**How to apply:**` section. Two distinct
//! PM or worker identities other than the author review the same semantic
//! digest, and an authenticated PM finalizes. Records without an
//! authenticated proposer stay readable but are blocked from retrieval.
pub mod body;
pub mod card;
pub mod check;
pub mod cli;
pub mod laws;
pub mod matching;
pub mod page_laws;
pub mod quorum;
pub mod reply;
pub mod request_laws;
pub mod review_laws;
pub mod store;
pub mod write;

use crate::error::Error;
use crate::hash;
use crate::json;
use crate::paths;
use crate::text;
use vstd::prelude::*;

verus! {

pub const LESSON_MAX_ENTRIES: usize = 12;

pub const LESSON_MAX_BYTES: usize = 4096;

pub const FACT_MAX_BYTES: usize = 512;

// ---------- records ----------

/// The identity proof that a record retains. The alias is for a human
/// reader; the registration tells one registration of an alias from a
/// later one.
#[derive(Clone, Debug)]
pub struct IdentityProof {
    pub alias: String,
    pub registration: u64,
    pub generation: String,
    pub process_start: u64,
    pub role: String,
}

pub struct ProofView {
    pub alias: Seq<char>,
    pub registration: u64,
    pub generation: Seq<char>,
    pub process_start: u64,
    pub role: Seq<char>,
}

impl View for IdentityProof {
    type V = ProofView;

    open spec fn view(&self) -> ProofView {
        ProofView {
            alias: self.alias@,
            registration: self.registration,
            generation: self.generation@,
            process_start: self.process_start,
            role: self.role@,
        }
    }
}

impl ProofView {
    /// The identity: `alias#registration`.
    pub open spec fn id(self) -> Seq<char> {
        self.alias + "#"@ + text::dec(self.registration as nat)
    }

    /// Every part is there, and the role is one that may act.
    pub open spec fn valid(self) -> bool {
        &&& self.alias.len() > 0
        &&& self.registration != 0
        &&& self.generation.len() > 0
        &&& self.process_start != 0
        &&& acting_role(self.role)
    }
}

pub open spec fn acting_role(role: Seq<char>) -> bool {
    role == "pm"@ || role == "worker"@
}

/// A review, as it is retained.
#[derive(Clone, Debug)]
pub struct ReviewReceipt {
    pub reviewer: String,
    pub identity: String,
    pub generation: String,
    pub process_start: u64,
    pub role: String,
    pub operation: String,
    pub cycle: u64,
    pub digest: String,
    pub verdict: String,
    pub evidence: String,
    pub recorded_at: String,
}

pub struct ReceiptView {
    pub reviewer: Seq<char>,
    pub identity: Seq<char>,
    pub generation: Seq<char>,
    pub process_start: u64,
    pub role: Seq<char>,
    pub operation: Seq<char>,
    pub cycle: u64,
    pub digest: Seq<char>,
    pub verdict: Seq<char>,
    pub evidence: Seq<char>,
    pub recorded_at: Seq<char>,
}

impl View for ReviewReceipt {
    type V = ReceiptView;

    open spec fn view(&self) -> ReceiptView {
        ReceiptView {
            reviewer: self.reviewer@,
            identity: self.identity@,
            generation: self.generation@,
            process_start: self.process_start,
            role: self.role@,
            operation: self.operation@,
            cycle: self.cycle,
            digest: self.digest@,
            verdict: self.verdict@,
            evidence: self.evidence@,
            recorded_at: self.recorded_at@,
        }
    }
}

/// A PM's finalization, as it is retained. Reviews alone never decide.
#[derive(Clone, Debug)]
pub struct FinalizationReceipt {
    pub operation: String,
    pub cycle: u64,
    pub digest: String,
    pub finalizer: IdentityProof,
    pub finalized_at: String,
}

pub struct FinalView {
    pub operation: Seq<char>,
    pub cycle: u64,
    pub digest: Seq<char>,
    pub finalizer: ProofView,
    pub finalized_at: Seq<char>,
}

impl View for FinalizationReceipt {
    type V = FinalView;

    open spec fn view(&self) -> FinalView {
        FinalView {
            operation: self.operation@,
            cycle: self.cycle,
            digest: self.digest@,
            finalizer: self.finalizer@,
            finalized_at: self.finalized_at@,
        }
    }
}

/// An identity that the daemon resolved from a socket peer.
#[derive(Clone, Debug)]
pub struct NativeIdentity {
    pub proof: IdentityProof,
}

/// What a fact applies to. Every axis is optional; without any it applies
/// to nothing.
#[derive(Clone, Debug, Default)]
pub struct Scope {
    pub components: Vec<String>,
    /// Globs relative to the root of a repository.
    pub paths: Vec<String>,
    pub providers: Vec<String>,
    pub tags: Vec<String>,
    /// It applies to every dispatch of the project.
    pub project: bool,
}

pub struct ScopeView {
    pub components: Seq<Seq<char>>,
    pub paths: Seq<Seq<char>>,
    pub providers: Seq<Seq<char>>,
    pub tags: Seq<Seq<char>>,
    pub project: bool,
}

impl View for Scope {
    type V = ScopeView;

    open spec fn view(&self) -> ScopeView {
        ScopeView {
            components: self.components.deep_view(),
            paths: self.paths.deep_view(),
            providers: self.providers.deep_view(),
            tags: self.tags.deep_view(),
            project: self.project,
        }
    }
}

/// The frontmatter of a memory. `id` is the slug and the stem of its file.
#[derive(Clone, Debug)]
pub struct Front {
    pub id: String,
    pub kind: String,
    pub status: String,
    pub scope: Scope,
    pub source: Option<String>,
    pub confidence: String,
    pub created: String,
    pub verified_at: Option<String>,
    pub supersedes: Option<String>,
    pub author: Option<String>,
    pub author_proof: Option<IdentityProof>,
    pub contributors: Vec<IdentityProof>,
    pub review_cycle: u64,
    /// The operation that collects reviews; a finalization clears it.
    pub active_operation: Option<String>,
    pub reviews: Vec<ReviewReceipt>,
    pub finalizations: Vec<FinalizationReceipt>,
}

pub struct FrontView {
    pub id: Seq<char>,
    pub kind: Seq<char>,
    pub status: Seq<char>,
    pub scope: ScopeView,
    pub source: Option<Seq<char>>,
    pub confidence: Seq<char>,
    pub created: Seq<char>,
    pub verified_at: Option<Seq<char>>,
    pub supersedes: Option<Seq<char>>,
    pub author: Option<Seq<char>>,
    pub author_proof: Option<ProofView>,
    pub contributors: Seq<ProofView>,
    pub review_cycle: u64,
    pub active_operation: Option<Seq<char>>,
    pub reviews: Seq<ReceiptView>,
    pub finalizations: Seq<FinalView>,
}

pub open spec fn proof_views(v: Seq<IdentityProof>) -> Seq<ProofView> {
    v.map_values(|p: IdentityProof| p@)
}

pub open spec fn receipt_views(v: Seq<ReviewReceipt>) -> Seq<ReceiptView> {
    v.map_values(|r: ReviewReceipt| r@)
}

pub open spec fn final_views(v: Seq<FinalizationReceipt>) -> Seq<FinalView> {
    v.map_values(|r: FinalizationReceipt| r@)
}

pub open spec fn proof_opt(p: Option<IdentityProof>) -> Option<ProofView> {
    match p {
        Some(x) => Some(x@),
        None => None,
    }
}

impl View for Front {
    type V = FrontView;

    open spec fn view(&self) -> FrontView {
        FrontView {
            id: self.id@,
            kind: self.kind@,
            status: self.status@,
            scope: self.scope@,
            source: self.source.deep_view(),
            confidence: self.confidence@,
            created: self.created@,
            verified_at: self.verified_at.deep_view(),
            supersedes: self.supersedes.deep_view(),
            author: self.author.deep_view(),
            author_proof: proof_opt(self.author_proof),
            contributors: proof_views(self.contributors@),
            review_cycle: self.review_cycle,
            active_operation: self.active_operation.deep_view(),
            reviews: receipt_views(self.reviews@),
            finalizations: final_views(self.finalizations@),
        }
    }
}

/// A memory as it was loaded.
#[derive(Clone, Debug)]
pub struct Memory {
    pub project: String,
    pub front: Front,
    pub body: String,
    pub path: String,
}

pub struct MemoryView {
    pub project: Seq<char>,
    pub front: FrontView,
    pub body: Seq<char>,
    pub path: Seq<char>,
}

impl View for Memory {
    type V = MemoryView;

    open spec fn view(&self) -> MemoryView {
        MemoryView {
            project: self.project@,
            front: self.front@,
            body: self.body@,
            path: self.path@,
        }
    }
}

pub open spec fn memories(v: Seq<Memory>) -> Seq<MemoryView> {
    v.map_values(|m: Memory| m@)
}

impl IdentityProof {
    /// The identity: `alias#registration`.
    pub fn stable_id(&self) -> (r: String)
        ensures
            r@ == self@.id(),
    {
        self.alias.clone().concat("#").concat(text::dec_of(self.registration).as_str())
    }

    pub fn is_valid(&self) -> (r: bool)
        ensures
            r == self@.valid(),
    {
        proof {
            reveal_strlit("");
            assert(self.alias@.len() == 0 ==> self.alias@ =~= ""@);
            assert(self.generation@.len() == 0 ==> self.generation@ =~= ""@);
        }
        !text::eq(self.alias.as_str(), "") && self.registration != 0 && !text::eq(
            self.generation.as_str(),
            "",
        ) && self.process_start != 0 && may_act(self.role.as_str())
    }

    pub fn copy(&self) -> (r: IdentityProof)
        ensures
            r@ == self@,
    {
        IdentityProof {
            alias: self.alias.clone(),
            registration: self.registration,
            generation: self.generation.clone(),
            process_start: self.process_start,
            role: self.role.clone(),
        }
    }
}

pub(crate) fn may_act(role: &str) -> (r: bool)
    ensures
        r == acting_role(role@),
{
    text::eq(role, "pm") || text::eq(role, "worker")
}

impl NativeIdentity {
    pub fn stable_id(&self) -> (r: String)
        ensures
            r@ == self.proof@.id(),
    {
        self.proof.stable_id()
    }
}

impl Scope {
    pub fn copy(&self) -> (r: Scope)
        ensures
            r@ == self@,
    {
        Scope {
            components: text::copy_names(&self.components),
            paths: text::copy_names(&self.paths),
            providers: text::copy_names(&self.providers),
            tags: text::copy_names(&self.tags),
            project: self.project,
        }
    }
}

// ---------- slugs ----------

pub open spec fn slug_char(c: char) -> bool {
    ('a' <= c && c <= 'z') || ('0' <= c && c <= '9') || c == '-'
}

/// 1 to 48 lower-case letters, digits or hyphens, with a hyphen at neither
/// end.
pub open spec fn slug(s: Seq<char>) -> bool {
    &&& 0 < s.len() <= 48
    &&& forall|i: int| 0 <= i < s.len() ==> slug_char(#[trigger] s[i])
    &&& s[0] != '-'
    &&& s.last() != '-'
}

pub fn valid_slug(slug: &str) -> (r: bool)
    ensures
        r == self::slug(slug@),
{
    let v = text::chars_of(slug);
    if v.len() == 0 || v.len() > 48 || v[0] == '-' || v[v.len() - 1] == '-' {
        return false;
    }
    let mut i: usize = 0;
    while i < v.len()
        invariant
            v@ == slug@,
            i <= v@.len(),
            forall|j: int| 0 <= j < i ==> slug_char(#[trigger] v@[j]),
        decreases v.len() - i,
    {
        let c = v[i];
        if !(('a' <= c && c <= 'z') || ('0' <= c && c <= '9') || c == '-') {
            assert(!slug_char(slug@[i as int]));
            return false;
        }
        i = i + 1;
    }
    true
}

pub open spec fn bad_slug(s: Seq<char>) -> Seq<char> {
    "Invalid memory slug '"@ + s + "' — 1-48 lowercase letters, digits or single hyphens"@
}

pub fn check_slug(slug: &str) -> (r: Result<String, Error>)
    ensures
        match r {
            Ok(s) => s@ == slug@ && self::slug(slug@),
            Err(e) => !self::slug(slug@) && e is Rejected && e.text() == bad_slug(slug@),
        },
{
    if valid_slug(slug) {
        Ok(slug.to_owned())
    } else {
        Err(
            Error::Rejected(
                "Invalid memory slug '".to_owned().concat(slug).concat(
                    "' — 1-48 lowercase letters, digits or single hyphens",
                ),
            ),
        )
    }
}

/// Where the memories of a project are.
pub fn memory_dir(pm_dir: &str, key: &str) -> (r: String)
    ensures
        r@ == paths::join(paths::join(pm_dir@, key@), "memory"@),
{
    paths::join_of(paths::join_of(pm_dir, key).as_str(), "memory")
}

// ---------- the semantic digest ----------

pub open spec fn opt_text(s: Option<Seq<char>>) -> Seq<char> {
    match s {
        Some(x) => json::quoted(x),
        None => "null"@,
    }
}

pub open spec fn proof_text(p: ProofView) -> Seq<char> {
    "{\"alias\":"@ + json::quoted(p.alias) + ",\"registration\":"@ + text::dec(
        p.registration as nat,
    ) + ",\"generation\":"@ + json::quoted(p.generation) + ",\"process_start\":"@ + text::dec(
        p.process_start as nat,
    ) + ",\"role\":"@ + json::quoted(p.role) + "}"@
}

pub open spec fn list_text(v: Seq<Seq<char>>) -> Seq<char> {
    "["@ + text::join(v.map_values(|s: Seq<char>| json::quoted(s)), ","@) + "]"@
}

pub open spec fn axis_text(name: Seq<char>, v: Seq<Seq<char>>) -> Seq<Seq<char>> {
    if v.len() == 0 {
        seq![]
    } else {
        seq![name + list_text(v)]
    }
}

/// The axes of a scope, without those that are empty.
pub open spec fn scope_text(s: ScopeView) -> Seq<char> {
    let parts = axis_text("\"components\":"@, s.components) + axis_text("\"paths\":"@, s.paths)
        + axis_text("\"providers\":"@, s.providers) + axis_text("\"tags\":"@, s.tags) + (
    if s.project {
        seq!["\"project\":true"@]
    } else {
        seq![]
    });
    "{"@ + text::join(parts, ","@) + "}"@
}

pub open spec fn proof_opt_text(p: Option<ProofView>) -> Seq<char> {
    match p {
        Some(x) => proof_text(x),
        None => "null"@,
    }
}

/// What a memory claims and what it applies to, as one JSON object. Its
/// status, its times and its receipts are no part of it.
pub open spec fn revision(m: MemoryView) -> Seq<char> {
    "{\"project\":"@ + json::quoted(m.project) + ",\"id\":"@ + json::quoted(m.front.id)
        + ",\"kind\":"@ + json::quoted(m.front.kind) + ",\"body\":"@ + json::quoted(m.body)
        + ",\"author\":"@ + opt_text(m.front.author) + ",\"author_proof\":"@ + proof_opt_text(
        m.front.author_proof,
    ) + ",\"contributors\":["@ + text::join(
        m.front.contributors.map_values(|p: ProofView| proof_text(p)),
        ","@,
    ) + "],\"source\":"@ + opt_text(m.front.source) + ",\"confidence\":"@ + json::quoted(
        m.front.confidence,
    ) + ",\"scope\":"@ + scope_text(m.front.scope) + ",\"supersedes\":"@ + opt_text(
        m.front.supersedes,
    ) + "}"@
}

/// The digest of a revision: SHA-256 in hex.
pub open spec fn digest(m: MemoryView) -> Seq<char> {
    hash::sha256_hex(vstd::utf8::encode_utf8(revision(m)))
}

fn opt_text_of(s: &Option<String>) -> (r: String)
    ensures
        r@ == opt_text(s.deep_view()),
{
    match s {
        Some(x) => json::quote(x.as_str()),
        None => "null".to_owned(),
    }
}

fn proof_text_of(p: &IdentityProof) -> (r: String)
    ensures
        r@ == proof_text(p@),
{
    "{\"alias\":".to_owned().concat(json::quote(p.alias.as_str()).as_str()).concat(
        ",\"registration\":",
    ).concat(text::dec_of(p.registration).as_str()).concat(",\"generation\":").concat(
        json::quote(p.generation.as_str()).as_str(),
    ).concat(",\"process_start\":").concat(text::dec_of(p.process_start).as_str()).concat(
        ",\"role\":",
    ).concat(json::quote(p.role.as_str()).as_str()).concat("}")
}

fn list_text_of(v: &Vec<String>) -> (r: String)
    ensures
        r@ == list_text(v.deep_view()),
{
    let ghost d = v.deep_view();
    let ghost want = d.map_values(|s: Seq<char>| json::quoted(s));
    let mut q: Vec<String> = Vec::new();
    let mut i: usize = 0;
    assert(q.deep_view() =~= want.take(0));
    while i < v.len()
        invariant
            d == v.deep_view(),
            want == d.map_values(|s: Seq<char>| json::quoted(s)),
            i <= v@.len(),
            q.deep_view() == want.take(i as int),
        decreases v.len() - i,
    {
        let ghost o = q.deep_view();
        assert(d[i as int] == v@[i as int]@);
        q.push(json::quote(v[i].as_str()));
        assert(q.deep_view() =~= o.push(want[i as int]));
        assert(want.take(i + 1) =~= o.push(want[i as int]));
        i = i + 1;
    }
    assert(want.take(i as int) =~= want);
    "[".to_owned().concat(text::join_of(&q, ",").as_str()).concat("]")
}

fn push_axis(parts: &mut Vec<String>, name: &str, v: &Vec<String>)
    ensures
        final(parts).deep_view() == old(parts).deep_view() + axis_text(name@, v.deep_view()),
{
    let ghost o = parts.deep_view();
    if v.len() > 0 {
        let t = name.to_owned().concat(list_text_of(v).as_str());
        parts.push(t);
        assert(parts.deep_view() =~= o + seq![t@]);
    } else {
        assert(parts.deep_view() =~= o + seq![]);
    }
}

fn scope_text_of(s: &Scope) -> (r: String)
    ensures
        r@ == scope_text(s@),
{
    let mut parts: Vec<String> = Vec::new();
    assert(parts.deep_view() =~= Seq::empty());
    push_axis(&mut parts, "\"components\":", &s.components);
    assert(parts.deep_view() =~= axis_text("\"components\":"@, s@.components));
    push_axis(&mut parts, "\"paths\":", &s.paths);
    push_axis(&mut parts, "\"providers\":", &s.providers);
    push_axis(&mut parts, "\"tags\":", &s.tags);
    let ghost o = parts.deep_view();
    if s.project {
        parts.push("\"project\":true".to_owned());
        assert(parts.deep_view() =~= o + seq!["\"project\":true"@]);
    } else {
        assert(parts.deep_view() =~= o + seq![]);
    }
    "{".to_owned().concat(text::join_of(&parts, ",").as_str()).concat("}")
}

fn proofs_text_of(v: &Vec<IdentityProof>) -> (r: String)
    ensures
        r@ == text::join(
            proof_views(v@).map_values(|p: ProofView| proof_text(p)),
            ","@,
        ),
{
    let ghost want = proof_views(v@).map_values(|p: ProofView| proof_text(p));
    let mut q: Vec<String> = Vec::new();
    let mut i: usize = 0;
    assert(q.deep_view() =~= want.take(0));
    while i < v.len()
        invariant
            want == proof_views(v@).map_values(|p: ProofView| proof_text(p)),
            i <= v@.len(),
            q.deep_view() == want.take(i as int),
        decreases v.len() - i,
    {
        let ghost o = q.deep_view();
        q.push(proof_text_of(&v[i]));
        assert(q.deep_view() =~= o.push(want[i as int]));
        assert(want.take(i + 1) =~= o.push(want[i as int]));
        i = i + 1;
    }
    assert(want.take(i as int) =~= want);
    text::join_of(&q, ",")
}

/// The digest of what a memory claims. A changed claim or applicability
/// changes the text that is digested; a changed status, time or receipt
/// does not.
pub fn semantic_digest(mem: &Memory) -> (r: String)
    ensures
        r@ == digest(mem@),
        r@.len() == 64,
{
    let f = &mem.front;
    let author_proof = match &f.author_proof {
        Some(p) => proof_text_of(p),
        None => "null".to_owned(),
    };
    let head = "{\"project\":".to_owned().concat(json::quote(mem.project.as_str()).as_str()).concat(
        ",\"id\":",
    ).concat(json::quote(f.id.as_str()).as_str()).concat(",\"kind\":").concat(
        json::quote(f.kind.as_str()).as_str(),
    ).concat(",\"body\":").concat(json::quote(mem.body.as_str()).as_str()).concat(
        ",\"author\":",
    ).concat(opt_text_of(&f.author).as_str());
    let text = head.concat(",\"author_proof\":").concat(author_proof.as_str()).concat(
        ",\"contributors\":[",
    ).concat(proofs_text_of(&f.contributors).as_str()).concat("],\"source\":").concat(
        opt_text_of(&f.source).as_str(),
    ).concat(",\"confidence\":").concat(json::quote(f.confidence.as_str()).as_str()).concat(
        ",\"scope\":",
    ).concat(scope_text_of(&f.scope).as_str()).concat(",\"supersedes\":").concat(
        opt_text_of(&f.supersedes).as_str(),
    ).concat("}");
    hash::sha256_text(text.as_str())
}

/// The digest does not depend on the lifecycle: status, times, review
/// cycle and receipts may change under the same digest.
pub proof fn lifecycle_keeps_the_digest(m: MemoryView, n: MemoryView)
    requires
        n.project == m.project,
        n.body == m.body,
        n.front == (FrontView {
            status: n.front.status,
            created: n.front.created,
            verified_at: n.front.verified_at,
            review_cycle: n.front.review_cycle,
            active_operation: n.front.active_operation,
            reviews: n.front.reviews,
            finalizations: n.front.finalizations,
            ..m.front
        }),
    ensures
        digest(n) == digest(m),
{
}

} // verus!
