//! The writes that carry authority: a proposal, a review, a finalization
//! and a rejection. Each is decided on the memory as it stands; nothing is
//! written where it is refused.
use crate::error::Error;
use crate::memory;
use crate::memory::body;
use crate::memory::check;
use crate::memory::check::check_front;
use crate::memory::quorum;
use crate::memory::quorum::{is_finalized, operation_cycle, proposal_identity_matches, quorum_status};
use crate::memory::{check_slug, semantic_digest, FinalView, FinalizationReceipt, Front, FrontView, Memory, MemoryView, NativeIdentity, ProofView, ReceiptView, ReviewReceipt, Scope};
use crate::paths;
use crate::text;
use vstd::prelude::*;

verus! {

pub open spec fn is_operation(s: Seq<char>) -> bool {
    s == "accept"@ || s == "verify"@
}

fn operation_known(s: &str) -> (r: bool)
    ensures
        r == is_operation(s@),
{
    text::eq(s, "accept") || text::eq(s, "verify")
}

fn rejected(s: &str) -> (r: Error)
    ensures
        r is Rejected,
        r.text() == s@,
{
    Error::Rejected(s.to_owned())
}

// ---------- proposals ----------

/// The content of a proposal: a whole memory file, or a bare body.
#[derive(Debug)]
pub enum Content {
    File { front: Front, body: String },
    Body(String),
}

/// What a proposal's content is: the text of a file that was read as a
/// memory, or else as a bare body; or a text.
pub fn proposal_content(
    parsed: Option<(Front, String)>,
    from_text: Option<String>,
    text: Option<String>,
) -> (r: Result<Content, Error>)
    ensures
        match r {
            Ok(c) => (from_text is Some) != (text is Some) && (match (from_text, parsed) {
                (Some(raw), Some(p)) => c == (Content::File { front: p.0, body: p.1 }),
                (Some(raw), None) => c == Content::Body(raw),
                (None, _) => c == Content::Body(text->0),
            }),
            Err(e) => (from_text is Some) == (text is Some) && e is Rejected && e.text() == (
            if text is Some {
                "propose takes one content source"@
            } else {
                "propose needs content — text or authenticated file content"@
            }),
        },
{
    match (from_text, text) {
        (Some(raw), None) => match parsed {
            Some((front, body)) => Ok(Content::File { front, body }),
            None => Ok(Content::Body(raw)),
        },
        (None, Some(t)) => Ok(Content::Body(t)),
        (None, None) => Err(
            rejected("propose needs content — text or authenticated file content"),
        ),
        (Some(_), Some(_)) => Err(rejected("propose takes one content source")),
    }
}

/// The pieces of a slugified line without the empty ones.
pub open spec fn derived(slugified: Seq<char>) -> Seq<char> {
    text::join(
        text::split(slugified, '-').filter(|p: Seq<char>| p.len() > 0),
        "-"@,
    )
}

/// The slug of a proposal: the one asked for, else the one that the first
/// line of the fact gives.
pub open spec fn proposal_slug(asked: Option<Seq<char>>, slugified: Seq<char>) -> Seq<char> {
    match asked {
        Some(s) => s,
        None => if derived(slugified).len() == 0 || derived(slugified) == "work"@ {
            "lesson"@
        } else {
            derived(slugified)
        },
    }
}

fn derived_of(slugified: &str) -> (r: String)
    ensures
        r@ == derived(slugified@),
{
    let pieces = text::split_of(slugified, '-');
    let ghost d = pieces.deep_view();
    let ghost f = |p: Seq<char>| p.len() > 0;
    let mut kept: Vec<String> = Vec::new();
    let mut i: usize = 0;
    proof {
        reveal(Seq::filter);
        reveal_strlit("");
        assert(d.take(0) =~= Seq::empty());
        assert(kept.deep_view() =~= d.take(0).filter(f));
    }
    while i < pieces.len()
        invariant
            d == pieces.deep_view(),
            f == (|p: Seq<char>| p.len() > 0),
            ""@.len() == 0,
            i <= pieces@.len(),
            kept.deep_view() == d.take(i as int).filter(f),
        decreases pieces.len() - i,
    {
        proof {
            reveal(Seq::filter);
            assert(d.take(i + 1).drop_last() =~= d.take(i as int));
            assert(d[i as int] == pieces@[i as int]@);
            assert(d[i as int].len() == 0 ==> d[i as int] =~= ""@);
        }
        if !text::eq(pieces[i].as_str(), "") {
            let ghost o = kept.deep_view();
            kept.push(pieces[i].clone());
            assert(kept.deep_view() =~= o.push(d[i as int]));
        }
        i = i + 1;
    }
    assert(d.take(i as int) =~= d);
    text::join_of(&kept, "-")
}

fn choose_slug(asked: Option<&str>, slugified: &str) -> (r: String)
    ensures
        r@ == proposal_slug(asked.deep_view(), slugified@),
{
    match asked {
        Some(s) => s.to_owned(),
        None => {
            let d = derived_of(slugified);
            proof {
                reveal_strlit("");
                assert(d@.len() == 0 ==> d@ =~= ""@);
            }
            if text::eq(d.as_str(), "") || text::eq(d.as_str(), "work") {
                "lesson".to_owned()
            } else {
                d
            }
        },
    }
}

/// What a proposal says of itself, where its content is a bare body.
#[derive(Debug)]
pub struct Proposal {
    pub kind: String,
    pub scope: Scope,
    pub source: Option<String>,
    pub confidence: Option<String>,
    /// The slug that is asked for.
    pub slug: Option<String>,
}

/// The frontmatter that a proposal starts from.
pub open spec fn base_front(p: Proposal, content: Content, now: Seq<char>) -> FrontView {
    match content {
        Content::File { front, body } => front@,
        Content::Body(_) => FrontView {
            id: seq![],
            kind: p.kind@,
            status: seq![],
            scope: p.scope@,
            source: p.source.deep_view(),
            confidence: match p.confidence {
                Some(c) => c@,
                None => "medium"@,
            },
            created: now,
            verified_at: None,
            supersedes: None,
            author: None,
            author_proof: None,
            contributors: seq![],
            review_cycle: 0,
            active_operation: None,
            reviews: seq![],
            finalizations: seq![],
        },
    }
}

pub open spec fn content_body(content: Content) -> Seq<char> {
    match content {
        Content::File { front, body } => body@,
        Content::Body(b) => b@,
    }
}

/// The memory that a proposal makes: by the actor alone, and without a
/// review or a finalization, whatever its content claims.
pub open spec fn proposed(
    p: Proposal,
    content: Content,
    slugified: Seq<char>,
    key: Seq<char>,
    dir: Seq<char>,
    actor: ProofView,
    now: Seq<char>,
) -> MemoryView {
    let slug = proposal_slug(p.slug.deep_view(), slugified);
    MemoryView {
        project: key,
        front: FrontView {
            id: slug,
            status: "proposed"@,
            verified_at: None,
            author: Some(actor.alias),
            author_proof: Some(actor),
            contributors: seq![],
            review_cycle: 0,
            active_operation: None,
            reviews: seq![],
            finalizations: seq![],
            ..base_front(p, content, now)
        },
        body: content_body(content),
        path: paths::join(dir, slug + ".md"@),
    }
}

/// The content names contributors.
pub open spec fn names_contributors(content: Content) -> bool {
    match content {
        Content::File { front, body } => front@.contributors.len() > 0,
        Content::Body(_) => false,
    }
}

/// Why a proposal is refused, if it is.
pub open spec fn proposal_refusal(
    p: Proposal,
    content: Content,
    slugified: Seq<char>,
    key: Seq<char>,
    dir: Seq<char>,
    components: Seq<Seq<char>>,
    actor: ProofView,
    now: Seq<char>,
) -> Option<Seq<char>> {
    let slug = proposal_slug(p.slug.deep_view(), slugified);
    if !actor.valid() {
        Some("native proposer identity is incomplete"@)
    } else if !memory::slug(slug) {
        Some(memory::bad_slug(slug))
    } else if names_contributors(content) {
        Some(
            "authenticated multi-contributor proposals are unsupported; submit one native author proposal and review it independently"@,
        )
    } else {
        check::fault(proposed(p, content, slugified, key, dir, actor, now), components)
    }
}

fn start_front(p: &Proposal, content: Content, now: &str) -> (r: (Front, String))
    ensures
        r.0@ == base_front(*p, content, now@),
        r.1@ == content_body(content),
{
    match content {
        Content::File { front, body } => (front, body),
        Content::Body(b) => {
            let e = String::new();
            let f = Front {
                id: String::new(),
                kind: p.kind.clone(),
                status: e,
                scope: p.scope.copy(),
                source: text::opt_copy(&p.source),
                confidence: match &p.confidence {
                    Some(c) => c.clone(),
                    None => "medium".to_owned(),
                },
                created: now.to_owned(),
                verified_at: None,
                supersedes: None,
                author: None,
                author_proof: None,
                contributors: Vec::new(),
                review_cycle: 0,
                active_operation: None,
                reviews: Vec::new(),
                finalizations: Vec::new(),
            };
            proof {
                let w = base_front(*p, content, now@);
                assert(f@.id =~= w.id);
                assert(f@.status =~= w.status);
                assert(f@.contributors =~= w.contributors);
                assert(f@.reviews =~= w.reviews);
                assert(f@.finalizations =~= w.finalizations);
            }
            (f, b)
        },
    }
}

fn has_contributors(content: &Content) -> (r: bool)
    ensures
        r == names_contributors(*content),
{
    match content {
        Content::File { front, body } => front.contributors.len() > 0,
        Content::Body(_) => false,
    }
}

/// Makes the memory of a proposal. `slugified` is what the first line of
/// the fact gives, and `dir` where the project's memories are.
pub fn propose_native(
    p: &Proposal,
    content: Content,
    slugified: &str,
    key: &str,
    dir: &str,
    components: &Vec<String>,
    actor: &NativeIdentity,
    now: &str,
) -> (r: Result<Memory, Error>)
    ensures
        match r {
            Ok(m) => proposal_refusal(
                *p,
                content,
                slugified@,
                key@,
                dir@,
                components.deep_view(),
                actor.proof@,
                now@,
            ) is None && m@ == proposed(
                *p,
                content,
                slugified@,
                key@,
                dir@,
                actor.proof@,
                now@,
            ),
            Err(e) => e is Rejected && proposal_refusal(
                *p,
                content,
                slugified@,
                key@,
                dir@,
                components.deep_view(),
                actor.proof@,
                now@,
            ) == Some(e.text()),
        },
{
    if !actor.proof.is_valid() {
        return Err(rejected("native proposer identity is incomplete"));
    }
    let slug = match check_slug(
        choose_slug(text::opt_str(&p.slug), slugified).as_str(),
    ) {
        Ok(s) => s,
        Err(e) => {
            return Err(e);
        },
    };
    if has_contributors(&content) {
        return Err(
            rejected(
                "authenticated multi-contributor proposals are unsupported; submit one native author proposal and review it independently",
            ),
        );
    }
    let ghost base = base_front(*p, content, now@);
    let (front, body) = start_front(p, content, now);
    let path = paths::join_of(dir, slug.clone().concat(".md").as_str());
    let front = Front {
        id: slug,
        kind: front.kind,
        status: "proposed".to_owned(),
        scope: front.scope,
        source: front.source,
        confidence: front.confidence,
        created: front.created,
        verified_at: None,
        supersedes: front.supersedes,
        author: Some(actor.proof.alias.clone()),
        author_proof: Some(actor.proof.copy()),
        contributors: Vec::new(),
        review_cycle: 0,
        active_operation: None,
        reviews: Vec::new(),
        finalizations: Vec::new(),
    };
    let mem = Memory { project: key.to_owned(), front, body, path };
    proof {
        let w = proposed(*p, content, slugified@, key@, dir@, actor.proof@, now@);
        assert(mem@.front.contributors =~= w.front.contributors);
        assert(mem@.front.reviews =~= w.front.reviews);
        assert(mem@.front.finalizations =~= w.front.finalizations);
        assert(mem@ == w);
    }
    if let Err(e) = check_front(&mem, components) {
        return Err(e);
    }
    Ok(mem)
}

/// A proposal never overwrites.
pub fn refuse_existing(slug: &str, exists: bool) -> (r: Result<(), Error>)
    ensures
        match r {
            Ok(_) => !exists,
            Err(e) => exists && e is Rejected && e.text() == "Memory '"@ + slug@
                + "' already exists — use a new authenticated proposal"@,
        },
{
    if exists {
        Err(
            Error::Rejected(
                "Memory '".to_owned().concat(slug).concat(
                    "' already exists — use a new authenticated proposal",
                ),
            ),
        )
    } else {
        Ok(())
    }
}

// ---------- reviews ----------

/// A review as it is submitted.
#[derive(Debug)]
pub struct ReviewRequest<'a> {
    pub operation: &'a str,
    pub verdict: &'a str,
    pub evidence: &'a str,
    pub expected_digest: &'a str,
}

pub open spec fn hex_char(c: char) -> bool {
    ('0' <= c && c <= '9') || ('a' <= c && c <= 'f') || ('A' <= c && c <= 'F')
}

/// 64 hex digits.
pub open spec fn is_digest(s: Seq<char>) -> bool {
    s.len() == 64 && forall|i: int| 0 <= i < s.len() ==> hex_char(#[trigger] s[i])
}

fn looks_like_digest(s: &str) -> (r: bool)
    ensures
        r == is_digest(s@),
{
    let v = text::chars_of(s);
    if v.len() != 64 {
        return false;
    }
    let mut i: usize = 0;
    while i < v.len()
        invariant
            v@ == s@,
            i <= v@.len(),
            forall|k: int| 0 <= k < i ==> hex_char(#[trigger] v@[k]),
        decreases v.len() - i,
    {
        let c = v[i];
        if !(('0' <= c && c <= '9') || ('a' <= c && c <= 'f') || ('A' <= c && c <= 'F')) {
            assert(!hex_char(s@[i as int]));
            return false;
        }
        i = i + 1;
    }
    true
}

/// What is wrong with a review before any memory is looked at.
pub open spec fn request_fault(q: ReviewRequest, actor: ProofView) -> Option<Seq<char>> {
    if !is_operation(q.operation@) {
        Some("memory review operation must be accept or verify"@)
    } else if q.verdict@ != "pass"@ && q.verdict@ != "revise"@ {
        Some("memory review verdict must be pass or revise"@)
    } else if !actor.valid() {
        Some("authenticated PM or worker identity is incomplete"@)
    } else if body::blank(q.evidence@) {
        Some("memory review evidence must be nonempty"@)
    } else if vstd::utf8::encode_utf8(text::trim(q.evidence@)).len() > 16384 {
        Some("memory review evidence is too long"@)
    } else if !is_digest(q.expected_digest@) {
        Some("memory review requires a SHA-256 content digest"@)
    } else {
        None
    }
}

pub fn check_review(q: &ReviewRequest<'_>, actor: &NativeIdentity) -> (r: Result<(), Error>)
    ensures
        match r {
            Ok(_) => request_fault(*q, actor.proof@) is None,
            Err(e) => e is Rejected && request_fault(*q, actor.proof@) == Some(e.text()),
        },
{
    if !operation_known(q.operation) {
        return Err(rejected("memory review operation must be accept or verify"));
    }
    if !text::eq(q.verdict, "pass") && !text::eq(q.verdict, "revise") {
        return Err(rejected("memory review verdict must be pass or revise"));
    }
    if !actor.proof.is_valid() {
        return Err(rejected("authenticated PM or worker identity is incomplete"));
    }
    if body::is_blank(q.evidence) {
        return Err(rejected("memory review evidence must be nonempty"));
    }
    if text::byte_len(text::trim_of(q.evidence).as_str()) > 16384 {
        return Err(rejected("memory review evidence is too long"));
    }
    if !looks_like_digest(q.expected_digest) {
        return Err(rejected("memory review requires a SHA-256 content digest"));
    }
    Ok(())
}

/// The cycle that a new verification opens: after every cycle before it.
pub open spec fn next_verify(f: FrontView) -> u64 {
    let last = match quorum::latest(f.finalizations, "verify"@) {
        Some(r) => r.cycle,
        None => 1,
    };
    let top = if last >= f.review_cycle {
        last
    } else {
        f.review_cycle
    };
    if top == u64::MAX {
        top
    } else if top + 1 < 2 {
        2
    } else {
        (top + 1) as u64
    }
}

/// The frontmatter with the operation's cycle open.
pub open spec fn opened(f: FrontView, operation: Seq<char>) -> FrontView {
    if f.active_operation is Some {
        f
    } else {
        FrontView {
            active_operation: Some(operation),
            review_cycle: if operation == "accept"@ {
                1
            } else {
                next_verify(f)
            },
            ..f
        }
    }
}

/// Why no review of the operation can be taken now.
pub open spec fn cycle_fault(f: FrontView, operation: Seq<char>) -> Option<Seq<char>> {
    if operation == "accept"@ && f.status != "proposed"@ {
        Some("accept reviews require a proposed memory"@)
    } else if operation == "verify"@ && f.status != "accepted"@ {
        Some("verify reviews require an accepted memory"@)
    } else {
        match f.active_operation {
            Some(other) => if other != operation {
                Some("memory has an active "@ + other + " review cycle"@)
            } else {
                None
            },
            None => None,
        }
    }
}

pub open spec fn reviewed_by(r: ReceiptView, operation: Seq<char>, cycle: u64, who: ProofView) -> bool {
    r.operation == operation && r.cycle == cycle && (r.identity == who.id() || r.reviewer
        == who.alias)
}

pub open spec fn already(f: FrontView, operation: Seq<char>, cycle: u64, who: ProofView) -> bool {
    exists|i: int|
        0 <= i < f.reviews.len() && reviewed_by(#[trigger] f.reviews[i], operation, cycle, who)
}

pub open spec fn changed_text(expected: Seq<char>, current: Seq<char>) -> Seq<char> {
    "memory revision changed — expected "@ + expected + ", current "@ + current
}

/// Why a review is refused, if it is.
pub open spec fn review_refusal(
    m: MemoryView,
    components: Seq<Seq<char>>,
    q: ReviewRequest,
    actor: ProofView,
) -> Option<Seq<char>> {
    let op = q.operation@;
    if request_fault(q, actor) is Some {
        request_fault(q, actor)
    } else if memory::digest(m) != q.expected_digest@ {
        Some(changed_text(q.expected_digest@, memory::digest(m)))
    } else if m.front.author_proof is None {
        Some(
            "legacy memory has no authenticated proposer; create a corrected native proposal"@,
        )
    } else if quorum::same_party(actor, m.front.author_proof->0) {
        Some("memory author cannot review its own proposal"@)
    } else if cycle_fault(m.front, op) is Some {
        cycle_fault(m.front, op)
    } else if already(m.front, op, opened(m.front, op).review_cycle, actor) {
        Some("this native agent already reviewed the current memory cycle"@)
    } else {
        check::fault(m, components)
    }
}

/// The receipt of a review.
pub open spec fn receipt(
    q: ReviewRequest,
    actor: ProofView,
    cycle: u64,
    digest: Seq<char>,
    now: Seq<char>,
) -> ReceiptView {
    ReceiptView {
        reviewer: actor.alias,
        identity: actor.id(),
        generation: actor.generation,
        process_start: actor.process_start,
        role: actor.role,
        operation: q.operation@,
        cycle,
        digest,
        verdict: q.verdict@,
        evidence: text::trim(q.evidence@),
        recorded_at: now,
    }
}

/// The memory with one more review, in a cycle that is open.
pub open spec fn reviewed(m: MemoryView, q: ReviewRequest, actor: ProofView, now: Seq<char>) -> MemoryView {
    let f = opened(m.front, q.operation@);
    MemoryView {
        front: FrontView {
            reviews: f.reviews.push(
                receipt(q, actor, f.review_cycle, memory::digest(m), now),
            ),
            ..f
        },
        ..m
    }
}

fn next_verify_cycle(front: &Front) -> (r: u64)
    ensures
        r == next_verify(front@),
{
    let mut top: u64 = 1;
    let ghost d = front@.finalizations;
    let mut i: usize = 0;
    let mut found = false;
    assert(d.take(0) =~= Seq::empty());
    while i < front.finalizations.len()
        invariant
            d == memory::final_views(front.finalizations@),
            i <= front.finalizations@.len(),
            found == (quorum::latest(d.take(i as int), "verify"@) is Some),
            found ==> top == quorum::latest(d.take(i as int), "verify"@)->0.cycle,
            !found ==> top == 1,
        decreases front.finalizations.len() - i,
    {
        assert(d.take(i + 1).drop_last() =~= d.take(i as int));
        let r = &front.finalizations[i];
        assert(d.take(i + 1).last() == r@);
        if text::eq(r.operation.as_str(), "verify") && (!found || r.cycle >= top) {
            top = r.cycle;
            found = true;
        }
        i = i + 1;
    }
    assert(d.take(i as int) =~= d);
    if front.review_cycle > top {
        top = front.review_cycle;
    }
    if top == u64::MAX {
        top
    } else if top + 1 < 2 {
        2
    } else {
        top + 1
    }
}

fn check_cycle(front: &Front, operation: &str) -> (r: Result<(), Error>)
    ensures
        match r {
            Ok(_) => cycle_fault(front@, operation@) is None,
            Err(e) => e is Rejected && cycle_fault(front@, operation@) == Some(e.text()),
        },
{
    if text::eq(operation, "accept") && !text::eq(front.status.as_str(), "proposed") {
        return Err(rejected("accept reviews require a proposed memory"));
    }
    if text::eq(operation, "verify") && !text::eq(front.status.as_str(), "accepted") {
        return Err(rejected("verify reviews require an accepted memory"));
    }
    if let Some(other) = &front.active_operation {
        if !text::eq(other.as_str(), operation) {
            return Err(
                Error::Rejected(
                    "memory has an active ".to_owned().concat(other.as_str()).concat(
                        " review cycle",
                    ),
                ),
            );
        }
    }
    Ok(())
}

fn is_already(front: &Front, operation: &str, cycle: u64, who: &NativeIdentity) -> (r: bool)
    ensures
        r == already(front@, operation@, cycle, who.proof@),
{
    let ghost d = front@.reviews;
    let id = who.stable_id();
    let mut i: usize = 0;
    while i < front.reviews.len()
        invariant
            d == memory::receipt_views(front.reviews@),
            d == front@.reviews,
            id@ == who.proof@.id(),
            i <= front.reviews@.len(),
            forall|k: int|
                0 <= k < i ==> !reviewed_by(#[trigger] d[k], operation@, cycle, who.proof@),
        decreases front.reviews.len() - i,
    {
        let r = &front.reviews[i];
        assert(d[i as int] == r@);
        if text::eq(r.operation.as_str(), operation) && r.cycle == cycle && (text::eq(
            r.identity.as_str(),
            id.as_str(),
        ) || text::eq(r.reviewer.as_str(), who.proof.alias.as_str())) {
            assert(reviewed_by(front@.reviews[i as int], operation@, cycle, who.proof@));
            return true;
        }
        i = i + 1;
    }
    false
}

fn open_cycle(front: Front, operation: &str) -> (r: Front)
    ensures
        r@ == opened(front@, operation@),
{
    if front.active_operation.is_some() {
        return front;
    }
    let cycle: u64 = if text::eq(operation, "accept") {
        1
    } else {
        next_verify_cycle(&front)
    };
    let ghost f0 = front@;
    let mut front = front;
    front.review_cycle = cycle;
    front.active_operation = Some(operation.to_owned());
    front
}

fn changed(expected: &str, current: &str) -> (r: Error)
    ensures
        r is Rejected,
        r.text() == changed_text(expected@, current@),
{
    Error::Rejected(
        "memory revision changed — expected ".to_owned().concat(expected).concat(
            ", current ",
        ).concat(current),
    )
}

fn check_reviewable(
    mem: &Memory,
    components: &Vec<String>,
    q: &ReviewRequest<'_>,
    actor: &NativeIdentity,
    digest: &str,
) -> (r: Result<(), Error>)
    requires
        digest@ == memory::digest(mem@),
    ensures
        match r {
            Ok(_) => review_refusal(mem@, components.deep_view(), *q, actor.proof@) is None,
            Err(e) => e is Rejected && review_refusal(
                mem@,
                components.deep_view(),
                *q,
                actor.proof@,
            ) == Some(e.text()),
        },
{
    if let Err(e) = check_review(q, actor) {
        return Err(e);
    }
    if !text::eq(digest, q.expected_digest) {
        return Err(changed(q.expected_digest, digest));
    }
    match &mem.front.author_proof {
        None => {
            return Err(
                rejected(
                    "legacy memory has no authenticated proposer; create a corrected native proposal",
                ),
            );
        },
        Some(author) => {
            if text::eq(actor.stable_id().as_str(), author.stable_id().as_str()) || text::eq(
                actor.proof.alias.as_str(),
                author.alias.as_str(),
            ) {
                return Err(rejected("memory author cannot review its own proposal"));
            }
        },
    }
    if let Err(e) = check_cycle(&mem.front, q.operation) {
        return Err(e);
    }
    let cycle: u64 = if mem.front.active_operation.is_some() {
        mem.front.review_cycle
    } else if text::eq(q.operation, "accept") {
        1
    } else {
        next_verify_cycle(&mem.front)
    };
    if is_already(&mem.front, q.operation, cycle, actor) {
        return Err(rejected("this native agent already reviewed the current memory cycle"));
    }
    check_front(mem, components)
}

/// Takes one review. It binds the digest that was read; a memory
/// that has changed since is refused.
pub fn submit_review(
    mem: Memory,
    components: &Vec<String>,
    q: &ReviewRequest<'_>,
    actor: &NativeIdentity,
    now: &str,
) -> (r: Result<Memory, Error>)
    ensures
        match r {
            Ok(m) => review_refusal(mem@, components.deep_view(), *q, actor.proof@) is None && m@
                == reviewed(mem@, *q, actor.proof@, now@),
            Err(e) => e is Rejected && review_refusal(
                mem@,
                components.deep_view(),
                *q,
                actor.proof@,
            ) == Some(e.text()),
        },
{
    let digest = semantic_digest(&mem);
    if let Err(e) = check_reviewable(&mem, components, q, actor, digest.as_str()) {
        return Err(e);
    }
    let ghost m0 = mem@;
    let mut front = open_cycle(mem.front, q.operation);
    let cycle: u64 = front.review_cycle;
    let ghost before = front.reviews@;
    let new = ReviewReceipt {
        reviewer: actor.proof.alias.clone(),
        identity: actor.stable_id(),
        generation: actor.proof.generation.clone(),
        process_start: actor.proof.process_start,
        role: actor.proof.role.clone(),
        operation: q.operation.to_owned(),
        cycle,
        digest,
        verdict: q.verdict.to_owned(),
        evidence: text::trim_of(q.evidence),
        recorded_at: now.to_owned(),
    };
    let ghost nv = new@;
    front.reviews.push(new);
    assert(memory::receipt_views(front.reviews@) =~= memory::receipt_views(before).push(nv));
    Ok(Memory { project: mem.project, front, body: mem.body, path: mem.path })
}

// ---------- finalizations ----------

/// Why a finalization is refused, if it is.
pub open spec fn final_refusal(
    m: MemoryView,
    components: Seq<Seq<char>>,
    operation: Seq<char>,
    expected: Seq<char>,
    actor: ProofView,
) -> Option<Seq<char>> {
    if finalizer_fault(operation, actor) is Some {
        finalizer_fault(operation, actor)
    } else if memory::digest(m) != expected {
        Some(changed_text(expected, memory::digest(m)))
    } else if quorum::took_part(m.front, actor) {
        Some(
            "memory proposer or contributor cannot finalize its own acceptance or verification"@,
        )
    } else {
        match quorum::cycle_of(m.front, operation) {
            None => if quorum::finalized(m.front, operation) {
                Some(
                    "memory "@ + operation
                        + " review cycle was already finalized; submit a fresh review cycle"@,
                )
            } else {
                Some("memory has no active "@ + operation + " review cycle"@)
            },
            Some(c) => if finalized_in(m.front, operation, c) {
                Some(
                    "memory "@ + operation + " review cycle "@ + text::dec(c as nat)
                        + " was already finalized"@,
                )
            } else if !quorum::standing(m, operation).0 {
                Some(quorum::standing(m, operation).1)
            } else {
                check::fault(closed(m, operation, expected, actor, seq![]), components)
            },
        }
    }
}

pub open spec fn finalized_in(f: FrontView, operation: Seq<char>, cycle: u64) -> bool {
    exists|i: int|
        0 <= i < f.finalizations.len() && (#[trigger] f.finalizations[i]).operation == operation
            && f.finalizations[i].cycle == cycle
}

/// The memory with the operation's cycle finalized and closed.
pub open spec fn closed(
    m: MemoryView,
    operation: Seq<char>,
    digest: Seq<char>,
    actor: ProofView,
    now: Seq<char>,
) -> MemoryView {
    MemoryView {
        front: FrontView {
            status: if operation == "accept"@ {
                "accepted"@
            } else {
                m.front.status
            },
            verified_at: Some(now),
            finalizations: m.front.finalizations.push(
                FinalView {
                    operation,
                    cycle: m.front.review_cycle,
                    digest,
                    finalizer: actor,
                    finalized_at: now,
                },
            ),
            active_operation: None,
            ..m.front
        },
        ..m
    }
}

fn is_finalized_in(front: &Front, operation: &str, cycle: u64) -> (r: bool)
    ensures
        r == finalized_in(front@, operation@, cycle),
{
    let ghost d = front@.finalizations;
    let mut i: usize = 0;
    while i < front.finalizations.len()
        invariant
            d == memory::final_views(front.finalizations@),
            d == front@.finalizations,
            i <= front.finalizations@.len(),
            forall|k: int|
                0 <= k < i ==> !((#[trigger] d[k]).operation == operation@ && d[k].cycle == cycle),
        decreases front.finalizations.len() - i,
    {
        assert(d[i as int] == front.finalizations@[i as int]@);
        if text::eq(front.finalizations[i].operation.as_str(), operation)
            && front.finalizations[i].cycle == cycle {
            assert(front@.finalizations[i as int].operation == operation@);
            return true;
        }
        i = i + 1;
    }
    false
}

/// Why the cycle cannot be finalized, or its number.
/// What refuses a finalization before the memory is looked at.
pub open spec fn finalizer_fault(operation: Seq<char>, actor: ProofView) -> Option<Seq<char>> {
    if !actor.valid() || actor.role != "pm"@ {
        Some("memory finalization is restricted to an authenticated PM endpoint"@)
    } else if !is_operation(operation) {
        Some("memory finalization operation is unsupported"@)
    } else {
        None
    }
}

/// Who may finalize, and what.
pub fn check_finalizer(operation: &str, actor: &NativeIdentity) -> (r: Result<(), Error>)
    ensures
        match r {
            Ok(_) => finalizer_fault(operation@, actor.proof@) is None,
            Err(e) => e is Rejected && finalizer_fault(operation@, actor.proof@) == Some(e.text()),
        },
{
    if !actor.proof.is_valid() || !text::eq(actor.proof.role.as_str(), "pm") {
        return Err(
            rejected("memory finalization is restricted to an authenticated PM endpoint"),
        );
    }
    if !operation_known(operation) {
        return Err(rejected("memory finalization operation is unsupported"));
    }
    Ok(())
}

fn check_final(
    mem: &Memory,
    operation: &str,
    expected: &str,
    actor: &NativeIdentity,
) -> (r: Result<u64, Error>)
    ensures
        match r {
            Ok(c) => {
                &&& actor.proof@.valid() && actor.proof@.role == "pm"@ && is_operation(operation@)
                &&& memory::digest(mem@) == expected@
                &&& !quorum::took_part(mem@.front, actor.proof@)
                &&& quorum::cycle_of(mem@.front, operation@) == Some(c)
                &&& !finalized_in(mem@.front, operation@, c)
                &&& quorum::standing(mem@, operation@).0
            },
            Err(e) => e is Rejected && forall|components: Seq<Seq<char>>|
                #![trigger final_refusal(mem@, components, operation@, expected@, actor.proof@)]
                final_refusal(mem@, components, operation@, expected@, actor.proof@) == Some(
                    e.text(),
                ),
        },
{
    if let Err(e) = check_finalizer(operation, actor) {
        return Err(e);
    }
    let digest = semantic_digest(mem);
    if !text::eq(digest.as_str(), expected) {
        return Err(changed(expected, digest.as_str()));
    }
    if proposal_identity_matches(&mem.front, &actor.proof) {
        return Err(
            rejected(
                "memory proposer or contributor cannot finalize its own acceptance or verification",
            ),
        );
    }
    let cycle: u64 = match operation_cycle(&mem.front, operation) {
        None => {
            if is_finalized(&mem.front, operation) {
                return Err(
                    Error::Rejected(
                        "memory ".to_owned().concat(operation).concat(
                            " review cycle was already finalized; submit a fresh review cycle",
                        ),
                    ),
                );
            }
            return Err(
                Error::Rejected(
                    "memory has no active ".to_owned().concat(operation).concat(" review cycle"),
                ),
            );
        },
        Some(c) => c,
    };
    if is_finalized_in(&mem.front, operation, cycle) {
        return Err(
            Error::Rejected(
                "memory ".to_owned().concat(operation).concat(" review cycle ").concat(
                    text::dec_of(cycle).as_str(),
                ).concat(" was already finalized"),
            ),
        );
    }
    let (ok, why) = quorum_status(mem, operation);
    if !ok {
        return Err(Error::Rejected(why));
    }
    Ok(cycle)
}

/// Finalizes the live cycle of an operation: a PM who took no part in the
/// proposal, on the digest at hand, and only where its quorum stands.
pub fn finalize_native(
    mem: Memory,
    components: &Vec<String>,
    operation: &str,
    expected_digest: &str,
    actor: &NativeIdentity,
    now: &str,
) -> (r: Result<Memory, Error>)
    ensures
        match r {
            Ok(m) => final_refusal(
                mem@,
                components.deep_view(),
                operation@,
                expected_digest@,
                actor.proof@,
            ) is None && m@ == closed(
                mem@,
                operation@,
                expected_digest@,
                actor.proof@,
                now@,
            ),
            Err(e) => e is Rejected && final_refusal(
                mem@,
                components.deep_view(),
                operation@,
                expected_digest@,
                actor.proof@,
            ) == Some(e.text()),
        },
{
    let ghost comp = components.deep_view();
    let cycle: u64 = match check_final(&mem, operation, expected_digest, actor) {
        Ok(c) => c,
        Err(e) => {
            assert(final_refusal(mem@, comp, operation@, expected_digest@, actor.proof@) == Some(
                e.text(),
            ));
            return Err(e);
        },
    };
    let ghost m0 = mem@;
    let mut mem = mem;
    if text::eq(operation, "accept") {
        mem.front.status = "accepted".to_owned();
    }
    let ghost before = mem.front.finalizations@;
    let new = FinalizationReceipt {
        operation: operation.to_owned(),
        cycle,
        digest: expected_digest.to_owned(),
        finalizer: actor.proof.copy(),
        finalized_at: now.to_owned(),
    };
    let ghost nv = new@;
    mem.front.verified_at = Some(now.to_owned());
    mem.front.finalizations.push(new);
    mem.front.active_operation = None;
    assert(memory::final_views(mem.front.finalizations@) =~= memory::final_views(before).push(nv));
    assert(mem@ == closed(m0, operation@, expected_digest@, actor.proof@, now@));
    assert(check::fault(mem@, comp) == check::fault(
        closed(m0, operation@, expected_digest@, actor.proof@, seq![]),
        comp,
    ));
    if let Err(e) = check_front(&mem, components) {
        return Err(e);
    }
    Ok(mem)
}

// ---------- rejection ----------

pub open spec fn dropped(m: MemoryView) -> MemoryView {
    MemoryView {
        front: FrontView {
            status: "rejected"@,
            verified_at: None,
            active_operation: None,
            ..m.front
        },
        ..m
    }
}

/// Who may reject.
pub fn check_rejecter(actor: &NativeIdentity) -> (r: Result<(), Error>)
    ensures
        match r {
            Ok(_) => actor.proof@.valid() && actor.proof@.role == "pm"@,
            Err(e) => !(actor.proof@.valid() && actor.proof@.role == "pm"@) && e is Rejected
                && e.text() == "memory rejection is restricted to an authenticated PM endpoint"@,
        },
{
    if !actor.proof.is_valid() || !text::eq(actor.proof.role.as_str(), "pm") {
        return Err(rejected("memory rejection is restricted to an authenticated PM endpoint"));
    }
    Ok(())
}

pub open spec fn reject_refusal(m: MemoryView, components: Seq<Seq<char>>, actor: ProofView) -> Option<
    Seq<char>,
> {
    if !actor.valid() || actor.role != "pm"@ {
        Some("memory rejection is restricted to an authenticated PM endpoint"@)
    } else if m.front.status == "superseded"@ {
        Some("a superseded memory cannot be rejected"@)
    } else {
        check::fault(dropped(m), components)
    }
}

/// Rejects a memory. It upgrades nothing and clears no history.
pub fn reject_native(mem: Memory, components: &Vec<String>, actor: &NativeIdentity) -> (r: Result<
    Memory,
    Error,
>)
    ensures
        match r {
            Ok(m) => reject_refusal(mem@, components.deep_view(), actor.proof@) is None && m@
                == dropped(mem@),
            Err(e) => e is Rejected && reject_refusal(
                mem@,
                components.deep_view(),
                actor.proof@,
            ) == Some(e.text()),
        },
{
    if let Err(e) = check_rejecter(actor) {
        return Err(e);
    }
    if text::eq(mem.front.status.as_str(), "superseded") {
        return Err(rejected("a superseded memory cannot be rejected"));
    }
    let ghost m0 = mem@;
    let mut mem = mem;
    mem.front.status = "rejected".to_owned();
    mem.front.verified_at = None;
    mem.front.active_operation = None;
    assert(mem@ == dropped(m0));
    if let Err(e) = check_front(&mem, components) {
        return Err(e);
    }
    Ok(mem)
}

/// Superseding writes two files, and nothing could recover a half-written
/// pair; it is refused.
pub fn supersede_native() -> (r: Error)
    ensures
        r is Rejected,
        r.text()
            == "memory supersede is unsupported until crash-atomic pair recovery is available"@,
{
    rejected("memory supersede is unsupported until crash-atomic pair recovery is available")
}

// ---------- files and commits ----------

/// The file of a memory: its frontmatter between fences, a blank line,
/// and its body as it is.
pub open spec fn file_text(yaml: Seq<char>, body: Seq<char>) -> Seq<char> {
    "---\n"@ + yaml + "---\n\n"@ + body
}

pub fn render_memory(yaml: &str, body: &str) -> (r: String)
    ensures
        r@ == file_text(yaml@, body@),
{
    "---\n".to_owned().concat(yaml).concat("---\n\n").concat(body)
}

/// A closing fence stands at `i`: a line of its own.
pub open spec fn fence_at(s: Seq<char>, i: int) -> bool {
    0 <= i && i + 4 <= s.len() && (i == 0 || s[i - 1] == '\n') && s.subrange(i, i + 4)
        == "---\n"@
}

/// The first closing fence at `i` or after it.
pub open spec fn fence_from(s: Seq<char>, i: int) -> Option<int>
    decreases s.len() - i,
{
    if i + 4 > s.len() {
        None
    } else if fence_at(s, i) {
        Some(i)
    } else {
        fence_from(s, i + 1)
    }
}

/// The frontmatter and the body of a file: what stands between the fences,
/// and what follows the blank line after them.
pub open spec fn split_file(s: Seq<char>) -> Option<(Seq<char>, Seq<char>)> {
    if !text::begins(s, "---\n"@) {
        None
    } else {
        let rest = s.skip(4);
        match fence_from(rest, 0) {
            None => None,
            Some(i) => {
                let after = rest.skip(i + 4);
                Some(
                    (
                        rest.take(i),
                        if after.len() > 0 && after[0] == '\n' {
                            after.skip(1)
                        } else {
                            after
                        },
                    ),
                )
            },
        }
    }
}

/// Splits the file of a memory into its frontmatter and its body.
pub fn split_front(file: &str) -> (r: Option<(String, String)>)
    ensures
        match (r, split_file(file@)) {
            (Some(p), Some(w)) => p.0@ == w.0 && p.1@ == w.1,
            (None, None) => true,
            _ => false,
        },
{
    if !text::starts_with(file, "---\n") {
        return None;
    }
    proof {
        reveal_strlit("---\n");
    }
    let v = text::chars_of(file);
    let ghost rest = file@.skip(4);
    assert(v@.len() >= 4);
    let mut i: usize = 4;
    while i <= v.len() - 4
        invariant
            v@ == file@,
            rest == file@.skip(4),
            4 <= i <= v@.len(),
            v@.len() >= 4,
            "---\n"@ =~= seq!['-', '-', '-', '\n'],
            fence_from(rest, 0) == fence_from(rest, i - 4),
            text::begins(file@, "---\n"@),
        decreases v.len() - i,
    {
        let fence = (i == 4 || v[i - 1] == '\n') && v[i] == '-' && v[i + 1] == '-' && v[i + 2]
            == '-' && v[i + 3] == '\n';
        proof {
            let t = rest.subrange(i - 4, i as int);
            assert(t[0] == v@[i as int] && t[1] == v@[i + 1] && t[2] == v@[i + 2] && t[3] == v@[i
                + 3]);
            if fence {
                assert(t =~= "---\n"@);
            }
            assert(fence == fence_at(rest, i - 4));
        }
        if fence {
            let yaml = text::string_of(v.as_slice(), 4, i);
            assert(yaml@ =~= rest.take(i - 4));
            let from: usize = if i + 4 < v.len() && v[i + 4] == '\n' {
                i + 5
            } else {
                i + 4
            };
            let body = text::string_of(v.as_slice(), from, v.len());
            proof {
                let after = rest.skip(i as int);
                assert(after.len() > 0 ==> after[0] == v@[i + 4]);
                if from == i + 5 {
                    assert(body@ =~= after.skip(1));
                } else {
                    assert(body@ =~= after);
                }
            }
            return Some((yaml, body));
        }
        i = i + 1;
    }
    None
}

/// A memory from its file, and from what its frontmatter decoded to.
pub fn parse_memory(file: &str, front: Result<Front, String>) -> (r: Result<(Front, String), Error>)
    ensures
        match (split_file(file@), front) {
            (None, _) => r is Err && (r->Err_0) is Rejected && (r->Err_0).text()
                == "memory has no frontmatter"@,
            (Some(p), Err(why)) => r is Err && (r->Err_0) is Rejected && (r->Err_0).text()
                == "memory frontmatter is not valid YAML: "@ + why@,
            (Some(p), Ok(f)) => r is Ok && (r->Ok_0).0 == f && (r->Ok_0).1@ == p.1,
        },
{
    match split_front(file) {
        None => Err(Error::Rejected("memory has no frontmatter".to_owned())),
        Some((_yaml, body)) => match front {
            Ok(f) => Ok((f, body)),
            Err(why) => Err(
                Error::Rejected(
                    "memory frontmatter is not valid YAML: ".to_owned().concat(why.as_str()),
                ),
            ),
        },
    }
}

/// The message of a memory's commit.
pub fn commit_message(subject: &str, slug: &str, who: &str) -> (r: String)
    ensures
        r@ == subject@ + "\n\nMemory: "@ + slug@ + "\nActor: "@ + who@ + "\n"@,
{
    subject.to_owned().concat("\n\nMemory: ").concat(slug).concat("\nActor: ").concat(who).concat(
        "\n",
    )
}

/// A commit was made: the head was there and moved.
pub fn was_committed(before: &str, after: &str) -> (r: bool)
    ensures
        r == (before@.len() > 0 && before@ != after@),
{
    proof {
        reveal_strlit("");
        assert(before@.len() == 0 ==> before@ =~= ""@);
    }
    !text::eq(before, "") && !text::eq(before, after)
}

// ---------- laws ----------

/// A body survives being written and read again, to the last character,
/// where the frontmatter ends its last line and holds no fence.
#[verifier::spinoff_prover]
pub proof fn a_body_round_trips(yaml: Seq<char>, body: Seq<char>)
    requires
        yaml.len() > 0 ==> yaml.last() == '\n',
        forall|i: int| 0 <= i <= yaml.len() - 4 ==> !#[trigger] fence_at(yaml, i),
    ensures
        split_file(file_text(yaml, body)) == Some((yaml, body)),
{
    file_pieces(yaml, body);
    no_fence_before(yaml, file_text(yaml, body).skip(4), 0);
}

/// A file begins with a fence; behind it stand the frontmatter, the next
/// fence, an empty line and the body.
#[verifier::spinoff_prover]
proof fn file_pieces(yaml: Seq<char>, body: Seq<char>)
    ensures
        "---\n"@ == seq!['-', '-', '-', '\n'],
        ({
            let s = file_text(yaml, body);
            let rest = s.skip(4);
            let n = yaml.len() as int;
            &&& s.len() >= 4
            &&& s.take(4) == "---\n"@
            &&& rest.len() == n + 5 + body.len()
            &&& rest.take(n) == yaml
            &&& rest.subrange(n, n + 4) == "---\n"@
            &&& rest.skip(n + 4).len() > 0
            &&& rest.skip(n + 4)[0] == '\n'
            &&& rest.skip(n + 4).skip(1) == body
            &&& n > 0 ==> rest[n - 1] == yaml.last()
        }),
{
    reveal_strlit("---\n");
    reveal_strlit("---\n\n");
    let f = "---\n"@;
    let s = file_text(yaml, body);
    let rest = s.skip(4);
    let n = yaml.len() as int;
    assert(f =~= seq!['-', '-', '-', '\n']);
    assert(s.take(4) =~= f);
    assert(rest =~= yaml + "---\n\n"@ + body);
    assert(rest.take(n) =~= yaml);
    assert(rest.subrange(n, n + 4) =~= f);
    assert(rest.skip(n + 4).skip(1) =~= body);
}

#[verifier::spinoff_prover]
proof fn no_fence_before(yaml: Seq<char>, rest: Seq<char>, i: int)
    requires
        0 <= i <= yaml.len(),
        yaml.len() > 0 ==> yaml.last() == '\n',
        forall|k: int| 0 <= k <= yaml.len() - 4 ==> !#[trigger] fence_at(yaml, k),
        yaml.len() + 5 <= rest.len(),
        rest.take(yaml.len() as int) == yaml,
        fence_at(rest, yaml.len() as int),
        "---\n"@ == seq!['-', '-', '-', '\n'],
    ensures
        fence_from(rest, i) == Some(yaml.len() as int),
    decreases yaml.len() - i,
{
    let n = yaml.len() as int;
    if i < n {
        assert(forall|k: int| 0 <= k < n ==> rest[k] == #[trigger] rest.take(n)[k]);
        if fence_at(rest, i) {
            let t = rest.subrange(i, i + 4);
            assert(t[0] == rest[i] && t[1] == rest[i + 1] && t[2] == rest[i + 2] && t[3] == rest[i
                + 3]);
            if i + 4 <= n {
                assert(yaml.subrange(i, i + 4) =~= t);
                assert(i > 0 ==> yaml[i - 1] == rest[i - 1]);
                assert(fence_at(yaml, i));
            } else {
                // a fence that runs past the end would hold the line feed
                // that ends the last line
                assert(rest[n - 1] == yaml[n - 1]);
                assert(t[n - 1 - i] == '\n');
            }
        }
        no_fence_before(yaml, rest, i + 1);
    }
}

/// A proposal carries no review, no finalization and no contributor, and
/// is its actor's; it cannot be retrieved.
pub proof fn a_proposal_starts_unreviewed(
    p: Proposal,
    content: Content,
    slugified: Seq<char>,
    key: Seq<char>,
    dir: Seq<char>,
    actor: ProofView,
    now: Seq<char>,
)
    ensures
        ({
            let m = proposed(p, content, slugified, key, dir, actor, now);
            &&& !quorum::retrieval(m).0
            &&& m.front.author_proof == Some(actor)
            &&& m.front.reviews.len() == 0
            &&& m.front.finalizations.len() == 0
        }),
{
    reveal_strlit("proposed");
    reveal_strlit("accepted");
    assert("proposed"@[0] != "accepted"@[0]);
}

/// Neither a review nor a finalization nor a rejection changes the digest.
pub proof fn writes_keep_the_digest(
    m: MemoryView,
    q: ReviewRequest,
    operation: Seq<char>,
    digest: Seq<char>,
    actor: ProofView,
    now: Seq<char>,
)
    ensures
        memory::digest(reviewed(m, q, actor, now)) == memory::digest(m),
        memory::digest(closed(m, operation, digest, actor, now)) == memory::digest(m),
        memory::digest(dropped(m)) == memory::digest(m),
{
}

/// The author never reviews: neither under the same registration nor under
/// a later one of the same alias.
pub proof fn the_author_never_reviews(
    m: MemoryView,
    components: Seq<Seq<char>>,
    q: ReviewRequest,
    actor: ProofView,
)
    requires
        m.front.author_proof is Some,
        actor.alias == m.front.author_proof->0.alias,
    ensures
        review_refusal(m, components, q, actor) is Some,
{
}

/// Whoever took part in the proposal never finalizes it.
pub proof fn the_proposer_never_finalizes(
    m: MemoryView,
    components: Seq<Seq<char>>,
    operation: Seq<char>,
    expected: Seq<char>,
    actor: ProofView,
)
    requires
        quorum::took_part(m.front, actor),
    ensures
        final_refusal(m, components, operation, expected, actor) is Some,
{
}

/// A finalization consumes its cycle: the same one cannot be finalized
/// again.
pub proof fn a_cycle_is_finalized_once(
    m: MemoryView,
    components: Seq<Seq<char>>,
    operation: Seq<char>,
    expected: Seq<char>,
    actor: ProofView,
    now: Seq<char>,
    again: ProofView,
)
    requires
        final_refusal(m, components, operation, expected, actor) is None,
    ensures
        final_refusal(
            closed(m, operation, expected, actor, now),
            components,
            operation,
            expected,
            again,
        ) is Some,
{
}

/// A second finalization, by anyone who may finalize, is told that the
/// cycle was finalized.
pub proof fn a_second_finalization_is_told_so(
    m: MemoryView,
    components: Seq<Seq<char>>,
    operation: Seq<char>,
    expected: Seq<char>,
    actor: ProofView,
    now: Seq<char>,
    again: ProofView,
)
    requires
        final_refusal(m, components, operation, expected, actor) is None,
        finalizer_fault(operation, again) is None,
        !quorum::took_part(m.front, again),
    ensures
        final_refusal(
            closed(m, operation, expected, actor, now),
            components,
            operation,
            expected,
            again,
        ) == Some(
            "memory "@ + operation
                + " review cycle was already finalized; submit a fresh review cycle"@,
        ),
{
    let n = closed(m, operation, expected, actor, now);
    assert(memory::digest(n) == memory::digest(m));
    let k = n.front.finalizations.len() - 1;
    assert(n.front.finalizations[k].operation == operation);
}

/// A new verify cycle comes after every cycle before it, so no earlier
/// review belongs to it.
pub proof fn a_verify_cycle_is_fresh(f: FrontView)
    requires
        f.active_operation is None,
        f.review_cycle < u64::MAX,
        forall|i: int|
            0 <= i < f.finalizations.len() ==> (#[trigger] f.finalizations[i]).cycle < u64::MAX,
    ensures
        opened(f, "verify"@).review_cycle > f.review_cycle,
        opened(f, "verify"@).review_cycle > 1,
        forall|i: int|
            0 <= i < f.finalizations.len() && (#[trigger] f.finalizations[i]).operation
                == "verify"@ ==> f.finalizations[i].cycle < opened(f, "verify"@).review_cycle,
{
    reveal_strlit("accept");
    reveal_strlit("verify");
    assert("accept"@[0] != "verify"@[0]);
    latest_is_highest(f.finalizations, "verify"@);
}

proof fn latest_is_highest(v: Seq<FinalView>, operation: Seq<char>)
    ensures
        forall|i: int|
            0 <= i < v.len() && (#[trigger] v[i]).operation == operation ==> quorum::latest(
                v,
                operation,
            ) is Some && v[i].cycle <= quorum::latest(v, operation)->0.cycle,
        quorum::latest(v, operation) is Some ==> exists|i: int|
            0 <= i < v.len() && v[i] == quorum::latest(v, operation)->0,
    decreases v.len(),
{
    if v.len() > 0 {
        latest_is_highest(v.drop_last(), operation);
        assert forall|i: int| 0 <= i < v.len() && (#[trigger] v[i]).operation == operation implies quorum::latest(
            v,
            operation,
        ) is Some && v[i].cycle <= quorum::latest(v, operation)->0.cycle by {
            if i < v.len() - 1 {
                assert(v.drop_last()[i] == v[i]);
            }
        }
        if quorum::latest(v.drop_last(), operation) is Some {
            let i = choose|i: int|
                0 <= i < v.drop_last().len() && v.drop_last()[i] == quorum::latest(
                    v.drop_last(),
                    operation,
                )->0;
            assert(v[i] == v.drop_last()[i]);
        }
        assert(v[v.len() - 1] == v.last());
    }
}

/// A rejected memory is never retrieved.
pub proof fn rejected_is_never_retrieved(m: MemoryView)
    ensures
        !quorum::retrieval(dropped(m)).0,
{
    reveal_strlit("rejected");
    reveal_strlit("accepted");
    assert("rejected"@[0] != "accepted"@[0]);
}

/// An accepted proposal can be retrieved: once a PM finalizes the first
/// acceptance of a memory that was never finalized before.
pub proof fn an_acceptance_makes_retrievable(
    m: MemoryView,
    components: Seq<Seq<char>>,
    expected: Seq<char>,
    actor: ProofView,
    now: Seq<char>,
)
    requires
        final_refusal(m, components, "accept"@, expected, actor) is None,
        m.front.review_cycle == 1,
        m.front.finalizations.len() == 0,
        now.len() > 0,
    ensures
        quorum::retrieval(closed(m, "accept"@, expected, actor, now)).0,
{
    reveal_strlit("accept");
    reveal_strlit("verify");
    assert("accept"@[0] != "verify"@[0]);
    let n = closed(m, "accept"@, expected, actor, now);
    let v = n.front.finalizations;
    assert(v.drop_last() =~= Seq::empty());
    assert(quorum::latest(v.drop_last(), "accept"@) is None);
    assert(quorum::latest(v, "accept"@) == Some(v.last()));
    assert(!quorum::took_part(n.front, actor));
    same_quorum(m, n, "accept"@, 1);
    assert(!quorum::finalized(n.front, "verify"@)) by {
        if quorum::finalized(n.front, "verify"@) {
            let i = choose|i: int| 0 <= i < v.len() && (#[trigger] v[i]).operation == "verify"@;
            assert(v[i] == v.last());
        }
    }
}

/// A verification keeps a memory retrievable: once a PM finalizes a verify
/// cycle that comes after every one before it, on an acceptance that still
/// stands.
pub proof fn a_verification_makes_retrievable(
    m: MemoryView,
    components: Seq<Seq<char>>,
    expected: Seq<char>,
    actor: ProofView,
    now: Seq<char>,
)
    requires
        final_refusal(m, components, "verify"@, expected, actor) is None,
        quorum::finalization(m.front, "accept"@, memory::digest(m)) is Some,
        quorum::finalization(m.front, "accept"@, memory::digest(m))->0.cycle == 1,
        quorum::quorum(m, "accept"@, 1).0,
        quorum::latest(m.front.finalizations, "verify"@) is Some ==> quorum::latest(
            m.front.finalizations,
            "verify"@,
        )->0.cycle <= m.front.review_cycle,
        now.len() > 0,
    ensures
        quorum::retrieval(closed(m, "verify"@, expected, actor, now)).0,
{
    reveal_strlit("accept");
    reveal_strlit("verify");
    assert("accept"@[0] != "verify"@[0]);
    let n = closed(m, "verify"@, expected, actor, now);
    let v = n.front.finalizations;
    assert(v.drop_last() =~= m.front.finalizations);
    assert(quorum::latest(v, "accept"@) == quorum::latest(m.front.finalizations, "accept"@));
    assert(quorum::latest(v, "verify"@) == Some(v.last()));
    let a = quorum::latest(v, "accept"@)->0.finalizer;
    assert(quorum::took_part(n.front, a) == quorum::took_part(m.front, a));
    assert(quorum::took_part(n.front, actor) == quorum::took_part(m.front, actor));
    same_quorum(m, n, "accept"@, 1);
    same_quorum(m, n, "verify"@, m.front.review_cycle);
}

/// The same reviews under the same digest make the same quorum.
proof fn same_quorum(m: MemoryView, n: MemoryView, operation: Seq<char>, cycle: u64)
    requires
        memory::digest(m) == memory::digest(n),
        m.front.reviews == n.front.reviews,
        m.front.author_proof == n.front.author_proof,
        m.front.contributors == n.front.contributors,
    ensures
        quorum::quorum(m, operation, cycle) == quorum::quorum(n, operation, cycle),
{
    if m.front.author_proof is Some {
        same_voices(m.front.reviews, m, n, m.front.author_proof->0, operation, cycle);
    }
}

proof fn same_voices(
    reviews: Seq<ReceiptView>,
    m: MemoryView,
    n: MemoryView,
    author: ProofView,
    operation: Seq<char>,
    cycle: u64,
)
    requires
        memory::digest(m) == memory::digest(n),
        m.front.contributors == n.front.contributors,
    ensures
        quorum::voices(reviews, m, author, operation, cycle) == quorum::voices(
            reviews,
            n,
            author,
            operation,
            cycle,
        ),
    decreases reviews.len(),
{
    if reviews.len() > 0 {
        same_voices(reviews.drop_last(), m, n, author, operation, cycle);
    }
}

} // verus!
