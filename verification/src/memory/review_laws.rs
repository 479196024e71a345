//! What a review, a finalization and a proposal come to, told by who did
//! what.
use crate::json;
use crate::memory;
use crate::memory::body;
use crate::memory::check;
use crate::memory::quorum;
use crate::memory::write::{Content, Proposal, ReviewRequest};
use crate::memory::{FrontView, MemoryView, ProofView, ReceiptView};
use crate::text;
use vstd::prelude::*;

verus! {

/// A receipt of a registered agent on this revision: who gave it, from
/// which registration, with what evidence.
pub open spec fn given_by(
    r: ReceiptView,
    registration: u64,
    m: MemoryView,
    operation: Seq<char>,
    cycle: u64,
) -> bool {
    &&& r.operation == operation
    &&& r.cycle == cycle
    &&& r.digest == memory::digest(m)
    &&& text::trim(r.evidence).len() > 0
    &&& r.role == "pm"@ || r.role == "worker"@
    &&& r.reviewer.len() > 0
    &&& registration > 0
    &&& r.identity == r.reviewer + "#"@ + text::dec(registration as nat)
    &&& r.generation.len() > 0
    &&& r.process_start != 0
}

proof fn given_is_sound(
    r: ReceiptView,
    registration: u64,
    m: MemoryView,
    operation: Seq<char>,
    cycle: u64,
)
    requires
        given_by(r, registration, m, operation, cycle),
    ensures
        quorum::sound(r, operation, cycle, memory::digest(m)),
{
    let prefix = r.reviewer + "#"@;
    let n = text::dec(registration as nat);
    assert(r.identity =~= prefix + n);
    assert(r.identity.subrange(0, prefix.len() as int) =~= prefix);
    assert(r.identity.skip(prefix.len() as int) =~= n);
    text::dec_reads_back(registration as nat);
}

/// The author of the receipt neither wrote the memory nor contributed to it.
pub open spec fn outsider(r: ReceiptView, f: FrontView) -> bool {
    &&& f.author_proof is Some
    &&& r.reviewer != f.author_proof->0.alias
    &&& r.identity != f.author_proof->0.alias + "#"@ + text::dec(
        f.author_proof->0.registration as nat,
    )
    &&& forall|k: int|
        0 <= k < f.contributors.len() ==> r.reviewer != (#[trigger] f.contributors[k]).alias
            && r.identity != f.contributors[k].alias + "#"@ + text::dec(
            f.contributors[k].registration as nat,
        )
}

proof fn heard(
    reviews: Seq<ReceiptView>,
    m: MemoryView,
    author: ProofView,
    operation: Seq<char>,
    cycle: u64,
    i: int,
)
    requires
        0 <= i < reviews.len(),
        quorum::passes(reviews[i], m, author, operation, cycle),
    ensures
        quorum::voices(reviews, m, author, operation, cycle).contains(reviews[i].reviewer),
    decreases reviews.len(),
{
    let rest = reviews.drop_last();
    let before = quorum::voices(rest, m, author, operation, cycle);
    let who = reviews[i].reviewer;
    if i < reviews.len() - 1 {
        assert(rest[i] == reviews[i]);
        heard(rest, m, author, operation, cycle, i);
        let k = choose|k: int| 0 <= k < before.len() && before[k] == who;
        if quorum::passes(reviews.last(), m, author, operation, cycle) {
            assert(before.push(reviews.last().reviewer)[k] == who);
        }
    } else {
        assert(before.push(who)[before.len() as int] == who);
    }
}

/// Two different outsiders who passed a revision in a cycle make a quorum,
/// where nobody in it asked for a revision.
pub proof fn two_outsiders_make_a_quorum(
    m: MemoryView,
    operation: Seq<char>,
    cycle: u64,
    i: int,
    a: u64,
    j: int,
    b: u64,
)
    requires
        m.front.author_proof is Some && m.front.author_proof->0.valid(),
        cycle > 0,
        0 <= i < m.front.reviews.len(),
        0 <= j < m.front.reviews.len(),
        given_by(m.front.reviews[i], a, m, operation, cycle),
        given_by(m.front.reviews[j], b, m, operation, cycle),
        m.front.reviews[i].verdict == "pass"@,
        m.front.reviews[j].verdict == "pass"@,
        m.front.reviews[i].reviewer != m.front.reviews[j].reviewer,
        outsider(m.front.reviews[i], m.front),
        outsider(m.front.reviews[j], m.front),
        forall|k: int|
            0 <= k < m.front.reviews.len() ==> (#[trigger] m.front.reviews[k]).verdict != "revise"@,
    ensures
        quorum::quorum(m, operation, cycle).0,
{
    let author = m.front.author_proof->0;
    let rs = m.front.reviews;
    given_is_sound(rs[i], a, m, operation, cycle);
    given_is_sound(rs[j], b, m, operation, cycle);
    assert(quorum::foreign(rs[i], author, m.front.contributors));
    assert(quorum::foreign(rs[j], author, m.front.contributors));
    heard(rs, m, author, operation, cycle, i);
    heard(rs, m, author, operation, cycle, j);
    let v = quorum::voices(rs, m, author, operation, cycle);
    text::name_set_members(v);
    let s = text::name_set(v);
    assert(s.contains(rs[i].reviewer) && s.contains(rs[j].reviewer));
    let x = choose|x: int| 0 <= x < s.len() && s[x] == rs[i].reviewer;
    let y = choose|y: int| 0 <= y < s.len() && s[y] == rs[j].reviewer;
    assert(x != y);
}

/// One agent that asks for a revision in a cycle blocks its quorum,
/// however many passed.
pub proof fn one_objection_blocks(
    m: MemoryView,
    operation: Seq<char>,
    cycle: u64,
    i: int,
    a: u64,
)
    requires
        0 <= i < m.front.reviews.len(),
        given_by(m.front.reviews[i], a, m, operation, cycle),
        m.front.reviews[i].verdict == "revise"@,
    ensures
        !quorum::quorum(m, operation, cycle).0,
{
    given_is_sound(m.front.reviews[i], a, m, operation, cycle);
}

/// Only what the reviews of this cycle and this revision say counts: one
/// voice, however often it speaks, makes no quorum.
pub proof fn one_voice_makes_no_quorum(
    m: MemoryView,
    operation: Seq<char>,
    cycle: u64,
    who: Seq<char>,
)
    requires
        forall|k: int|
            0 <= k < m.front.reviews.len() ==> {
                let r = #[trigger] m.front.reviews[k];
                ||| r.reviewer == who
                ||| r.verdict != "pass"@
                ||| r.cycle != cycle
                ||| r.operation != operation
                ||| r.digest != memory::digest(m)
            },
    ensures
        !quorum::quorum(m, operation, cycle).0,
{
    if m.front.author_proof is Some {
        let v = quorum::voices(m.front.reviews, m, m.front.author_proof->0, operation, cycle);
        all_are(m.front.reviews, m, m.front.author_proof->0, operation, cycle, who);
        text::name_set_members(v);
        let s = text::name_set(v);
        assert forall|k: int| 0 <= k < s.len() implies s[k] == who by {
            assert(s.contains(s[k]));
            let n = choose|n: int| 0 <= n < v.len() && v[n] == s[k];
        }
        if s.len() >= 2 {
            text::lt_total(s[0], s[1]);
        }
    }
}

proof fn all_are(
    reviews: Seq<ReceiptView>,
    m: MemoryView,
    author: ProofView,
    operation: Seq<char>,
    cycle: u64,
    who: Seq<char>,
)
    requires
        forall|k: int|
            0 <= k < reviews.len() ==> {
                let r = #[trigger] reviews[k];
                ||| r.reviewer == who
                ||| r.verdict != "pass"@
                ||| r.cycle != cycle
                ||| r.operation != operation
                ||| r.digest != memory::digest(m)
            },
    ensures
        forall|k: int|
            0 <= k < quorum::voices(reviews, m, author, operation, cycle).len() ==> (
            #[trigger] quorum::voices(reviews, m, author, operation, cycle)[k]) == who,
    decreases reviews.len(),
{
    if reviews.len() > 0 {
        let rest = reviews.drop_last();
        assert forall|k: int| 0 <= k < rest.len() implies rest[k] == reviews[k] by {}
        all_are(rest, m, author, operation, cycle, who);
        assert(reviews.last() == reviews[reviews.len() - 1]);
        let before = quorum::voices(rest, m, author, operation, cycle);
        let all = quorum::voices(reviews, m, author, operation, cycle);
        assert forall|k: int| 0 <= k < all.len() implies (#[trigger] all[k]) == who by {
            if k < before.len() {
                assert(all[k] == before[k]);
            }
        }
    }
}

// ---------- reviews ----------

/// A review adds one receipt at the end, in the name of whoever gave it, on the
/// revision that was looked at, and opens the cycle where none was open:
/// the first of an acceptance. It changes nothing else.
pub proof fn a_review_adds_one_receipt(
    m: MemoryView,
    q: ReviewRequest,
    actor: ProofView,
    now: Seq<char>,
)
    ensures
        ({
            let n = memory::write::reviewed(m, q, actor, now);
            let r = n.front.reviews.last();
            &&& n.front.reviews.len() == m.front.reviews.len() + 1
            &&& n.front.reviews.drop_last() == m.front.reviews
            &&& r.reviewer == actor.alias
            &&& r.identity == actor.alias + "#"@ + text::dec(actor.registration as nat)
            &&& r.operation == q.operation@ && r.verdict == q.verdict@
            &&& r.evidence == text::trim(q.evidence@)
            &&& r.digest == memory::digest(m)
            &&& r.cycle == n.front.review_cycle
            &&& r.role == actor.role && r.generation == actor.generation && r.process_start
                == actor.process_start
            &&& n.body == m.body && n.project == m.project && n.path == m.path
            &&& n.front.status == m.front.status && n.front.finalizations == m.front.finalizations
            &&& n.front.author_proof == m.front.author_proof && n.front.id == m.front.id
            &&& m.front.active_operation is None ==> n.front.active_operation == Some(q.operation@)
            &&& m.front.active_operation is None && q.operation@ == "accept"@
                ==> n.front.review_cycle == 1
            &&& m.front.active_operation is Some ==> n.front.review_cycle == m.front.review_cycle
                && n.front.active_operation == m.front.active_operation
        }),
{
    let n = memory::write::reviewed(m, q, actor, now);
    assert(n.front.reviews.drop_last() =~= m.front.reviews);
}

/// A registered agent may review a sound proposal of another once per
/// cycle.
pub proof fn a_stranger_may_review(
    m: MemoryView,
    components: Seq<Seq<char>>,
    q: ReviewRequest,
    actor: ProofView,
)
    requires
        q.operation@ == "accept"@,
        q.verdict@ == "pass"@ || q.verdict@ == "revise"@,
        actor.alias.len() > 0 && actor.registration != 0 && actor.generation.len() > 0,
        actor.process_start != 0,
        actor.role == "pm"@ || actor.role == "worker"@,
        text::trim(q.evidence@).len() > 0,
        vstd::utf8::encode_utf8(text::trim(q.evidence@)).len() <= 16384,
        q.expected_digest@ == memory::digest(m),
        memory::write::is_digest(q.expected_digest@),
        m.front.author_proof is Some,
        m.front.author_proof->0.alias != actor.alias,
        m.front.author_proof->0.id() != actor.id(),
        m.front.status == "proposed"@,
        m.front.active_operation is None || m.front.active_operation == Some("accept"@),
        forall|k: int|
            0 <= k < m.front.reviews.len() ==> (#[trigger] m.front.reviews[k]).reviewer
                != actor.alias && m.front.reviews[k].identity != actor.id(),
        check::fault(m, components) is None,
    ensures
        memory::write::review_refusal(m, components, q, actor) is None,
{
    reveal_strlit("accept");
    reveal_strlit("verify");
    assert("accept"@[0] != "verify"@[0]);
}

/// Nobody reviews one cycle twice, and nobody reviews another revision
/// than the one that was looked at.
pub proof fn a_second_review_is_refused(
    m: MemoryView,
    components: Seq<Seq<char>>,
    q: ReviewRequest,
    actor: ProofView,
    now: Seq<char>,
    again: ReviewRequest,
)
    requires
        again.operation@ == q.operation@,
        memory::write::review_refusal(m, components, q, actor) is None,
    ensures
        memory::write::review_refusal(memory::write::reviewed(m, q, actor, now), components, again, actor) is Some,
        again.expected_digest@ != memory::digest(m) ==> memory::write::review_refusal(
            m,
            components,
            again,
            actor,
        ) is Some,
{
    let n = memory::write::reviewed(m, q, actor, now);
    let k = n.front.reviews.len() - 1;
    assert(n.front.reviews[k].reviewer == actor.alias);
    let f = memory::write::opened(n.front, again.operation@);
    assert(memory::write::reviewed_by(n.front.reviews[k], again.operation@, f.review_cycle, actor));
}

// ---------- finalization ----------

/// A PM who took no part may finalize an acceptance that a quorum backs.
pub proof fn a_backed_acceptance_may_be_finalized(
    m: MemoryView,
    components: Seq<Seq<char>>,
    actor: ProofView,
)
    requires
        actor.alias.len() > 0 && actor.registration != 0 && actor.generation.len() > 0,
        actor.process_start != 0,
        actor.role == "pm"@,
        m.front.author_proof is Some && m.front.author_proof->0.valid(),
        m.front.author_proof->0.alias != actor.alias,
        m.front.author_proof->0.id() != actor.id(),
        forall|k: int|
            0 <= k < m.front.contributors.len() ==> (#[trigger] m.front.contributors[k]).alias
                != actor.alias && m.front.contributors[k].id() != actor.id(),
        m.front.status == "proposed"@,
        m.front.active_operation == Some("accept"@),
        m.front.review_cycle > 0,
        m.front.finalizations.len() == 0,
        quorum::quorum(m, "accept"@, m.front.review_cycle).0,
        check::fault(
            memory::write::closed(m, "accept"@, memory::digest(m), actor, seq![]),
            components,
        ) is None,
    ensures
        memory::write::final_refusal(m, components, "accept"@, memory::digest(m), actor) is None,
{
    assert(!quorum::took_part(m.front, actor));
}

/// Nobody but a registered PM finalizes or rejects.
pub proof fn only_a_pm_settles(
    m: MemoryView,
    components: Seq<Seq<char>>,
    operation: Seq<char>,
    expected: Seq<char>,
    actor: ProofView,
)
    requires
        actor.role != "pm"@ || actor.registration == 0 || actor.alias.len() == 0
            || actor.generation.len() == 0 || actor.process_start == 0,
    ensures
        memory::write::final_refusal(m, components, operation, expected, actor) is Some,
        memory::write::reject_refusal(m, components, actor) is Some,
{
}

/// Without a quorum of its own cycle nothing is finalized.
pub proof fn no_quorum_no_finalization(
    m: MemoryView,
    components: Seq<Seq<char>>,
    operation: Seq<char>,
    expected: Seq<char>,
    actor: ProofView,
)
    requires
        !quorum::quorum(m, operation, m.front.review_cycle).0,
    ensures
        memory::write::final_refusal(m, components, operation, expected, actor) is Some,
{
}

/// A finalization writes down who made it and when, on which revision and
/// cycle; an acceptance is accepted, and the cycle is over.
pub proof fn a_finalization_is_written_down(
    m: MemoryView,
    operation: Seq<char>,
    digest: Seq<char>,
    actor: ProofView,
    now: Seq<char>,
)
    ensures
        ({
            let n = memory::write::closed(m, operation, digest, actor, now);
            let r = n.front.finalizations.last();
            &&& n.front.finalizations.len() == m.front.finalizations.len() + 1
            &&& n.front.finalizations.drop_last() == m.front.finalizations
            &&& r.operation == operation && r.cycle == m.front.review_cycle && r.digest == digest
            &&& r.finalizer == actor && r.finalized_at == now
            &&& n.front.verified_at == Some(now)
            &&& n.front.active_operation is None
            &&& n.front.status == if operation == "accept"@ {
                "accepted"@
            } else {
                m.front.status
            }
            &&& n.front.reviews == m.front.reviews && n.body == m.body
            &&& n.front.author_proof == m.front.author_proof
        }),
{
    let n = memory::write::closed(m, operation, digest, actor, now);
    assert(n.front.finalizations.drop_last() =~= m.front.finalizations);
}

/// A rejection takes the memory out of use and keeps what was said of it.
pub proof fn a_rejection_keeps_the_record(m: MemoryView)
    ensures
        memory::write::dropped(m).front.status == "rejected"@,
        memory::write::dropped(m).front.reviews == m.front.reviews,
        memory::write::dropped(m).front.finalizations == m.front.finalizations,
        memory::write::dropped(m).body == m.body,
        memory::write::dropped(m).front.id == m.front.id,
{
}

// ---------- proposals ----------

/// A proposal from a body keeps the body, the kind, the scope and the
/// source that were given, under the slug that was asked for, in the name
/// of who proposed it; its confidence is medium where none was given.
pub proof fn a_proposal_keeps_what_was_given(
    p: Proposal,
    text: String,
    slugified: Seq<char>,
    key: Seq<char>,
    dir: Seq<char>,
    actor: ProofView,
    now: Seq<char>,
)
    ensures
        ({
            let m = memory::write::proposed(p, Content::Body(text), slugified, key, dir, actor, now);
            &&& m.body == text@
            &&& m.project == key
            &&& m.front.kind == p.kind@
            &&& m.front.scope == p.scope@
            &&& m.front.source == p.source.deep_view()
            &&& m.front.created == now
            &&& m.front.author_proof == Some(actor)
            &&& m.front.author == Some(actor.alias)
            &&& p.slug is Some ==> m.front.id == p.slug->0@
            &&& match p.confidence {
                Some(c) => m.front.confidence == c@,
                None => m.front.confidence == "medium"@,
            }
            &&& m.front.status == "proposed"@
        }),
{
}

/// A sound memory: its id is its file's and a slug, its kind, status and
/// confidence are known words, its components are declared, its globs are
/// light and its body is whole. Nothing else is faulted.
pub proof fn what_a_memory_is_faulted_for(m: MemoryView, components: Seq<Seq<char>>)
    ensures
        check::fault(m, components) is None <==> {
            let f = m.front;
            &&& f.id == crate::paths::stem(m.path)
            &&& 1 <= f.id.len() <= 48 && f.id[0] != '-' && f.id.last() != '-'
            &&& forall|i: int|
                0 <= i < f.id.len() ==> {
                    let c = #[trigger] f.id[i];
                    'a' <= c <= 'z' || '0' <= c <= '9' || c == '-'
                }
            &&& f.kind == "rule"@ || f.kind == "gotcha"@ || f.kind == "decision"@ || f.kind
                == "recipe"@
            &&& f.status == "proposed"@ || f.status == "accepted"@ || f.status == "rejected"@
                || f.status == "superseded"@
            &&& f.confidence == "low"@ || f.confidence == "medium"@ || f.confidence == "high"@
            &&& components.len() == 0 || forall|i: int|
                0 <= i < f.scope.components.len() ==> components.contains(
                    #[trigger] f.scope.components[i],
                )
            &&& forall|i: int|
                0 <= i < f.scope.paths.len() ==> !check::over_budget(#[trigger] f.scope.paths[i])
            &&& body::faults(f.id, m.body).len() == 0
        },
{
    let f = m.front;
    declared_all(f.scope.components, components);
    none_heavy(f.scope.paths);
    assert(memory::slug(f.id) <==> (1 <= f.id.len() <= 48 && f.id[0] != '-' && f.id.last() != '-'
        && forall|i: int|
        0 <= i < f.id.len() ==> {
            let c = #[trigger] f.id[i];
            'a' <= c <= 'z' || '0' <= c <= '9' || c == '-'
        })) by {
        assert forall|i: int| 0 <= i < f.id.len() implies memory::slug_char(#[trigger] f.id[i]) == ({
            let c = f.id[i];
            'a' <= c <= 'z' || '0' <= c <= '9' || c == '-'
        }) by {}
    }
}

proof fn declared_all(own: Seq<Seq<char>>, declared: Seq<Seq<char>>)
    ensures
        check::undeclared(own, declared) is None <==> declared.len() == 0 || forall|i: int|
            0 <= i < own.len() ==> declared.contains(#[trigger] own[i]),
    decreases own.len(),
{
    if own.len() > 0 && declared.len() > 0 && declared.contains(own[0]) {
        let rest = own.drop_first();
        declared_all(rest, declared);
        if forall|i: int| 0 <= i < rest.len() ==> declared.contains(#[trigger] rest[i]) {
            assert forall|i: int| 0 <= i < own.len() implies declared.contains(#[trigger] own[i]) by {
                if i > 0 {
                    assert(rest[i - 1] == own[i]);
                }
            }
        }
        if forall|i: int| 0 <= i < own.len() ==> declared.contains(#[trigger] own[i]) {
            assert forall|i: int| 0 <= i < rest.len() implies declared.contains(
                #[trigger] rest[i],
            ) by {
                assert(rest[i] == own[i + 1]);
            }
        }
    }
}

proof fn none_heavy(globs: Seq<Seq<char>>)
    ensures
        check::heavy(globs) is None <==> forall|i: int|
            0 <= i < globs.len() ==> !check::over_budget(#[trigger] globs[i]),
    decreases globs.len(),
{
    if globs.len() > 0 && !check::over_budget(globs[0]) {
        let rest = globs.drop_first();
        none_heavy(rest);
        if forall|i: int| 0 <= i < rest.len() ==> !check::over_budget(#[trigger] rest[i]) {
            assert forall|i: int| 0 <= i < globs.len() implies !check::over_budget(
                #[trigger] globs[i],
            ) by {
                if i > 0 {
                    assert(rest[i - 1] == globs[i]);
                }
            }
        }
        if forall|i: int| 0 <= i < globs.len() ==> !check::over_budget(#[trigger] globs[i]) {
            assert forall|i: int| 0 <= i < rest.len() implies !check::over_budget(
                #[trigger] rest[i],
            ) by {
                assert(rest[i] == globs[i + 1]);
            }
        }
    }
}

// ---------- revisions ----------

proof fn peel(x: Seq<char>, y: Seq<char>, t: Seq<char>)
    requires
        x + t == y + t,
    ensures
        x == y,
{
    assert((x + t).len() == x.len() + t.len());
    assert((y + t).len() == y.len() + t.len());
    assert((x + t).take(x.len() as int) =~= x);
    assert((y + t).take(y.len() as int) =~= y);
}

proof fn unhead(a: Seq<char>, x: Seq<char>, y: Seq<char>)
    requires
        a + x == a + y,
    ensures
        x == y,
{
    assert((a + x).skip(a.len() as int) =~= x);
    assert((a + y).skip(a.len() as int) =~= y);
}

/// A revision is told by what the memory claims: one that differs in its
/// body, its kind, its confidence or its source alone, as JSON writes
/// them, is another revision.
#[verifier::spinoff_prover]
#[verifier::rlimit(40)]
pub proof fn a_changed_claim_is_another_revision(m: MemoryView, n: MemoryView)
    requires
        n == (MemoryView { body: n.body, ..m }) && json::quoted(m.body) != json::quoted(n.body) || n
            == (MemoryView { front: FrontView { kind: n.front.kind, ..m.front }, ..m })
            && json::quoted(m.front.kind) != json::quoted(n.front.kind) || n == (MemoryView {
            front: FrontView { confidence: n.front.confidence, ..m.front },
            ..m
        }) && json::quoted(m.front.confidence) != json::quoted(n.front.confidence) || n
            == (MemoryView { project: n.project, ..m }) && json::quoted(m.project) != json::quoted(
            n.project,
        ),
    ensures
        memory::revision(m) != memory::revision(n),
{
    let list = text::join(
        m.front.contributors.map_values(|p: ProofView| memory::proof_text(p)),
        ","@,
    );
    let x0 = "{\"project\":"@;
    let x1 = x0 + json::quoted(m.project);
    let x2 = x1 + ",\"id\":"@;
    let x3 = x2 + json::quoted(m.front.id);
    let x4 = x3 + ",\"kind\":"@;
    let x5 = x4 + json::quoted(m.front.kind);
    let x6 = x5 + ",\"body\":"@;
    let x7 = x6 + json::quoted(m.body);
    let x8 = x7 + ",\"author\":"@;
    let x9 = x8 + memory::opt_text(m.front.author);
    let x10 = x9 + ",\"author_proof\":"@;
    let x11 = x10 + memory::proof_opt_text(m.front.author_proof);
    let x12 = x11 + ",\"contributors\":["@;
    let x13 = x12 + list;
    let x14 = x13 + "],\"source\":"@;
    let x15 = x14 + memory::opt_text(m.front.source);
    let x16 = x15 + ",\"confidence\":"@;
    let x17 = x16 + json::quoted(m.front.confidence);
    let x18 = x17 + ",\"scope\":"@;
    let x19 = x18 + memory::scope_text(m.front.scope);
    let x20 = x19 + ",\"supersedes\":"@;
    let x21 = x20 + memory::opt_text(m.front.supersedes);
    let x22 = x21 + "}"@;
    let y0 = "{\"project\":"@;
    let y1 = y0 + json::quoted(n.project);
    let y2 = y1 + ",\"id\":"@;
    let y3 = y2 + json::quoted(m.front.id);
    let y4 = y3 + ",\"kind\":"@;
    let y5 = y4 + json::quoted(n.front.kind);
    let y6 = y5 + ",\"body\":"@;
    let y7 = y6 + json::quoted(n.body);
    let y8 = y7 + ",\"author\":"@;
    let y9 = y8 + memory::opt_text(m.front.author);
    let y10 = y9 + ",\"author_proof\":"@;
    let y11 = y10 + memory::proof_opt_text(m.front.author_proof);
    let y12 = y11 + ",\"contributors\":["@;
    let y13 = y12 + list;
    let y14 = y13 + "],\"source\":"@;
    let y15 = y14 + memory::opt_text(m.front.source);
    let y16 = y15 + ",\"confidence\":"@;
    let y17 = y16 + json::quoted(n.front.confidence);
    let y18 = y17 + ",\"scope\":"@;
    let y19 = y18 + memory::scope_text(m.front.scope);
    let y20 = y19 + ",\"supersedes\":"@;
    let y21 = y20 + memory::opt_text(m.front.supersedes);
    let y22 = y21 + "}"@;
    assert(memory::revision(m) == x22);
    assert(memory::revision(n) == y22);
    if x22 == y22 {
        peel(x21, y21, "}"@);
        peel(x20, y20, memory::opt_text(m.front.supersedes));
        peel(x19, y19, ",\"supersedes\":"@);
        peel(x18, y18, memory::scope_text(m.front.scope));
        peel(x17, y17, ",\"scope\":"@);
        if json::quoted(m.front.confidence) != json::quoted(n.front.confidence) {
            assert(x16 == y16);
            unhead(x16, json::quoted(m.front.confidence), json::quoted(n.front.confidence));
        }
        peel(x16, y16, json::quoted(m.front.confidence));
        peel(x15, y15, ",\"confidence\":"@);
        peel(x14, y14, memory::opt_text(m.front.source));
        peel(x13, y13, "],\"source\":"@);
        peel(x12, y12, list);
        peel(x11, y11, ",\"contributors\":["@);
        peel(x10, y10, memory::proof_opt_text(m.front.author_proof));
        peel(x9, y9, ",\"author_proof\":"@);
        peel(x8, y8, memory::opt_text(m.front.author));
        peel(x7, y7, ",\"author\":"@);
        if json::quoted(m.body) != json::quoted(n.body) {
            assert(x6 == y6);
            unhead(x6, json::quoted(m.body), json::quoted(n.body));
        }
        peel(x6, y6, json::quoted(m.body));
        peel(x5, y5, ",\"body\":"@);
        if json::quoted(m.front.kind) != json::quoted(n.front.kind) {
            assert(x4 == y4);
            unhead(x4, json::quoted(m.front.kind), json::quoted(n.front.kind));
        }
        peel(x4, y4, json::quoted(m.front.kind));
        peel(x3, y3, ",\"kind\":"@);
        peel(x2, y2, json::quoted(m.front.id));
        peel(x1, y1, ",\"id\":"@);
        unhead(x0, json::quoted(m.project), json::quoted(n.project));
    }
}

} // verus!
