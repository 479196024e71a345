//! Which reviews and finalizations are taken, told by who asks for what.
use crate::memory;
use crate::memory::quorum;
use crate::memory::write::ReviewRequest;
use crate::memory::{FinalView, FrontView, MemoryView, ProofView};
use crate::text;
use crate::text_laws;
use vstd::prelude::*;

verus! {

/// The identity is complete: named, registered, of one process, and a PM's or
/// a worker's.
pub open spec fn complete(p: ProofView) -> bool {
    &&& p.alias.len() > 0
    &&& p.registration > 0
    &&& p.generation.len() > 0
    &&& p.process_start > 0
    &&& p.role == "pm"@ || p.role == "worker"@
}

/// 64 digits in hex, of either case.
pub open spec fn hex_digest(s: Seq<char>) -> bool {
    s.len() == 64 && forall|i: int|
        0 <= i < s.len() ==> ('0' <= #[trigger] s[i] <= '9' || 'a' <= s[i] <= 'f' || 'A' <= s[i]
            <= 'F')
}

/// A review is taken up exactly where it is of one of the two operations, with
/// one of the two verdicts, from a complete identity, with evidence of at most
/// 16384 bytes, on a digest.
pub proof fn what_review_is_taken_up(q: ReviewRequest, actor: ProofView)
    ensures
        memory::write::request_fault(q, actor) is None <==> {
            &&& q.operation@ == "accept"@ || q.operation@ == "verify"@
            &&& q.verdict@ == "pass"@ || q.verdict@ == "revise"@
            &&& complete(actor)
            &&& text::trim(q.evidence@).len() > 0
            &&& vstd::utf8::encode_utf8(text::trim(q.evidence@)).len() <= 16384
            &&& hex_digest(q.expected_digest@)
        },
{
    let s = q.expected_digest@;
    if hex_digest(s) {
        assert forall|i: int| 0 <= i < s.len() implies memory::write::hex_char(
            #[trigger] s[i],
        ) by {}
    }
    if memory::write::is_digest(s) {
        assert forall|i: int| 0 <= i < s.len() implies ('0' <= #[trigger] s[i] <= '9' || 'a' <= s[i]
            <= 'f' || 'A' <= s[i] <= 'F') by {
            assert(memory::write::hex_char(s[i]));
        }
    }
}

/// A complete PM finalizes one of the two operations, and nobody else does.
pub proof fn who_may_finalize(operation: Seq<char>, actor: ProofView)
    ensures
        memory::write::finalizer_fault(operation, actor) is None <==> complete(actor) && actor.role
            == "pm"@ && (operation == "accept"@ || operation == "verify"@),
{
}

/// An acceptance is reviewed while the memory is proposed, a verification
/// while it is accepted, and neither while the other is under way.
pub proof fn when_a_cycle_is_open(f: FrontView, operation: Seq<char>)
    requires
        operation == "accept"@ || operation == "verify"@,
    ensures
        memory::write::cycle_fault(f, operation) is None <==> (operation == "accept"@ ==> f.status
            == "proposed"@) && (operation == "verify"@ ==> f.status == "accepted"@) && (
        f.active_operation is None || f.active_operation == Some(operation)),
{
    reveal_strlit("accept");
    reveal_strlit("verify");
    assert("accept"@[0] != "verify"@[0]);
}

proof fn latest_is_greatest(v: Seq<FinalView>, operation: Seq<char>)
    ensures
        forall|i: int|
            0 <= i < v.len() && (#[trigger] v[i]).operation == operation ==> quorum::latest(
                v,
                operation,
            ) is Some && v[i].cycle <= quorum::latest(v, operation)->0.cycle,
        quorum::latest(v, operation) matches Some(r) ==> v.contains(r) && r.operation == operation,
    decreases v.len(),
{
    if v.len() > 0 {
        let w = v.drop_last();
        latest_is_greatest(w, operation);
        assert(forall|i: int| 0 <= i < w.len() ==> #[trigger] v[i] == w[i]);
        assert(v[v.len() - 1] == v.last());
        if let Some(r) = quorum::latest(w, operation) {
            let i = choose|i: int| 0 <= i < w.len() && w[i] == r;
            assert(v[i] == r);
        }
        assert(v.contains(v[v.len() - 1]));
    }
}

/// A new cycle: the first for an acceptance; for a verification one behind
/// every cycle so far. A cycle that is open stays.
pub proof fn which_cycle_opens(f: FrontView, i: int)
    requires
        0 <= i < f.finalizations.len(),
        f.review_cycle < u64::MAX,
        forall|j: int|
            0 <= j < f.finalizations.len() ==> (#[trigger] f.finalizations[j]).cycle < u64::MAX,
    ensures
        f.active_operation is Some ==> memory::write::opened(f, "accept"@) == f
            && memory::write::opened(f, "verify"@) == f,
        f.active_operation is None ==> {
            let (a, v) = (memory::write::opened(f, "accept"@), memory::write::opened(f, "verify"@));
            &&& a.active_operation == Some("accept"@) && a.review_cycle == 1
            &&& v.active_operation == Some("verify"@)
            &&& v.review_cycle >= 2 && v.review_cycle > f.review_cycle
            &&& f.finalizations[i].operation == "verify"@ ==> v.review_cycle
                > f.finalizations[i].cycle
            &&& a.status == f.status && a.reviews == f.reviews && v.reviews == f.reviews
        },
{
    reveal_strlit("accept");
    reveal_strlit("verify");
    assert("accept"@[0] != "verify"@[0]);
    latest_is_greatest(f.finalizations, "verify"@);
    if let Some(r) = quorum::latest(f.finalizations, "verify"@) {
        let j = choose|j: int| 0 <= j < f.finalizations.len() && f.finalizations[j] == r;
        assert(f.finalizations[j].cycle < u64::MAX);
    }
}

// ---------- retrieval ----------

/// The finalizer had no part in the memory: neither wrote it nor contributed.
pub open spec fn apart(f: FrontView, who: ProofView) -> bool {
    &&& f.author_proof matches Some(a) ==> a.alias != who.alias && a.id() != who.id()
    &&& forall|i: int|
        0 <= i < f.contributors.len() ==> (#[trigger] f.contributors[i]).alias != who.alias
            && f.contributors[i].id() != who.id()
}

/// The finalization holds for the memory as it stands: of its revision, dated,
/// by a complete PM who had no part in it.
pub open spec fn seals(m: MemoryView, r: FinalView) -> bool {
    &&& r.digest == memory::digest(m)
    &&& r.finalized_at.len() > 0
    &&& complete(r.finalizer) && r.finalizer.role == "pm"@
    &&& apart(m.front, r.finalizer)
}

/// The finalization of that operation that counts: of the highest cycle, the
/// last of equals.
pub open spec fn counts(v: Seq<FinalView>, operation: Seq<char>, k: int) -> bool {
    &&& 0 <= k < v.len()
    &&& v[k].operation == operation
    &&& forall|j: int|
        0 <= j < v.len() && j != k && (#[trigger] v[j]).operation == operation ==> v[j].cycle
            < v[k].cycle || (v[j].cycle == v[k].cycle && j < k)
}

proof fn counted_is_latest(v: Seq<FinalView>, operation: Seq<char>, k: int)
    requires
        counts(v, operation, k),
    ensures
        quorum::latest(v, operation) == Some(v[k]),
    decreases v.len(),
{
    let w = v.drop_last();
    let last = v.len() - 1;
    assert(forall|j: int| 0 <= j < w.len() ==> #[trigger] v[j] == w[j]);
    assert(v[last] == v.last());
    latest_is_greatest(w, operation);
    if k < last {
        assert forall|j: int|
            0 <= j < w.len() && j != k && (#[trigger] w[j]).operation == operation implies w[j].cycle
            < w[k].cycle || (w[j].cycle == w[k].cycle && j < k) by {
            assert(v[j] == w[j]);
        }
        counted_is_latest(w, operation, k);
    } else if let Some(r) = quorum::latest(w, operation) {
        let j = choose|j: int| 0 <= j < w.len() && w[j] == r;
        assert(v[j].operation == operation);
    }
}

proof fn sealed(m: MemoryView, operation: Seq<char>, k: int)
    requires
        counts(m.front.finalizations, operation, k),
    ensures
        quorum::finalization(m.front, operation, memory::digest(m)) is Some <==> seals(
            m,
            m.front.finalizations[k],
        ),
        quorum::finalization(m.front, operation, memory::digest(m)) matches Some(r) ==> r
            == m.front.finalizations[k],
{
    counted_is_latest(m.front.finalizations, operation, k);
    let who = m.front.finalizations[k].finalizer;
    let f = m.front;
    if quorum::took_part(f, who) && apart(f, who) {
        let i = choose|i: int|
            0 <= i < f.contributors.len() && quorum::same_party(#[trigger] f.contributors[i], who);
        assert(f.contributors[i].alias != who.alias);
        assert(false);
    }
    if !quorum::took_part(f, who) {
        assert forall|i: int| 0 <= i < f.contributors.len() implies (
        #[trigger] f.contributors[i]).alias != who.alias && f.contributors[i].id() != who.id() by {
            assert(!quorum::same_party(f.contributors[i], who));
        }
    }
}

/// A memory that was accepted and not verified since is retrieved exactly where
/// its acceptance holds for it as it stands, of the first cycle and with a
/// quorum, and nothing is under way.
pub proof fn what_accepted_memory_is_retrieved(m: MemoryView, k: int)
    requires
        counts(m.front.finalizations, "accept"@, k),
        m.front.review_cycle <= 1,
    ensures
        quorum::retrieval(m).0 <==> {
            &&& m.front.status == "accepted"@
            &&& m.front.author_proof is Some
            &&& m.front.review_cycle == 1
            &&& m.front.active_operation is None
            &&& seals(m, m.front.finalizations[k])
            &&& m.front.finalizations[k].cycle == 1
            &&& quorum::quorum(m, "accept"@, 1).0
            &&& forall|j: int|
                0 <= j < m.front.finalizations.len() ==> (#[trigger] m.front.finalizations[j]).operation
                    != "verify"@
        },
{
    sealed(m, "accept"@, k);
}

/// A memory with a later cycle is retrieved exactly where, besides, its latest
/// verification holds for it as it stands, of the current cycle and with a
/// quorum.
pub proof fn what_verified_memory_is_retrieved(m: MemoryView, k: int, v: int)
    requires
        counts(m.front.finalizations, "accept"@, k),
        counts(m.front.finalizations, "verify"@, v),
        m.front.review_cycle > 1,
    ensures
        quorum::retrieval(m).0 <==> {
            let (a, b) = (m.front.finalizations[k], m.front.finalizations[v]);
            &&& m.front.status == "accepted"@
            &&& m.front.author_proof is Some
            &&& m.front.active_operation is None
            &&& seals(m, a) && a.cycle == 1 && quorum::quorum(m, "accept"@, 1).0
            &&& seals(m, b) && b.cycle == m.front.review_cycle && quorum::quorum(
                m,
                "verify"@,
                m.front.review_cycle,
            ).0
        },
{
    sealed(m, "accept"@, k);
    sealed(m, "verify"@, v);
}

/// What is written of a memory begins with a fence and ends with its body.
pub proof fn how_a_memory_is_written(yaml: Seq<char>, body: Seq<char>)
    ensures
        memory::write::file_text(yaml, body) == "---\n"@ + yaml + "---\n\n"@ + body,
        text::begins(memory::write::file_text(yaml, body), "---\n"@ + yaml),
        text::ends(memory::write::file_text(yaml, body), body),
{
    let s = memory::write::file_text(yaml, body);
    let a = "---\n"@ + yaml;
    let b = "---\n\n"@ + body;
    assert(s =~= a + b);
    text_laws::what_a_text_holds(a, a, b);
    let c = "---\n"@ + yaml + "---\n\n"@;
    text_laws::what_a_text_holds(c, body, seq![]);
}

/// A text that does not begin with a fence is no memory.
pub proof fn a_memory_begins_with_a_fence(s: Seq<char>)
    requires
        !text::begins(s, "---\n"@),
    ensures
        memory::write::split_file(s) is None,
{
}

/// A slug that was asked for is kept; one that comes to nothing is called a
/// lesson.
pub proof fn how_a_slug_is_chosen(asked: Seq<char>, words: Seq<char>)
    ensures
        memory::write::proposal_slug(Some(asked), words) == asked,
        memory::write::derived(words).len() == 0 ==> memory::write::proposal_slug(None, words)
            == "lesson"@,
        memory::write::proposal_slug(None, words).len() > 0,
        words.len() > 0 && !words.contains('-') && words != "work"@ ==> memory::write::proposal_slug(
            None,
            words,
        ) == words,
{
    reveal_strlit("lesson");
    assert("lesson"@.len() == 6);
    if words.len() > 0 && !words.contains('-') {
        text_laws::one_piece(words, '-');
        let p = |x: Seq<char>| x.len() > 0;
        let e = seq![words];
        reveal(Seq::filter);
        assert(e.drop_last() =~= Seq::empty());
        assert(e.drop_last().filter(p) =~= Seq::empty());
        assert(e.filter(p) =~= e);
        assert(memory::write::derived(words) == text::join(e, "-"@));
    }
}

} // verus!
