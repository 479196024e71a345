//! The quorum of a review, and what may be retrieved. Status alone is
//! never enough: reviews, and a PM's finalization, bind the digest.
use crate::memory;
use crate::memory::body;
use crate::memory::{may_act, semantic_digest, FinalView, FinalizationReceipt, Front, FrontView, IdentityProof, Memory, MemoryView, ProofView, ReceiptView, ReviewReceipt};
use crate::text;
use vstd::prelude::*;

verus! {

// ---------- reviews ----------

/// An identity is of the alias that reviews, with a registration that is
/// not 0.
pub open spec fn registered(r: ReceiptView) -> bool {
    let prefix = r.reviewer + "#"@;
    text::begins(r.identity, prefix) && match text::unsigned_upto(
        r.identity.skip(prefix.len() as int),
        10,
        u64::MAX as nat,
    ) {
        Some(n) => n != 0,
        None => false,
    }
}

/// A review of the operation and cycle that counts: it binds the digest,
/// gives evidence, and names a whole identity.
pub open spec fn sound(r: ReceiptView, operation: Seq<char>, cycle: u64, digest: Seq<char>) -> bool {
    &&& r.operation == operation
    &&& r.cycle == cycle
    &&& r.digest == digest
    &&& !body::blank(r.evidence)
    &&& memory::acting_role(r.role)
    &&& r.reviewer.len() > 0
    &&& registered(r)
    &&& r.generation.len() > 0
    &&& r.process_start != 0
}

/// The review is not by someone who took part in the proposal.
pub open spec fn foreign(r: ReceiptView, author: ProofView, contributors: Seq<ProofView>) -> bool {
    &&& r.identity != author.id()
    &&& r.reviewer != author.alias
    &&& forall|i: int|
        0 <= i < contributors.len() ==> r.identity != (#[trigger] contributors[i]).id()
            && r.reviewer != contributors[i].alias
}

pub open spec fn passes(
    r: ReceiptView,
    m: MemoryView,
    author: ProofView,
    operation: Seq<char>,
    cycle: u64,
) -> bool {
    sound(r, operation, cycle, memory::digest(m)) && r.verdict == "pass"@ && foreign(
        r,
        author,
        m.front.contributors,
    )
}

/// The aliases that passed it, in the order of their reviews.
pub open spec fn voices(
    reviews: Seq<ReceiptView>,
    m: MemoryView,
    author: ProofView,
    operation: Seq<char>,
    cycle: u64,
) -> Seq<Seq<char>>
    decreases reviews.len(),
{
    if reviews.len() == 0 {
        seq![]
    } else if passes(reviews.last(), m, author, operation, cycle) {
        voices(reviews.drop_last(), m, author, operation, cycle).push(reviews.last().reviewer)
    } else {
        voices(reviews.drop_last(), m, author, operation, cycle)
    }
}

/// A review asked for a revision.
pub open spec fn disputed(m: MemoryView, operation: Seq<char>, cycle: u64) -> bool {
    exists|i: int|
        0 <= i < m.front.reviews.len() && sound(
            #[trigger] m.front.reviews[i],
            operation,
            cycle,
            memory::digest(m),
        ) && m.front.reviews[i].verdict == "revise"@
}

/// How many distinct aliases passed it.
pub open spec fn votes(m: MemoryView, author: ProofView, operation: Seq<char>, cycle: u64) -> nat {
    text::name_set(voices(m.front.reviews, m, author, operation, cycle)).len()
}

pub open spec fn no_proposer(m: MemoryView) -> Option<Seq<char>> {
    match m.front.author_proof {
        None => Some("review blocked: proposer has no authenticated native identity"@),
        Some(a) => if !a.valid() {
            Some("review blocked: proposer identity proof is incomplete"@)
        } else {
            None
        },
    }
}

/// Whether the quorum of a cycle stands, and why or why not.
pub open spec fn quorum(m: MemoryView, operation: Seq<char>, cycle: u64) -> (bool, Seq<char>) {
    match no_proposer(m) {
        Some(why) => (false, why),
        None => {
            let n = votes(m, m.front.author_proof->0, operation, cycle);
            if cycle == 0 {
                (false, "review blocked: invalid "@ + operation + " review cycle"@)
            } else if disputed(m, operation, cycle) {
                (
                    false,
                    "review blocked: an authenticated review requested revision in "@ + operation
                        + " cycle "@ + text::dec(cycle as nat),
                )
            } else if n < 2 {
                (
                    false,
                    "review blocked: "@ + text::dec(n)
                        + "/2 distinct authenticated reviews passed "@ + operation + " cycle "@
                        + text::dec(cycle as nat),
                )
            } else {
                (
                    true,
                    text::dec(n) + "/2 authenticated reviews passed "@ + operation + " cycle "@
                        + text::dec(cycle as nat),
                )
            }
        },
    }
}

fn is_empty(s: &str) -> (r: bool)
    ensures
        r == (s@.len() == 0),
{
    proof {
        reveal_strlit("");
        assert(s@.len() == 0 ==> s@ =~= ""@);
    }
    text::eq(s, "")
}

fn is_registered(r: &ReviewReceipt) -> (b: bool)
    ensures
        b == registered(r@),
{
    let prefix = r.reviewer.clone().concat("#");
    match text::strip_prefix(r.identity.as_str(), prefix.as_str()) {
        Some(rest) => match text::parse_unsigned(rest.as_str(), 10, u64::MAX) {
            Some(n) => n != 0,
            None => false,
        },
        None => false,
    }
}

fn is_sound(r: &ReviewReceipt, operation: &str, cycle: u64, digest: &str) -> (b: bool)
    ensures
        b == sound(r@, operation@, cycle, digest@),
{
    text::eq(r.operation.as_str(), operation) && r.cycle == cycle && text::eq(
        r.digest.as_str(),
        digest,
    ) && !body::is_blank(r.evidence.as_str()) && may_act(r.role.as_str()) && !is_empty(
        r.reviewer.as_str(),
    ) && is_registered(r) && !is_empty(r.generation.as_str()) && r.process_start != 0
}

fn is_foreign(r: &ReviewReceipt, author: &IdentityProof, contributors: &Vec<IdentityProof>) -> (b:
    bool)
    ensures
        b == foreign(r@, author@, memory::proof_views(contributors@)),
{
    if text::eq(r.identity.as_str(), author.stable_id().as_str()) || text::eq(
        r.reviewer.as_str(),
        author.alias.as_str(),
    ) {
        return false;
    }
    let ghost c = memory::proof_views(contributors@);
    let mut i: usize = 0;
    while i < contributors.len()
        invariant
            c == memory::proof_views(contributors@),
            r@.identity != author@.id(),
            r@.reviewer != author@.alias,
            i <= contributors@.len(),
            forall|k: int|
                0 <= k < i ==> r@.identity != (#[trigger] c[k]).id() && r@.reviewer != c[k].alias,
        decreases contributors.len() - i,
    {
        assert(c[i as int] == contributors@[i as int]@);
        if text::eq(r.identity.as_str(), contributors[i].stable_id().as_str()) || text::eq(
            r.reviewer.as_str(),
            contributors[i].alias.as_str(),
        ) {
            return false;
        }
        i = i + 1;
    }
    true
}

/// The aliases that passed it, each once, and whether one asked for a
/// revision.
fn tally(mem: &Memory, author: &IdentityProof, operation: &str, cycle: u64) -> (r: (usize, bool))
    ensures
        r.0 == votes(mem@, author@, operation@, cycle),
        r.1 == disputed(mem@, operation@, cycle),
{
    let digest = semantic_digest(mem);
    let ghost d = mem@.front.reviews;
    let mut names: Vec<String> = Vec::new();
    let mut revise = false;
    let mut i: usize = 0;
    assert(d.take(0) =~= Seq::empty());
    assert(names.deep_view() =~= text::name_set(
        voices(d.take(0), mem@, author@, operation@, cycle),
    ));
    while i < mem.front.reviews.len()
        invariant
            digest@ == memory::digest(mem@),
            d == mem@.front.reviews,
            i <= mem.front.reviews@.len(),
            names.deep_view() == text::name_set(
                voices(d.take(i as int), mem@, author@, operation@, cycle),
            ),
            text::increasing(names.deep_view()),
            revise == exists|k: int|
                0 <= k < i && sound(#[trigger] d[k], operation@, cycle, digest@) && d[k].verdict
                    == "revise"@,
        decreases mem.front.reviews.len() - i,
    {
        assert(d.take(i + 1).drop_last() =~= d.take(i as int));
        let r = &mem.front.reviews[i];
        assert(d[i as int] == r@);
        if is_sound(r, operation, cycle, digest.as_str()) {
            if text::eq(r.verdict.as_str(), "revise") {
                proof {
                    reveal_strlit("revise");
                    reveal_strlit("pass");
                    assert("revise"@.len() != "pass"@.len());
                }
                revise = true;
            } else if text::eq(r.verdict.as_str(), "pass") && is_foreign(
                r,
                author,
                &mem.front.contributors,
            ) {
                let ghost v = voices(d.take(i as int), mem@, author@, operation@, cycle);
                assert(v.push(r@.reviewer).drop_last() =~= v);
                text::insert_name(&mut names, r.reviewer.as_str());
            }
        }
        i = i + 1;
    }
    assert(d.take(i as int) =~= d);
    (names.len(), revise)
}

fn proposer_fault(mem: &Memory) -> (r: Option<&'static str>)
    ensures
        r.deep_view() == no_proposer(mem@),
{
    match &mem.front.author_proof {
        None => Some("review blocked: proposer has no authenticated native identity"),
        Some(a) => if !a.is_valid() {
            Some("review blocked: proposer identity proof is incomplete")
        } else {
            None
        },
    }
}

/// Whether the quorum of a cycle stands, and why or why not.
pub fn quorum_status_for_cycle(mem: &Memory, operation: &str, cycle: u64) -> (r: (bool, String))
    ensures
        (r.0, r.1@) == quorum(mem@, operation@, cycle),
{
    if let Some(why) = proposer_fault(mem) {
        return (false, why.to_owned());
    }
    let author = match &mem.front.author_proof {
        Some(a) => a,
        None => {
            return (false, String::new());
        },
    };
    let (n, revise) = tally(mem, author, operation, cycle);
    if cycle == 0 {
        return (
            false,
            "review blocked: invalid ".to_owned().concat(operation).concat(" review cycle"),
        );
    }
    let c = text::dec_of(cycle);
    if revise {
        return (
            false,
            "review blocked: an authenticated review requested revision in ".to_owned().concat(
                operation,
            ).concat(" cycle ").concat(c.as_str()),
        );
    }
    let count = text::dec_of(n as u64);
    if n < 2 {
        return (
            false,
            "review blocked: ".to_owned().concat(count.as_str()).concat(
                "/2 distinct authenticated reviews passed ",
            ).concat(operation).concat(" cycle ").concat(c.as_str()),
        );
    }
    (
        true,
        count.concat("/2 authenticated reviews passed ").concat(operation).concat(
            " cycle ",
        ).concat(c.as_str()),
    )
}

// ---------- the cycle ----------

/// The cycle that collects reviews of an operation: one is live only while
/// the operation is recorded as active.
pub open spec fn cycle_of(f: FrontView, operation: Seq<char>) -> Option<u64> {
    if f.active_operation != Some(operation) {
        None
    } else if operation == "accept"@ && f.status == "proposed"@ && f.review_cycle > 0 {
        Some(f.review_cycle)
    } else if operation == "verify"@ && f.status == "accepted"@ && f.review_cycle > 1 {
        Some(f.review_cycle)
    } else {
        None
    }
}

pub fn operation_cycle(front: &Front, operation: &str) -> (r: Option<u64>)
    ensures
        r == cycle_of(front@, operation@),
{
    if !text::opt_is(&front.active_operation, operation) {
        return None;
    }
    if text::eq(operation, "accept") && text::eq(front.status.as_str(), "proposed")
        && front.review_cycle > 0 {
        Some(front.review_cycle)
    } else if text::eq(operation, "verify") && text::eq(front.status.as_str(), "accepted")
        && front.review_cycle > 1 {
        Some(front.review_cycle)
    } else {
        None
    }
}

/// Whether the quorum of the operation's live cycle stands.
pub open spec fn standing(m: MemoryView, operation: Seq<char>) -> (bool, Seq<char>) {
    match no_proposer(m) {
        Some(why) => (false, why),
        None => match cycle_of(m.front, operation) {
            None => (false, "review blocked: no active "@ + operation + " review cycle"@),
            Some(c) => quorum(m, operation, c),
        },
    }
}

pub fn quorum_status(mem: &Memory, operation: &str) -> (r: (bool, String))
    ensures
        (r.0, r.1@) == standing(mem@, operation@),
{
    if let Some(why) = proposer_fault(mem) {
        return (false, why.to_owned());
    }
    match operation_cycle(&mem.front, operation) {
        None => (
            false,
            "review blocked: no active ".to_owned().concat(operation).concat(" review cycle"),
        ),
        Some(c) => quorum_status_for_cycle(mem, operation, c),
    }
}

// ---------- finalizations ----------

/// Two proofs are of one identity, or of one alias.
pub open spec fn same_party(a: ProofView, b: ProofView) -> bool {
    a.id() == b.id() || a.alias == b.alias
}

/// Someone who took part in the proposal.
pub open spec fn took_part(f: FrontView, who: ProofView) -> bool {
    ||| f.author_proof is Some && same_party(f.author_proof->0, who)
    ||| exists|i: int|
        0 <= i < f.contributors.len() && same_party(#[trigger] f.contributors[i], who)
}

/// The finalization of an operation with the highest cycle, the last of
/// those.
pub open spec fn latest(v: Seq<FinalView>, operation: Seq<char>) -> Option<FinalView>
    decreases v.len(),
{
    if v.len() == 0 {
        None
    } else {
        let before = latest(v.drop_last(), operation);
        let r = v.last();
        if r.operation == operation && (before is None || r.cycle >= before->0.cycle) {
            Some(r)
        } else {
            before
        }
    }
}

/// The latest finalization of an operation, where it is a PM's who took
/// no part in the proposal and binds the digest.
pub open spec fn finalization(f: FrontView, operation: Seq<char>, digest: Seq<char>) -> Option<
    FinalView,
> {
    match latest(f.finalizations, operation) {
        Some(r) => if r.digest == digest && r.finalizer.valid() && r.finalizer.role == "pm"@
            && !took_part(f, r.finalizer) && r.finalized_at.len() > 0 {
            Some(r)
        } else {
            None
        },
        None => None,
    }
}

fn is_same_party(a: &IdentityProof, b: &IdentityProof) -> (r: bool)
    ensures
        r == same_party(a@, b@),
{
    text::eq(a.stable_id().as_str(), b.stable_id().as_str()) || text::eq(
        a.alias.as_str(),
        b.alias.as_str(),
    )
}

pub fn proposal_identity_matches(front: &Front, identity: &IdentityProof) -> (r: bool)
    ensures
        r == took_part(front@, identity@),
{
    if let Some(a) = &front.author_proof {
        if is_same_party(a, identity) {
            return true;
        }
    }
    let ghost c = front@.contributors;
    let mut i: usize = 0;
    while i < front.contributors.len()
        invariant
            c == memory::proof_views(front.contributors@),
            c == front@.contributors,
            !(front@.author_proof is Some && same_party(front@.author_proof->0, identity@)),
            i <= front.contributors@.len(),
            forall|k: int| 0 <= k < i ==> !same_party(#[trigger] c[k], identity@),
        decreases front.contributors.len() - i,
    {
        assert(c[i as int] == front.contributors@[i as int]@);
        if is_same_party(&front.contributors[i], identity) {
            assert(same_party(front@.contributors[i as int], identity@));
            return true;
        }
        i = i + 1;
    }
    false
}

fn latest_of<'a>(v: &'a Vec<FinalizationReceipt>, operation: &str) -> (r: Option<
    &'a FinalizationReceipt,
>)
    ensures
        match r {
            Some(x) => latest(memory::final_views(v@), operation@) == Some(x@),
            None => latest(memory::final_views(v@), operation@) is None,
        },
{
    let ghost d = memory::final_views(v@);
    let mut best: Option<&FinalizationReceipt> = None;
    let mut i: usize = 0;
    assert(d.take(0) =~= Seq::empty());
    while i < v.len()
        invariant
            d == memory::final_views(v@),
            i <= v@.len(),
            match best {
                Some(x) => latest(d.take(i as int), operation@) == Some(x@),
                None => latest(d.take(i as int), operation@) is None,
            },
        decreases v.len() - i,
    {
        assert(d.take(i + 1).drop_last() =~= d.take(i as int));
        assert(d.take(i + 1).last() == v@[i as int]@);
        let r = &v[i];
        if text::eq(r.operation.as_str(), operation) {
            let newer = match best {
                None => true,
                Some(b) => r.cycle >= b.cycle,
            };
            if newer {
                best = Some(r);
            }
        }
        i = i + 1;
    }
    assert(d.take(i as int) =~= d);
    best
}

pub fn finalization_for<'a>(front: &'a Front, operation: &str, digest: &str) -> (r: Option<
    &'a FinalizationReceipt,
>)
    ensures
        match r {
            Some(x) => finalization(front@, operation@, digest@) == Some(x@),
            None => finalization(front@, operation@, digest@) is None,
        },
{
    match latest_of(&front.finalizations, operation) {
        Some(r) => {
            if text::eq(r.digest.as_str(), digest) && r.finalizer.is_valid() && text::eq(
                r.finalizer.role.as_str(),
                "pm",
            ) && !proposal_identity_matches(front, &r.finalizer) && !is_empty(
                r.finalized_at.as_str(),
            ) {
                Some(r)
            } else {
                None
            }
        },
        None => None,
    }
}

pub open spec fn finalized(f: FrontView, operation: Seq<char>) -> bool {
    exists|i: int|
        0 <= i < f.finalizations.len() && (#[trigger] f.finalizations[i]).operation == operation
}

pub fn is_finalized(front: &Front, operation: &str) -> (r: bool)
    ensures
        r == finalized(front@, operation@),
{
    let ghost d = front@.finalizations;
    let mut i: usize = 0;
    while i < front.finalizations.len()
        invariant
            d == memory::final_views(front.finalizations@),
            d == front@.finalizations,
            i <= front.finalizations@.len(),
            forall|k: int| 0 <= k < i ==> (#[trigger] d[k]).operation != operation@,
        decreases front.finalizations.len() - i,
    {
        assert(d[i as int] == front.finalizations@[i as int]@);
        if text::eq(front.finalizations[i].operation.as_str(), operation) {
            assert(front@.finalizations[i as int].operation == operation@);
            return true;
        }
        i = i + 1;
    }
    false
}

// ---------- retrieval ----------

/// Whether a memory may be retrieved after its acceptance: where a verify
/// cycle was opened, only with that cycle's finalization and quorum.
pub open spec fn verified(m: MemoryView) -> (bool, Seq<char>) {
    if m.front.review_cycle > 1 {
        match finalization(m.front, "verify"@, memory::digest(m)) {
            None => (
                false,
                "review blocked: latest verify finalization is invalid or has a different digest"@,
            ),
            Some(r) => if r.cycle != m.front.review_cycle {
                (
                    false,
                    "review blocked: latest verify finalization cycle "@ + text::dec(
                        r.cycle as nat,
                    ) + " does not match current cycle "@ + text::dec(
                        m.front.review_cycle as nat,
                    ),
                )
            } else if !quorum(m, "verify"@, r.cycle).0 {
                (
                    false,
                    "review blocked: verify finalization is not backed by a current quorum: "@
                        + quorum(m, "verify"@, r.cycle).1,
                )
            } else {
                (true, "accepted with PM verify finalization cycle "@ + text::dec(r.cycle as nat))
            },
        }
    } else if finalized(m.front, "verify"@) {
        (
            false,
            "review blocked: verify finalization exists without a current verify cycle"@,
        )
    } else {
        (true, "accepted with PM acceptance finalization"@)
    }
}

/// Whether a memory may be retrieved, and why or why not. Its acceptance
/// must be a PM's and still backed by its quorum, no cycle may be open,
/// and a later verify cycle must be finalized likewise.
pub open spec fn retrieval(m: MemoryView) -> (bool, Seq<char>) {
    if m.front.status != "accepted"@ {
        (false, "review blocked: memory status is "@ + m.front.status)
    } else if m.front.author_proof is None {
        (false, "review blocked: accepted record has no authenticated proposer"@)
    } else {
        match finalization(m.front, "accept"@, memory::digest(m)) {
            None => (
                false,
                "review blocked: accepted record has no matching PM acceptance finalization"@,
            ),
            Some(r) => if r.cycle != 1 {
                (
                    false,
                    "review blocked: acceptance finalization is bound to an invalid cycle"@,
                )
            } else if m.front.review_cycle == 0 {
                (false, "review blocked: accepted record has no current review cycle"@)
            } else if !quorum(m, "accept"@, 1).0 {
                (
                    false,
                    "review blocked: acceptance finalization is not backed by a current quorum: "@
                        + quorum(m, "accept"@, 1).1,
                )
            } else {
                match m.front.active_operation {
                    Some(op) => (
                        false,
                        "review blocked: "@ + op + " cycle "@ + text::dec(
                            m.front.review_cycle as nat,
                        ) + " awaits PM finalization"@,
                    ),
                    None => verified(m),
                }
            },
        }
    }
}

fn verified_status(mem: &Memory, digest: &str) -> (r: (bool, String))
    requires
        digest@ == memory::digest(mem@),
    ensures
        (r.0, r.1@) == verified(mem@),
{
    if mem.front.review_cycle > 1 {
        match finalization_for(&mem.front, "verify", digest) {
            None => (
                false,
                "review blocked: latest verify finalization is invalid or has a different digest".to_owned(),
            ),
            Some(r) => {
                if r.cycle != mem.front.review_cycle {
                    return (
                        false,
                        "review blocked: latest verify finalization cycle ".to_owned().concat(
                            text::dec_of(r.cycle).as_str(),
                        ).concat(" does not match current cycle ").concat(
                            text::dec_of(mem.front.review_cycle).as_str(),
                        ),
                    );
                }
                let (ok, why) = quorum_status_for_cycle(mem, "verify", r.cycle);
                if !ok {
                    return (
                        false,
                        "review blocked: verify finalization is not backed by a current quorum: ".to_owned().concat(
                            why.as_str(),
                        ),
                    );
                }
                (
                    true,
                    "accepted with PM verify finalization cycle ".to_owned().concat(
                        text::dec_of(r.cycle).as_str(),
                    ),
                )
            },
        }
    } else if is_finalized(&mem.front, "verify") {
        (
            false,
            "review blocked: verify finalization exists without a current verify cycle".to_owned(),
        )
    } else {
        (true, "accepted with PM acceptance finalization".to_owned())
    }
}

/// Whether a memory may be retrieved, and why or why not.
pub fn retrieval_status(mem: &Memory) -> (r: (bool, String))
    ensures
        (r.0, r.1@) == retrieval(mem@),
{
    if !text::eq(mem.front.status.as_str(), "accepted") {
        return (
            false,
            "review blocked: memory status is ".to_owned().concat(mem.front.status.as_str()),
        );
    }
    if mem.front.author_proof.is_none() {
        return (
            false,
            "review blocked: accepted record has no authenticated proposer".to_owned(),
        );
    }
    let digest = semantic_digest(mem);
    let accepted = match finalization_for(&mem.front, "accept", digest.as_str()) {
        None => {
            return (
                false,
                "review blocked: accepted record has no matching PM acceptance finalization".to_owned(),
            );
        },
        Some(r) => r,
    };
    if accepted.cycle != 1 {
        return (
            false,
            "review blocked: acceptance finalization is bound to an invalid cycle".to_owned(),
        );
    }
    if mem.front.review_cycle == 0 {
        return (
            false,
            "review blocked: accepted record has no current review cycle".to_owned(),
        );
    }
    let (ok, why) = quorum_status_for_cycle(mem, "accept", 1);
    if !ok {
        return (
            false,
            "review blocked: acceptance finalization is not backed by a current quorum: ".to_owned().concat(
                why.as_str(),
            ),
        );
    }
    if let Some(op) = &mem.front.active_operation {
        return (
            false,
            "review blocked: ".to_owned().concat(op.as_str()).concat(" cycle ").concat(
                text::dec_of(mem.front.review_cycle).as_str(),
            ).concat(" awaits PM finalization"),
        );
    }
    verified_status(mem, digest.as_str())
}

// ---------- laws ----------

proof fn voices_hold(
    reviews: Seq<ReceiptView>,
    m: MemoryView,
    author: ProofView,
    operation: Seq<char>,
    cycle: u64,
    who: Seq<char>,
) -> (i: int)
    requires
        voices(reviews, m, author, operation, cycle).contains(who),
    ensures
        0 <= i < reviews.len(),
        passes(reviews[i], m, author, operation, cycle),
        reviews[i].reviewer == who,
    decreases reviews.len(),
{
    let v = voices(reviews, m, author, operation, cycle);
    let k = choose|k: int| 0 <= k < v.len() && v[k] == who;
    let before = voices(reviews.drop_last(), m, author, operation, cycle);
    if passes(reviews.last(), m, author, operation, cycle) && k == before.len() {
        reviews.len() - 1
    } else {
        assert(before[k] == who);
        voices_hold(reviews.drop_last(), m, author, operation, cycle, who)
    }
}

/// A quorum rests on two reviews of the present digest that passed, by two
/// different aliases, neither of them the author's or a contributor's.
pub proof fn a_quorum_is_two_foreign_reviewers(
    m: MemoryView,
    operation: Seq<char>,
    cycle: u64,
) -> (r: (int, int))
    requires
        quorum(m, operation, cycle).0,
    ensures
        0 <= r.0 < m.front.reviews.len(),
        0 <= r.1 < m.front.reviews.len(),
        m.front.author_proof is Some,
        passes(m.front.reviews[r.0], m, m.front.author_proof->0, operation, cycle),
        passes(m.front.reviews[r.1], m, m.front.author_proof->0, operation, cycle),
        m.front.reviews[r.0].reviewer != m.front.reviews[r.1].reviewer,
        m.front.reviews[r.0].identity != m.front.reviews[r.1].identity,
{
    let a = m.front.author_proof->0;
    let v = voices(m.front.reviews, m, a, operation, cycle);
    let names = text::name_set(v);
    text::name_set_members(v);
    assert(names.contains(names[0]) && names.contains(names[1]));
    assert(text::lt(names[0], names[1]));
    text::lt_total(names[0], names[1]);
    let i = voices_hold(m.front.reviews, m, a, operation, cycle, names[0]);
    let j = voices_hold(m.front.reviews, m, a, operation, cycle, names[1]);
    assert(names[0] != names[1]) by {
        if names[0] == names[1] {
            text::lt_transitive(names[0], names[1], names[0]);
            lt_irreflexive(names[0]);
        }
    }
    if m.front.reviews[i].identity == m.front.reviews[j].identity {
        one_identity_one_reviewer(m.front.reviews[i], m.front.reviews[j]);
    }
    (i, j)
}

proof fn lt_irreflexive(s: Seq<char>)
    ensures
        !text::lt(s, s),
    decreases s.len(),
{
    if s.len() > 0 {
        lt_irreflexive(s.drop_first());
    }
}

proof fn digits_have_no_hash(s: Seq<char>, i: int)
    requires
        text::digits_value(s, 10) is Some,
        0 <= i < s.len(),
    ensures
        s[i] != '#',
    decreases s.len(),
{
    if i < s.len() - 1 {
        digits_have_no_hash(s.drop_last(), i);
    }
}

/// An identity is of one alias alone.
pub proof fn one_identity_one_reviewer(a: ReceiptView, b: ReceiptView)
    requires
        registered(a),
        registered(b),
        a.identity == b.identity,
    ensures
        a.reviewer == b.reviewer,
{
    let s = a.identity;
    hash_is_last(a);
    hash_is_last(b);
    let i = a.reviewer.len();
    let j = b.reviewer.len();
    if i < j {
        assert(s[j as int] == '#');
        assert(false);
    }
    if j < i {
        assert(s[i as int] == '#');
        assert(false);
    }
    assert(a.reviewer =~= s.take(i as int));
    assert(b.reviewer =~= s.take(i as int));
}

proof fn hash_is_last(r: ReceiptView)
    requires
        registered(r),
    ensures
        r.reviewer.len() < r.identity.len(),
        r.identity[r.reviewer.len() as int] == '#',
        r.identity.take(r.reviewer.len() as int) == r.reviewer,
        forall|k: int| r.reviewer.len() < k < r.identity.len() ==> #[trigger] r.identity[k] != '#',
{
    reveal_strlit("#");
    let prefix = r.reviewer + "#"@;
    let n = prefix.len() as int;
    let rest = r.identity.skip(n);
    assert(prefix[n - 1] == '#');
    assert forall|k: int| 0 <= k < n implies r.identity[k] == prefix[k] by {
        assert(r.identity.take(n)[k] == prefix[k]);
    }
    assert(r.identity.take(n - 1) =~= r.reviewer);
    let d = text::unsigned_digits(rest);
    assert forall|k: int| n <= k < r.identity.len() implies #[trigger] r.identity[k] != '#' by {
        assert(rest[k - n] == r.identity[k]);
        if d == rest {
            digits_have_no_hash(rest, k - n);
        } else if k > n {
            assert(d[k - n - 1] == rest[k - n]);
            digits_have_no_hash(d, k - n - 1);
        }
    }
}

/// A review that binds another digest counts for nothing: once a claim is
/// changed and its digest with it, no old review makes a quorum.
pub proof fn a_changed_digest_voids_reviews(m: MemoryView, operation: Seq<char>, cycle: u64)
    requires
        forall|i: int|
            0 <= i < m.front.reviews.len() ==> (#[trigger] m.front.reviews[i]).digest
                != memory::digest(m),
    ensures
        !quorum(m, operation, cycle).0,
{
    if quorum(m, operation, cycle).0 {
        let r = a_quorum_is_two_foreign_reviewers(m, operation, cycle);
        assert(m.front.reviews[r.0].digest == memory::digest(m));
    }
}

/// What is retrieved was accepted by a PM who took no part in the
/// proposal, rests on a quorum of its present digest, and has no cycle
/// open.
pub proof fn retrieval_is_earned(m: MemoryView)
    requires
        retrieval(m).0,
    ensures
        m.front.status == "accepted"@,
        quorum(m, "accept"@, 1).0,
        m.front.active_operation is None,
        ({
            let r = finalization(m.front, "accept"@, memory::digest(m));
            &&& r is Some
            &&& r->0.finalizer.role == "pm"@
            &&& !took_part(m.front, r->0.finalizer)
        }),
        m.front.review_cycle > 1 ==> quorum(m, "verify"@, m.front.review_cycle).0,
{
}

/// A record without an authenticated proposer is never retrieved.
pub proof fn legacy_is_blocked(m: MemoryView)
    requires
        m.front.author_proof is None,
    ensures
        !retrieval(m).0,
        !standing(m, "accept"@).0,
        !standing(m, "verify"@).0,
{
}

} // verus!
