use cadence::error::Error;
use cadence::json::{parse, print};
use cadence::memory::body::{apply_line, fact_line, lint_body};
use cadence::memory::card::{card_json, detail_json};
use cadence::memory::check::{check_front, glob_over_budget};
use cadence::memory::matching::{
    glob_match, issue_ctx, match_for_issue, match_memories, matches_ctx, project_rules,
    render_lessons, MatchCtx,
};
use cadence::memory::quorum::{quorum_status, retrieval_status};
use cadence::memory::reply;
use cadence::memory::store::{
    candidates, find, iso_epoch, load_project, load_project_report, stale_age, Age, Entry, Listing,
};
use cadence::memory::write::{
    check_finalizer, check_rejecter, finalize_native, parse_memory, propose_native, refuse_existing, reject_native, render_memory,
    split_front, submit_review, supersede_native, Content, Proposal, ReviewRequest,
};
use cadence::memory::{
    check_slug, memory_dir, semantic_digest, valid_slug, FinalizationReceipt, Front, IdentityProof,
    Memory, NativeIdentity, ReviewReceipt, Scope,
};

const NOW: &str = "2026-01-01T00:00:00Z";

fn no_scope() -> Scope {
    Scope {
        components: Vec::new(),
        paths: Vec::new(),
        providers: Vec::new(),
        tags: Vec::new(),
        project: false,
    }
}

fn whole_project() -> Scope {
    Scope { project: true, ..no_scope() }
}

fn no_ctx() -> MatchCtx {
    MatchCtx {
        components: Vec::new(),
        paths: Vec::new(),
        providers: Vec::new(),
        tags: Vec::new(),
    }
}

fn evidence(alias: &str, registration: u64) -> IdentityProof {
    IdentityProof {
        alias: alias.to_string(),
        registration,
        generation: format!("gen-{registration}"),
        process_start: registration + 100,
        role: if alias == "pm" || alias.starts_with("pm-") {
            "pm".to_string()
        } else {
            "worker".to_string()
        },
    }
}

fn native(alias: &str, registration: u64) -> NativeIdentity {
    NativeIdentity { proof: evidence(alias, registration) }
}

fn memory(status: &str, cycle: u64, author: Option<IdentityProof>) -> Memory {
    Memory {
        project: "demo".to_string(),
        front: Front {
            id: "lesson".to_string(),
            kind: "rule".to_string(),
            status: status.to_string(),
            scope: whole_project(),
            source: Some("CAD-191".to_string()),
            confidence: "medium".to_string(),
            created: NOW.to_string(),
            verified_at: None,
            supersedes: None,
            author: author.as_ref().map(|p| p.alias.clone()),
            author_proof: author,
            contributors: Vec::new(),
            review_cycle: cycle,
            active_operation: None,
            reviews: Vec::new(),
            finalizations: Vec::new(),
        },
        body: "fact\n\n**Why:** evidence\n\n**How to apply:** use it\n".to_string(),
        path: "/tmp/lesson.md".to_string(),
    }
}

fn receipt(actor: &IdentityProof, operation: &str, cycle: u64, digest: &str) -> ReviewReceipt {
    ReviewReceipt {
        reviewer: actor.alias.clone(),
        identity: actor.stable_id(),
        generation: actor.generation.clone(),
        process_start: actor.process_start,
        role: actor.role.clone(),
        operation: operation.to_string(),
        cycle,
        digest: digest.to_string(),
        verdict: "pass".to_string(),
        evidence: "independent evidence".to_string(),
        recorded_at: NOW.to_string(),
    }
}

fn finalization(
    actor: &IdentityProof,
    operation: &str,
    cycle: u64,
    digest: &str,
) -> FinalizationReceipt {
    FinalizationReceipt {
        operation: operation.to_string(),
        cycle,
        digest: digest.to_string(),
        finalizer: actor.clone(),
        finalized_at: NOW.to_string(),
    }
}

fn propose(slug: &str, confidence: &str, body: &str, author: &NativeIdentity) -> Memory {
    propose_native(
        &Proposal {
            kind: "rule".to_string(),
            scope: whole_project(),
            source: Some("CAD-191".to_string()),
            confidence: Some(confidence.to_string()),
            slug: Some(slug.to_string()),
        },
        Content::Body(body.to_string()),
        slug,
        "demo",
        "/pm/demo/memory",
        &Vec::new(),
        author,
        NOW,
    )
    .unwrap()
}

fn review(mem: Memory, operation: &str, evidence: &str, digest: &str, who: &NativeIdentity) -> Memory {
    submit_review(
        mem,
        &Vec::new(),
        &ReviewRequest { operation, verdict: "pass", evidence, expected_digest: digest },
        who,
        NOW,
    )
    .unwrap()
}

#[test]
fn native_review_finalize_consumes_cycle_and_requires_new_verify_cycle() {
    let author = native("worker-author", 1);
    let pm_actor = native("pm", 4);
    let worker_a = native("worker-a", 2);
    let worker_b = native("worker-b", 3);
    let body = "fact\n\n**Why:** evidence\n\n**How to apply:** use it\n";
    let mem = propose("lesson", "high", body, &author);
    let digest = semantic_digest(&mem);
    let mem = review(mem, "accept", "worker-a acceptance evidence", &digest, &worker_a);
    let mem = review(mem, "accept", "worker-b acceptance evidence", &digest, &worker_b);
    let accepted = finalize_native(mem, &Vec::new(), "accept", &digest, &pm_actor, NOW).unwrap();
    assert!(retrieval_status(&accepted).0);

    let repeated =
        finalize_native(accepted.clone(), &Vec::new(), "accept", &digest, &pm_actor, NOW)
            .unwrap_err();
    assert!(repeated.message().contains("already finalized"));
    assert!(repeated.message().contains(
        "memory accept review cycle was already finalized; submit a fresh review cycle"
    ));

    let mut mem = accepted;
    for (worker, evidence) in
        [(&worker_a, "worker-a verify evidence"), (&worker_b, "worker-b verify evidence")]
    {
        mem = review(mem, "verify", evidence, &digest, worker);
    }
    assert_eq!(mem.front.review_cycle, 2);
    assert!(!retrieval_status(&mem).0);
    let verified = finalize_native(mem, &Vec::new(), "verify", &digest, &pm_actor, NOW).unwrap();
    assert!(retrieval_status(&verified).0);

    let repeated =
        finalize_native(verified.clone(), &Vec::new(), "verify", &digest, &pm_actor, NOW)
            .unwrap_err();
    assert!(repeated.message().contains("already finalized"));

    let mut mem = verified;
    for (worker, evidence) in [
        (&worker_a, "worker-a cycle-three evidence"),
        (&worker_b, "worker-b cycle-three evidence"),
    ] {
        mem = review(mem, "verify", evidence, &digest, worker);
    }
    assert_eq!(mem.front.review_cycle, 3);
    assert!(!retrieval_status(&mem).0);
    let last = finalize_native(mem, &Vec::new(), "verify", &digest, &pm_actor, NOW).unwrap();
    assert_eq!(last.front.finalizations.len(), 3);
    assert!(retrieval_status(&last).0);
}

#[test]
fn leading_blank_memory_body_keeps_digest_through_acceptance() {
    let author = native("worker-author", 1);
    let pm_actor = native("pm", 4);
    let worker_a = native("worker-a", 2);
    let worker_b = native("worker-b", 3);
    let body = "\nleading blank fact\n\n**Why:** preserve the exact body\n\n**How to apply:** retain it\n";
    let mem = propose("leading-blank", "high", body, &author);
    let digest = semantic_digest(&mem);
    // written to its file and read back
    let file = render_memory("id: leading-blank\n", &mem.body);
    let (front, loaded) = parse_memory(&file, Ok(mem.front.clone())).unwrap();
    assert_eq!(loaded, body);
    let mem = Memory { front, body: loaded, ..mem };
    assert_eq!(semantic_digest(&mem), digest);
    let mem = review(mem, "accept", "worker-a inspected the preserved body", &digest, &worker_a);
    let mem = review(mem, "accept", "worker-b inspected the preserved body", &digest, &worker_b);
    let accepted = finalize_native(mem, &Vec::new(), "accept", &digest, &pm_actor, NOW).unwrap();
    assert_eq!(accepted.body, body);
    assert_eq!(semantic_digest(&accepted), digest);
    assert!(retrieval_status(&accepted).0);
}

/// The memories of a tracker, as they lie on disk.
struct Store {
    projects: Vec<String>,
    files: Vec<Memory>,
}

impl Store {
    fn of(mem: &Memory) -> Store {
        Store { projects: vec!["demo".to_string(), "other".to_string()], files: vec![mem.clone()] }
    }

    /// The memories of a slug in the projects asked for, through the load
    /// of each.
    fn find(&self, project: Option<&str>, slug: &str) -> Result<Memory, Error> {
        let unknown = Error::Rejected("unknown project".to_string());
        let mut hits = Vec::new();
        for key in candidates(self.projects.clone(), project, unknown)? {
            let entries = self.files.iter().filter(|m| m.project == key).map(|m| Entry::File {
                name: format!("{}.md", m.front.id),
                link: false,
                loaded: Ok(Some(m.clone())),
            });
            let loaded = load_project(&key, Listing::Entries(entries.collect()))?;
            hits.extend(loaded.into_iter().filter(|m| m.front.id == slug));
        }
        find(slug, hits)
    }

    fn save(&mut self, mem: Memory) {
        self.files.retain(|m| m.front.id != mem.front.id);
        self.files.push(mem);
    }

    fn review(
        &mut self,
        project: &str,
        slug: &str,
        evidence: &str,
        digest: &str,
        who: &NativeIdentity,
    ) -> Result<(), Error> {
        let mem = self.find(Some(project), slug)?;
        let request = ReviewRequest {
            operation: "accept",
            verdict: "pass",
            evidence,
            expected_digest: digest,
        };
        let mem = submit_review(mem, &Vec::new(), &request, who, NOW)?;
        self.save(mem);
        Ok(())
    }

    /// Everything that is stored, to the last byte.
    fn bytes(&self) -> Vec<u8> {
        format!("{:?}", self.files).into_bytes()
    }
}

#[test]
fn native_review_refuses_scope_and_source_changes_after_load() {
    let author = native("worker-author", 1);
    let other = native("worker-other", 2);
    let body = "fact\n\n**Why:** evidence\n\n**How to apply:** use it\n";
    let mut store = Store::of(&propose("stale-review", "high", body, &author));
    let loaded = store.find(Some("demo"), "stale-review").unwrap();
    let digest = semantic_digest(&loaded);

    // Another writer changes the source after the digest was taken.
    let mut changed_source = loaded.clone();
    changed_source.front.source = Some("CAD-191-revised".to_string());
    store.save(changed_source);
    let before_refused_source = store.bytes();
    let err = store
        .review("demo", "stale-review", "stale source review", &digest, &other)
        .unwrap_err();
    assert!(err.message().contains("revision changed"), "{}", err.message());
    assert_eq!(before_refused_source, store.bytes());
    let after_source = store.find(Some("demo"), "stale-review").unwrap();
    assert!(after_source.front.reviews.is_empty());
    assert_eq!(after_source.front.source.as_deref(), Some("CAD-191-revised"));

    // The loaded revision again, and then a change of what it applies to.
    store.save(loaded.clone());
    let mut changed_scope = loaded.clone();
    changed_scope.front.scope.paths = vec!["src/**".to_string()];
    store.save(changed_scope);
    let before_refused_scope = store.bytes();
    let err = store
        .review("demo", "stale-review", "stale scope review", &digest, &other)
        .unwrap_err();
    assert!(err.message().contains("revision changed"), "{}", err.message());
    assert_eq!(before_refused_scope, store.bytes());
    let after_scope = store.find(Some("demo"), "stale-review").unwrap();
    assert!(after_scope.front.reviews.is_empty());
    assert_eq!(after_scope.front.scope.paths, vec!["src/**".to_string()]);
}

#[test]
fn supersede_refusal_preserves_existing_memory_bytes() {
    let author = native("worker-author", 1);
    let body = "old fact\n\n**Why:** evidence\n\n**How to apply:** use it\n";
    let store = Store::of(&propose("old-memory", "medium", body, &author));
    let before = store.bytes();
    let err = supersede_native();
    assert!(err.message().contains("crash-atomic pair recovery"), "{}", err.message());
    assert_eq!(before, store.bytes());
    assert!(store.find(Some("demo"), "new-memory").is_err());
}

#[test]
fn retrieval_rejects_persisted_self_finalizer_corruption() {
    let author = native("pm-author", 1);
    let mut corrupted = propose(
        "corrupt-finalizer",
        "high",
        "self-finalized fact\n\n**Why:** corrupt persisted receipt\n\n**How to apply:** refuse it\n",
        &author,
    );
    corrupted.front.status = "accepted".to_string();
    corrupted.front.review_cycle = 1;
    let digest = semantic_digest(&corrupted);
    corrupted.front.reviews = vec![
        receipt(&evidence("worker-a", 2), "accept", 1, &digest),
        receipt(&evidence("worker-b", 3), "accept", 1, &digest),
    ];
    corrupted.front.finalizations =
        vec![finalization(&evidence("pm-author", 99), "accept", 1, &digest)];
    corrupted.front.active_operation = None;
    let (eligible, reason) = retrieval_status(&corrupted);
    assert!(!eligible);
    assert!(reason.contains("no matching PM acceptance finalization"));
}

#[test]
fn proposer_cannot_finalize_its_own_acceptance() {
    let author = native("pm-author", 1);
    let finalizer = native("pm", 4);
    let body = "fact\n\n**Why:** evidence\n\n**How to apply:** use it\n";
    let mem = propose("pm-authored", "high", body, &author);
    let digest = semantic_digest(&mem);
    let mem = review(mem, "accept", "worker-a evidence", &digest, &native("worker-a", 2));
    let mem = review(mem, "accept", "worker-b evidence", &digest, &native("worker-b", 3));
    let err = finalize_native(mem.clone(), &Vec::new(), "accept", &digest, &author, NOW)
        .unwrap_err();
    assert!(err.message().contains("proposer or contributor"));
    assert!(!retrieval_status(&mem).0);
    let accepted = finalize_native(mem, &Vec::new(), "accept", &digest, &finalizer, NOW).unwrap();
    assert!(retrieval_status(&accepted).0);
}

#[test]
fn review_in_wrong_project_refuses_without_mutating_memory() {
    let author = native("worker-author", 1);
    let other = native("worker-other", 2);
    let body = "fact\n\n**Why:** evidence\n\n**How to apply:** use it\n";
    let mut store = Store::of(&propose("project-bound", "high", body, &author));
    let digest = semantic_digest(&store.find(Some("demo"), "project-bound").unwrap());
    let before = store.bytes();
    let err = store
        .review("other", "project-bound", "wrong project", &digest, &other)
        .unwrap_err();
    assert!(err.message().contains("Unknown memory"), "{}", err.message());
    assert_eq!(before, store.bytes());
    let unchanged = store.find(Some("demo"), "project-bound").unwrap();
    assert!(unchanged.front.reviews.is_empty());
    assert!(unchanged.front.active_operation.is_none());
    // In its own project the same review is taken.
    store.review("demo", "project-bound", "own project", &digest, &other).unwrap();
    assert_eq!(store.find(Some("demo"), "project-bound").unwrap().front.reviews.len(), 1);
}

#[test]
fn accepted_retrieval_requires_two_distinct_worker_aliases() {
    let mut mem = memory("accepted", 1, Some(evidence("author", 1)));
    let digest = semantic_digest(&mem);
    mem.front.reviews.push(receipt(&evidence("worker-a", 2), "accept", 1, &digest));
    assert!(!retrieval_status(&mem).0);
    mem.front.reviews.push(receipt(&evidence("worker-b", 3), "accept", 1, &digest));
    assert!(!retrieval_status(&mem).0);
    mem.front.finalizations.push(finalization(&evidence("pm", 4), "accept", 1, &digest));
    assert!(retrieval_status(&mem).0);
    assert_eq!(match_memories(&vec![mem], &no_ctx()).len(), 1);
}

#[test]
fn quorum_status_reports_legacy_identity_before_cycle_state() {
    let mem = memory("proposed", 0, None);
    let (eligible, reason) = quorum_status(&mem, "accept");
    assert!(!eligible);
    assert!(reason.contains("no authenticated native identity"));
}

fn eligible(
    id: &str,
    kind: &str,
    confidence: &str,
    scope: Scope,
    verified_at: &str,
    registration: u64,
) -> Memory {
    let author = evidence(&format!("author-{id}"), registration);
    let mut mem = memory("accepted", 1, Some(author));
    mem.front.id = id.to_string();
    mem.front.kind = kind.to_string();
    mem.front.confidence = confidence.to_string();
    mem.front.scope = scope;
    mem.front.verified_at = Some(verified_at.to_string());
    mem.path = format!("/tmp/{id}.md");
    let digest = semantic_digest(&mem);
    mem.front.reviews.push(receipt(
        &evidence(&format!("review-a-{id}"), registration + 100),
        "accept",
        1,
        &digest,
    ));
    mem.front.reviews.push(receipt(
        &evidence(&format!("review-b-{id}"), registration + 200),
        "accept",
        1,
        &digest,
    ));
    mem.front.finalizations.push(finalization(
        &evidence(&format!("pm-{id}"), registration + 300),
        "accept",
        1,
        &digest,
    ));
    mem
}

fn pool() -> Vec<Memory> {
    let daemon = || Scope { components: vec!["daemon".to_string()], ..no_scope() };
    let provider = || Scope { providers: vec!["cursor".to_string()], ..no_scope() };
    vec![
        eligible("r-project", "rule", "high", whole_project(), NOW, 1000),
        eligible("r-comp", "rule", "medium", daemon(), NOW, 2000),
        eligible("r-low", "rule", "low", whole_project(), NOW, 3000),
        eligible("g-comp-hi", "gotcha", "high", daemon(), NOW, 4000),
        eligible(
            "g-tag",
            "gotcha",
            "medium",
            Scope { tags: vec!["flaky".to_string()], ..no_scope() },
            NOW,
            5000,
        ),
        eligible("g-comp-lo", "gotcha", "low", daemon(), NOW, 6000),
        eligible(
            "c-path",
            "recipe",
            "medium",
            Scope { paths: vec!["src/**".to_string()], ..no_scope() },
            NOW,
            7000,
        ),
        eligible("c-prov", "recipe", "medium", provider(), NOW, 8000),
        eligible("d-prov", "decision", "high", provider(), NOW, 9000),
        eligible(
            "x-other",
            "gotcha",
            "medium",
            Scope { components: vec!["other".to_string()], ..no_scope() },
            NOW,
            10000,
        ),
        memory("proposed", 0, Some(evidence("pending-author", 11000))),
    ]
}

fn names(found: Vec<&Memory>) -> Vec<String> {
    found.into_iter().map(|m| m.front.id.clone()).collect()
}

#[test]
fn match_ranking_and_union_semantics_use_only_finalized_memories() {
    let memories = pool();
    let all = vec![
        "r-project",
        "r-comp",
        "r-low",
        "g-comp-hi",
        "g-tag",
        "g-comp-lo",
        "c-path",
        "c-prov",
        "d-prov",
    ];
    assert_eq!(
        names(match_memories(
            &memories,
            &MatchCtx {
                components: vec!["daemon".to_string()],
                paths: vec!["src/adapter/x.rs".to_string()],
                tags: vec!["flaky".to_string()],
                providers: vec!["cursor".to_string()],
            }
        )),
        all
    );
    assert_eq!(names(match_memories(&memories, &no_ctx())), vec!["r-project", "r-low"]);
    assert_eq!(
        names(match_memories(
            &memories,
            &MatchCtx { components: vec!["other".to_string()], ..no_ctx() }
        )),
        vec!["r-project", "r-low", "x-other"]
    );
    // the same through an issue
    assert_eq!(
        names(match_for_issue(
            Some("daemon"),
            &vec!["flaky".to_string()],
            &vec!["src/adapter/x.rs".to_string(), "src/adapter/x.rs".to_string()],
            Some("cursor"),
            &memories,
        )),
        all
    );
}

#[test]
fn alias_reuse_cannot_supply_the_second_vote() {
    let mut mem = memory("accepted", 1, Some(evidence("author", 1)));
    let digest = semantic_digest(&mem);
    mem.front.reviews.push(receipt(&evidence("worker-a", 2), "accept", 1, &digest));
    mem.front.reviews.push(receipt(&evidence("worker-b", 3), "accept", 1, &digest));
    mem.front.finalizations.push(finalization(&evidence("pm", 4), "accept", 1, &digest));
    assert!(retrieval_status(&mem).0);
    mem.front.reviews[1] = receipt(&evidence("worker-a", 9), "accept", 1, &digest);
    assert!(!retrieval_status(&mem).0);
}

#[test]
fn finalized_quorum_requires_both_retained_receipts() {
    let mut mem = memory("accepted", 1, Some(evidence("author", 1)));
    let digest = semantic_digest(&mem);
    mem.front.reviews.push(receipt(&evidence("worker-a", 2), "accept", 1, &digest));
    mem.front.reviews.push(receipt(&evidence("worker-b", 3), "accept", 1, &digest));
    mem.front.finalizations.push(finalization(&evidence("pm", 4), "accept", 1, &digest));
    assert!(retrieval_status(&mem).0);
    mem.front.reviews.pop();
    assert!(!retrieval_status(&mem).0);
}

#[test]
fn author_alias_cannot_vote_after_reregistration() {
    let mut mem = memory("accepted", 1, Some(evidence("author", 1)));
    let digest = semantic_digest(&mem);
    mem.front.reviews.push(receipt(&evidence("author", 99), "accept", 1, &digest));
    mem.front.reviews.push(receipt(&evidence("worker-b", 3), "accept", 1, &digest));
    mem.front.finalizations.push(finalization(&evidence("pm", 4), "accept", 1, &digest));
    assert!(!retrieval_status(&mem).0);
}

#[test]
fn authenticated_pm_can_be_a_non_author_reviewer() {
    let mut mem = memory("accepted", 1, Some(evidence("author", 1)));
    let digest = semantic_digest(&mem);
    mem.front.reviews.push(receipt(&evidence("pm-other", 4), "accept", 1, &digest));
    mem.front.reviews.push(receipt(&evidence("worker-a", 2), "accept", 1, &digest));
    mem.front.finalizations.push(finalization(&evidence("pm", 5), "accept", 1, &digest));
    assert!(retrieval_status(&mem).0);
}

#[test]
fn changed_claim_invalidates_old_receipts() {
    let mut mem = memory("accepted", 1, Some(evidence("author", 1)));
    let digest = semantic_digest(&mem);
    mem.front.reviews.push(receipt(&evidence("worker-a", 2), "accept", 1, &digest));
    mem.front.reviews.push(receipt(&evidence("worker-b", 3), "accept", 1, &digest));
    mem.front.finalizations.push(finalization(&evidence("pm", 4), "accept", 1, &digest));
    mem.body = "changed\n\n**Why:** new\n\n**How to apply:** new\n".to_string();
    assert!(!retrieval_status(&mem).0);
}

#[test]
fn accepted_legacy_record_is_visible_but_blocked() {
    let mem = memory("accepted", 1, None);
    let (eligible, reason) = retrieval_status(&mem);
    assert!(!eligible);
    assert!(reason.contains("authenticated proposer"));
}

#[test]
fn verify_requires_a_fresh_cycle() {
    let mut mem = memory("accepted", 1, Some(evidence("author", 1)));
    let digest = semantic_digest(&mem);
    mem.front.reviews.push(receipt(&evidence("worker-a", 2), "accept", 1, &digest));
    mem.front.reviews.push(receipt(&evidence("worker-b", 3), "accept", 1, &digest));
    mem.front.finalizations.push(finalization(&evidence("pm", 4), "accept", 1, &digest));
    assert!(retrieval_status(&mem).0);
    mem.front.active_operation = Some("verify".to_string());
    mem.front.review_cycle = 2;
    assert!(!retrieval_status(&mem).0);
    mem.front.reviews.push(receipt(&evidence("worker-a", 2), "verify", 2, &digest));
    mem.front.reviews.push(receipt(&evidence("worker-b", 3), "verify", 2, &digest));
    assert!(!retrieval_status(&mem).0);
    mem.front.finalizations.push(finalization(&evidence("pm", 4), "verify", 2, &digest));
    mem.front.active_operation = None;
    assert!(retrieval_status(&mem).0);
    mem.front.reviews[2].verdict = "revise".to_string();
    assert!(!retrieval_status(&mem).0);
    mem.front.reviews[2].verdict = "pass".to_string();

    mem.front.active_operation = Some("verify".to_string());
    mem.front.review_cycle = 3;
    assert!(!retrieval_status(&mem).0);
    mem.front.reviews.push(receipt(&evidence("worker-a", 2), "verify", 3, &digest));
    mem.front.reviews.push(receipt(&evidence("worker-b", 3), "verify", 3, &digest));
    assert!(!retrieval_status(&mem).0);
    mem.front.finalizations.push(finalization(&evidence("pm", 4), "verify", 3, &digest));
    mem.front.active_operation = None;
    assert!(retrieval_status(&mem).0);
    let latest = mem.front.finalizations.pop().unwrap();
    assert!(!retrieval_status(&mem).0);
    mem.front.finalizations.push(latest);
    mem.front.finalizations[2].digest = "0".repeat(64);
    assert!(!retrieval_status(&mem).0);
    mem.front.finalizations[2].digest = digest.clone();
    mem.front.reviews[4].verdict = "revise".to_string();
    assert!(!retrieval_status(&mem).0);
}

#[test]
fn a_slug_has_its_shape() {
    assert!(valid_slug("lesson-1"));
    assert!(!valid_slug(""));
    assert!(!valid_slug("Lesson"));
    assert!(!valid_slug("-lesson"));
    assert!(!valid_slug("lesson-"));
    assert_eq!(check_slug("lesson-1").unwrap(), "lesson-1");
    assert!(check_slug("a b").is_err());
    assert_eq!(memory_dir("/pm", "demo"), "/pm/demo/memory");
}

#[test]
fn a_body_is_cut_into_its_sections() {
    let body = "  one fact  \n\n**Why:** it was seen\n\n**How to apply:** use it\nthen again\n";
    assert_eq!(fact_line(body), "  one fact  ");
    assert_eq!(apply_line(body), "use it");
    assert!(lint_body("lesson", body).is_empty());
    assert!(!lint_body("lesson", "no sections at all").is_empty());
}

#[test]
fn globs_stay_in_their_segment() {
    assert!(glob_match("src/*.rs", "src/lib.rs"));
    assert!(!glob_match("src/*.rs", "src/a/lib.rs"));
    assert!(glob_match("src/**", "src/a/lib.rs"));
    assert!(glob_match("src/lib.rs", "src/lib.rs"));
    assert!(!glob_match("src/lib.rs", "src/lib.r"));
    assert!(glob_match("src/?.rs", "src/é.rs"));
    assert!(!glob_match("src/??.rs", "src/é.rs"));
    assert!(!glob_match("src?lib.rs", "src/lib.rs"));
    assert!(!glob_match("src/**", "lib/src/a"));
    assert!(!glob_over_budget("src/**"));
    assert!(glob_over_budget(&"**".repeat(200)));
}

#[test]
fn lessons_are_capped() {
    let memories: Vec<Memory> = (0..20)
        .map(|i| eligible(&format!("m-{i:02}"), "rule", "high", whole_project(), NOW, 1000 * (i + 1)))
        .collect();
    let picked = match_memories(&memories, &no_ctx());
    assert_eq!(picked.len(), 20);
    let (text, slugs) = render_lessons(&picked);
    assert_eq!(slugs.len(), 12);
    assert_eq!(slugs[0], "m-00");
    assert!(text.starts_with("# Lessons — matched project memories\n\n- `m-00` (rule): fact\n  apply: use it\n"));
    assert!(text.ends_with("\n(8 more matched — `cadence memory ls` lists them)\n"), "{text}");
    assert!(text.len() <= 4096);
    assert_eq!(project_rules(&memories).len(), 20);
    assert!(matches_ctx(&whole_project(), &no_ctx()));
    assert!(issue_ctx(None, &Vec::new(), &Vec::new(), None).components.is_empty());
}

#[test]
fn a_rejected_memory_is_never_retrieved() {
    let author = native("worker-author", 1);
    let mem = propose("lesson", "high", "fact\n\n**Why:** w\n\n**How to apply:** h\n", &author);
    let rejected = reject_native(mem, &Vec::new(), &native("pm", 4)).unwrap();
    assert_eq!(rejected.front.status, "rejected");
    assert!(!retrieval_status(&rejected).0);
    assert!(refuse_existing("lesson", true).is_err());
    assert!(refuse_existing("lesson", false).is_ok());
}

#[test]
fn a_memory_file_is_split_at_its_fence() {
    let file = render_memory("id: x\n", "\nbody\n");
    assert_eq!(split_front(&file), Some(("id: x\n".to_string(), "\nbody\n".to_string())));
    assert_eq!(split_front("no fence"), None);
    let front = memory("proposed", 0, None).front;
    assert!(parse_memory("no fence", Ok(front)).unwrap_err().message().contains("frontmatter"));
    let e = parse_memory(&file, Err("bad indent".to_string())).unwrap_err();
    assert_eq!(e.message(), "memory frontmatter is not valid YAML: bad indent");
}

#[test]
fn a_project_loads_what_can_be_loaded() {
    let (found, errors) = load_project_report("demo", Listing::Missing);
    assert!(found.is_empty() && errors.is_empty());
    let (_, errors) = load_project_report("demo", Listing::Failed("denied".to_string()));
    assert_eq!(errors, vec!["demo/memory: cannot list directory: denied"]);
    let (found, errors) = load_project_report(
        "demo",
        Listing::Entries(vec![Entry::Unreadable("io".to_string())]),
    );
    assert!(found.is_empty());
    assert_eq!(errors.len(), 1);
    assert!(load_project("demo", Listing::Missing).unwrap().is_empty());
    let e = load_project("demo", Listing::Failed("denied".to_string())).unwrap_err();
    assert_eq!(e.message(), "memory: demo/memory: cannot list directory: denied");
    assert_eq!(iso_epoch("2000-01-01T00:00:00Z"), Some(946684800));
}

#[test]
fn a_front_is_checked() {
    let mut mem = memory("proposed", 1, Some(evidence("author", 1)));
    assert!(check_front(&mem, &Vec::new()).is_ok());
    mem.front.kind = "opinion".to_string();
    assert!(check_front(&mem, &Vec::new()).is_err());
}

#[test]
fn a_card_shows_where_the_reviews_stand() {
    let m = eligible("r-project", "rule", "high", whole_project(), NOW, 1000);
    let card = card_json(&m);
    assert_eq!(card.get_str("slug"), Some("r-project"));
    assert_eq!(card.get_str("fact"), Some("fact"));
    assert_eq!(card.get_str("revision_digest"), Some(semantic_digest(&m).as_str()));
    assert_eq!(card.get("quorum").unwrap().get("eligible").unwrap().as_bool(), Some(true));
    assert_eq!(card.get("finalization_count").unwrap().as_u64(), Some(1));
    assert!(card.get("body").is_none());
    let page = detail_json(&m);
    assert_eq!(page.get_str("body"), Some(m.body.as_str()));
    // the text reads back as the value
    assert_eq!(print(&parse(&print(&page)).unwrap()), print(&page));
}

#[test]
fn replies_say_how_a_memory_stands() {
    let author = native("worker-author", 1);
    let body = "fact\n\n**Why:** evidence\n\n**How to apply:** use it\n";
    let mem = propose("lesson", "high", body, &author);
    let digest = semantic_digest(&mem);
    assert_eq!(
        print(&reply::propose_reply(&mem, true)),
        format!(
            "{{\"committed\":true,\"digest\":\"{digest}\",\"path\":\"{}\",\"project\":\"demo\",\
             \"quorum\":{{\"eligible\":false,\"reason\":\"review required\"}},\
             \"slug\":\"lesson\",\"status\":\"proposed\"}}",
            mem.path
        )
    );
    assert_eq!(reply::subject(&mem, "lesson", "proposed"), "demo/memory/lesson: proposed");

    let mem = review(mem, "accept", "first evidence", &digest, &native("worker-a", 2));
    let (eligible, why) = quorum_status(&mem, "accept");
    assert!(!eligible);
    assert_eq!(
        print(&reply::review_reply(&mem, "lesson", "accept", "pass", false)),
        format!(
            "{{\"committed\":false,\"cycle\":1,\"digest\":\"{digest}\",\"operation\":\"accept\",\
             \"project\":\"demo\",\"quorum\":{{\"eligible\":false,\"reason\":\"{why}\"}},\
             \"slug\":\"lesson\",\"status\":\"proposed\",\"verdict\":\"pass\"}}"
        )
    );
    assert_eq!(
        reply::review_subject(&mem, "lesson", "accept", "pass"),
        "demo/memory/lesson: review accept pass"
    );

    let mem = review(mem, "accept", "second evidence", &digest, &native("worker-b", 3));
    let (_, why) = quorum_status(&mem, "accept");
    let done = finalize_native(mem, &Vec::new(), "accept", &digest, &native("pm", 4), NOW).unwrap();
    assert_eq!(
        print(&reply::finalize_reply(&done, "lesson", "accept", &why, true)),
        format!(
            "{{\"committed\":true,\"cycle\":1,\"digest\":\"{digest}\",\"finalized\":true,\
             \"operation\":\"accept\",\"project\":\"demo\",\
             \"quorum\":{{\"eligible\":true,\"reason\":\"{why}\"}},\
             \"slug\":\"lesson\",\"status\":\"accepted\"}}"
        )
    );
    assert_eq!(
        reply::final_subject(&done, "lesson", "accept"),
        "demo/memory/lesson: accept finalized"
    );
    assert_eq!(
        print(&reply::reject_reply(&done, "lesson", true)),
        format!(
            "{{\"committed\":true,\"digest\":\"{digest}\",\"project\":\"demo\",\
             \"slug\":\"lesson\",\"status\":\"rejected\"}}"
        )
    );
}

#[test]
fn the_note_of_a_cut_tail_fits_too() {
    // entries that fill the file to its last bytes leave no room for the note
    let long = |i: u64, n: usize| {
        let mut m = eligible(&format!("m-{i:02}"), "rule", "high", whole_project(), NOW, 1000 * (i + 1));
        m.body = format!("{}\n\n**Why:** w\n\n**How to apply:** h\n", "x".repeat(n));
        m
    };
    let head = "# Lessons — matched project memories\n\n".len();
    let entry = |n: usize| format!("- `m-00` (rule): {}\n  apply: h\n", "x".repeat(n)).len();
    let mut memories: Vec<Memory> = (0..3).map(|i| long(i, 1000)).collect();
    let left = 4096 - head - 3 * entry(1000);
    memories.push(long(3, left - entry(0)));
    let all: Vec<&Memory> = memories.iter().collect();
    let (text, slugs) = render_lessons(&all);
    assert_eq!((text.len(), slugs.len()), (4096, 4));
    memories.push(long(4, 10));
    let all: Vec<&Memory> = memories.iter().collect();
    let (text, slugs) = render_lessons(&all);
    assert!(text.len() <= 4096);
    assert_eq!(slugs, ["m-00", "m-01", "m-02", "m-04"]);
    assert!(text.ends_with("\n(1 more matched — `cadence memory ls` lists them)\n"), "{text}");
    let (text, slugs) = render_lessons(&Vec::new());
    assert!(text.is_empty() && slugs.is_empty());
}

#[test]
fn a_slug_may_hold_hyphens_in_a_row() {
    assert!(valid_slug("a--b") && valid_slug("0"));
    assert!(valid_slug(&"a".repeat(48)) && !valid_slug(&"a".repeat(49)));
    for bad in ["", "-a", "a-", "A", "a_b", "é"] {
        assert!(!valid_slug(bad), "{bad}");
    }
}

#[test]
fn a_project_that_is_asked_for_must_exist() {
    let keys = || vec!["a".to_string(), "b".to_string()];
    let unknown = || Error::Rejected("no project".to_string());
    assert_eq!(candidates(keys(), None, unknown()).unwrap(), ["a", "b"]);
    assert_eq!(candidates(keys(), Some("b"), unknown()).unwrap(), ["b"]);
    assert_eq!(candidates(keys(), Some("c"), unknown()).unwrap_err().message(), "no project");
}

#[test]
fn only_a_pm_finalizes_or_rejects() {
    assert!(check_finalizer("accept", &native("pm", 4)).is_ok());
    assert!(check_finalizer("accept", &native("worker-a", 2)).is_err());
    assert_eq!(
        check_finalizer("drop", &native("pm", 4)).unwrap_err().message(),
        "memory finalization operation is unsupported"
    );
    assert!(check_rejecter(&native("pm", 4)).is_ok());
    assert!(check_rejecter(&native("worker-a", 2)).is_err());
}

#[test]
fn a_window_of_any_size_is_taken() {
    let m = eligible("m", "rule", "high", whole_project(), NOW, 1000);
    assert!(matches!(stale_age(&m, 1_800_000_000, u64::MAX), Age::Fresh));
    assert!(matches!(stale_age(&m, 1_800_000_000, 0), Age::Unverified));
    assert_eq!(iso_epoch("2000-01-01é"), None);
    assert_eq!(iso_epoch("2000-01-01"), Some(946684800));
}

#[test]
fn a_loaded_memory_is_of_its_project() {
    let mut m = eligible("r-project", "rule", "high", whole_project(), NOW, 1000);
    m.project = "elsewhere".to_string();
    let listing = Listing::Entries(vec![Entry::File {
        name: "r-project.md".to_string(),
        link: false,
        loaded: Ok(Some(m)),
    }]);
    let found = load_project("demo", listing).unwrap();
    assert_eq!(found.len(), 1);
    assert_eq!(found[0].project, "demo");
}
