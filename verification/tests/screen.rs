use cadence::json::{parse, Json};
use cadence::memory::cli::{lint_exit, rpc_request, stale_line, MemoryAction};
use cadence::memory::store::Stale;
use cadence::overview::agents::{AgentProbe, AgentRow};
use cadence::overview::clock::{claim_since, clock_key, ClaimStep, ClockCache, StatusClock, Step};
use cadence::overview::delivery::{delivery_items, Observed, Record, State, VerdictRec};
use cadence::overview::deploy::{default_ref, drift_item, Drift, DriftPart, Project, Repo};
use cadence::overview::github::{default_branch, gh_prs, main_ci_block, pr_item, runs_query};
use cadence::overview::needs::{Audience, OwnerRow, Owners};
use cadence::overview::screen::{overview_from, AgentIn, GhIn, Sources, TrackerIn};
use cadence::overview::tracker::{
    clock_ids, escalated, tracker_behind_item, tracker_items, Issue, Plan, Question,
};
use cadence::overview::Options;
use cadence::platform::local::{add_attachment, take_attachment, Attachment};

const NOW: i64 = 1_000_000;

fn json(text: &str) -> Json {
    parse(text).unwrap()
}

fn issue(id: &str, status: &str) -> Issue {
    Issue {
        id: id.to_string(),
        project: "cadence".to_string(),
        title: format!("title of {id}"),
        owner: Some("w1".to_string()),
        created: "1970-01-12T12:46:40Z".to_string(),
        status: status.to_string(),
        open_pr_ref: false,
        branch_prefix: format!("{}-", id.to_lowercase()),
        blocked_by: vec![],
        tags: vec![],
        kind: None,
        plan: None,
        questions: vec![],
        held: false,
    }
}

fn record(state: State, merge_ready: bool) -> Record {
    Record {
        issue: "CAD-7".to_string(),
        project: "cadence".to_string(),
        worker: "w1".to_string(),
        since: NOW - 60,
        pr: Some("https://github.com/o/r/pull/9".to_string()),
        pr_ref: Some("o/r#9".to_string()),
        disable_auto: false,
        state,
        merge_ready,
        revisions: 4,
        verdict: Some(VerdictRec {
            sha: "abc".to_string(),
            reviewer: "w2".to_string(),
            summary: "fine".to_string(),
            report: "r1".to_string(),
            at: NOW - 30,
        }),
        observed: Some(Observed {
            additions: 3,
            deletions: 1,
            files: 2,
        }),
    }
}

#[test]
fn tracker_rows_follow_the_status() {
    let mut blocked = issue("CAD-2", "blocked");
    blocked.blocked_by = vec!["CAD-3".to_string()];
    let mut planned = issue("CAD-4", "backlog");
    planned.plan = Some(Plan {
        state: "proposed".to_string(),
        proposed_at: "1970-01-12T13:30:00Z".to_string(),
        proposed_by: "pm".to_string(),
        tickets: vec!["CAD-5".to_string()],
    });
    let issues = vec![
        issue("CAD-1", "review"),
        blocked,
        issue("CAD-3", "done"),
        planned,
    ];
    let clocks = vec![("CAD-1".to_string(), Some(NOW - 600))];
    let rows = tracker_items(&issues, &vec![], &clocks, NOW, 10);
    let kinds: Vec<(&str, &str)> = rows
        .iter()
        .map(|r| (r.kind.as_str(), r.subject_id.as_str()))
        .collect();
    assert!(kinds.contains(&("review_no_pr", "CAD-1")), "{kinds:?}");
    assert!(kinds.contains(&("blocked_ready", "CAD-2")), "{kinds:?}");
    assert!(kinds.contains(&("plan", "CAD-4")), "{kinds:?}");
    assert!(!kinds.iter().any(|k| k.1 == "CAD-3"), "{kinds:?}");
    let review = rows.iter().find(|r| r.kind == "review_no_pr").unwrap();
    assert_eq!(review.title, "CAD-1 in review with no open PR");
    assert_eq!(review.since, Some(NOW - 600));
    assert_eq!(review.owner.as_deref(), Some("w1"));
    // An open branch of the issue clears the row.
    let branch = vec!["cad-1-fix".to_string()];
    let rows = tracker_items(&issues, &branch, &clocks, NOW, 10);
    assert!(!rows.iter().any(|r| r.kind == "review_no_pr"));
    assert!(clock_ids(&issues, &vec![], NOW, 10).contains(&"CAD-1".to_string()));
    assert!(tracker_behind_item(0).is_none());
    assert_eq!(
        tracker_behind_item(3).unwrap().title,
        "tracker 3 commit(s) behind upstream"
    );
}

#[test]
fn reports_surface_until_triage_up_to_a_cap() {
    let report = |id: &str, status: &str| {
        let mut i = issue(id, status);
        i.tags = vec!["intake".to_string()];
        i
    };
    let issues = vec![
        report("CAD-1", "backlog"),
        report("CAD-2", "backlog"),
        report("CAD-3", "todo"),
    ];
    let rows = tracker_items(&issues, &vec![], &vec![], NOW, 10);
    assert_eq!(rows.iter().filter(|r| r.kind == "intake").count(), 2);
    let rows = tracker_items(&issues, &vec![], &vec![], NOW, 1);
    let intake: Vec<_> = rows.iter().filter(|r| r.kind == "intake").collect();
    assert_eq!(intake.len(), 2);
    assert_eq!(intake[1].subject_id, "intake-overflow");
}

#[test]
fn delivery_rows_come_from_the_record() {
    let rows = delivery_items(Ok(vec![record(State::Passed, true)]), NOW);
    assert_eq!(rows.len(), 1);
    assert_eq!(rows[0].kind, "merge_decision");
    assert_eq!(
        rows[0].title,
        "merge? CAD-7 o/r#9 by w1 — PASS by w2: fine (+3 −1, 2 files)"
    );
    assert_eq!(rows[0].since, Some(NOW - 30));
    assert!(delivery_items(Ok(vec![record(State::Passed, false)]), NOW).is_empty());
    let rows = delivery_items(Ok(vec![record(State::Escalated, false)]), NOW);
    assert_eq!(
        rows[0].title,
        "CAD-7: 4 REVISE verdicts — the review did not converge"
    );
    let mut auto = record(State::Unstaffed, false);
    auto.disable_auto = true;
    let kinds: Vec<String> = delivery_items(Ok(vec![auto]), NOW)
        .into_iter()
        .map(|r| r.kind)
        .collect();
    assert_eq!(kinds, ["auto_merge_on", "review_unstaffed"]);
    let rows = delivery_items(Err("bad json".to_string()), NOW);
    assert_eq!(rows[0].kind, "delivery_unreadable");
    assert!(rows[0].title.contains("bad json"));
}

fn sources() -> Sources {
    Sources {
        reachable: true,
        agents: vec![],
        owners: Owners {
            reachable: true,
            agents: vec![OwnerRow {
                alias: "w1".to_string(),
                dead: false,
                state: Some("idle".to_string()),
                inbox_stale: false,
            }],
        },
        members: vec![],
        notes: vec![],
        projects: vec![Project {
            key: "cadence".to_string(),
            repos: vec![Repo {
                remote: Some("github.com/o/r".to_string()),
                declared: None,
                path: None,
            }],
        }],
        pm_dir: "/pm".to_string(),
        tracker: Some(TrackerIn {
            issues: vec![issue("CAD-1", "review")],
            clocks: vec![("CAD-1".to_string(), Some(NOW - 600))],
            skipped: 0,
            records: Ok(vec![record(State::Passed, true)]),
            behind: Some(2),
        }),
        gh: vec![GhIn {
            slug: "o/r".to_string(),
            data: json(
                r#"{"prs": [], "main_ci": {"branch": "main", "runs": [
                    {"id": 3, "head_sha": "aaaaaaaaaaaaaaaaaaaaaaaaaaaaaaaaaaaaaaaa",
                     "status": "completed", "conclusion": "failure", "event": "push",
                     "path": ".github/workflows/ci.yml", "head_branch": "main",
                     "html_url": "u", "created_at": "1970-01-12T13:46:00Z"}]}}"#,
            ),
            log: None,
        }],
        gh_error: None,
        drift: DriftPart {
            project: None,
            repo: None,
            drift: Drift::Unknown("cannot tell".to_string()),
            held: None,
        },
    }
}

#[test]
fn the_screen_puts_all_rows_in_order_of_urgency() {
    let o = overview_from(sources(), &Options::cli(), NOW, 10).unwrap();
    let kinds: Vec<&str> = o.needs_me.iter().map(|i| i.kind.as_str()).collect();
    assert_eq!(
        kinds,
        ["merge_decision", "review_no_pr", "ci_red", "tracker_behind"]
    );
    assert_eq!(o.needs_me[1].audience, Audience::Team);
    assert_eq!(o.projects.len(), 1);
    assert_eq!(
        o.projects[0].open_by_status,
        vec![("review".to_string(), 1)]
    );
    assert_eq!(o.projects[0].oldest_review_age, Some(3600));
    assert_eq!(o.main_ci.len(), 1);
    assert_eq!(o.main_ci[0].slug, "o/r");
}

#[test]
fn an_unknown_scope_is_refused() {
    let mut opts = Options::cli();
    opts.scope.project = Some("nope".to_string());
    assert_eq!(
        overview_from(sources(), &opts, NOW, 10).unwrap_err(),
        "unknown project 'nope' — known: cadence"
    );
    let mut empty = sources();
    empty.projects = vec![];
    assert_eq!(
        overview_from(empty, &opts, NOW, 10).unwrap_err(),
        "unknown project 'nope' — no tracker projects under /pm"
    );
    let mut opts = Options::board();
    opts.scope.group = Some("ghost".to_string());
    assert!(overview_from(sources(), &opts, NOW, 10).is_err());
}

#[test]
fn an_agent_down_is_a_row_of_the_screen() {
    let mut s = sources();
    s.tracker = None;
    s.gh = vec![];
    s.agents = vec![AgentIn {
        row: AgentRow {
            alias: "w1".to_string(),
            cwd: None,
            updated: Some(NOW - 5),
            upstream: None,
            state: Some("attention".to_string()),
            master: false,
            unconfined: false,
            resume_failed: None,
            stalled: false,
            silent_secs: None,
            pane_menu: None,
            awaiting: None,
            silent_ended: false,
            ended_secs: None,
            inbox_queued: None,
            inbox: false,
            health: None,
        },
        probe: AgentProbe {
            show: None,
            requests: vec![],
            holds_drift: false,
            probe_unknown: false,
            unprobed: false,
            degraded: vec![],
        },
        confined: true,
        has_login: true,
        login_command: String::new(),
    }];
    let o = overview_from(s, &Options::cli(), NOW, 10).unwrap();
    assert_eq!(o.needs_me.len(), 1);
    assert_eq!(o.needs_me[0].kind, "fenced");
    assert_eq!(o.needs_me[0].agents, ["w1"]);
}

#[test]
fn a_pull_request_is_ready_or_waits_for_a_verdict() {
    let pr = |verdict: &str| {
        json(&format!(
            r#"{{"number": 7, "title": "fix", "headRefName": "cad-1-fix",
                "headRefOid": "abc", "url": "u", "isDraft": false,
                "createdAt": "1970-01-12T13:30:00Z", "statusCheckRollup": [
                {{"__typename": "StatusContext", "context": "qa-verdict", "state": "{verdict}",
                  "startedAt": "1970-01-12T13:41:40Z"}}]}}"#
        ))
    };
    let ready = pr_item("o/r", "cadence", &pr("SUCCESS"), &vec![], NOW).unwrap();
    assert_eq!(ready.kind, "merge");
    assert_eq!(ready.subject_id, "o/r#7");
    assert!(gh_prs(Ok("[]".to_string())).is_ok());
    assert!(gh_prs(Ok("{".to_string())).is_err());
    assert!(gh_prs(Err("no gh".to_string())).is_err());
    assert_eq!(
        default_branch("o/r", Ok(r#"{"default_branch": "main"}"#.to_string())).unwrap(),
        "main"
    );
    assert!(runs_query("o/r", "main").contains("main"));
    let failed = main_ci_block("main", Err("boom".to_string()));
    assert_eq!(failed.get_str("error"), Some("boom"));
}

#[test]
fn drift_is_offered_only_when_panes_are_idle() {
    let behind = Drift::Known {
        base: "origin/main".to_string(),
        count: 2,
        commits: vec![],
    };
    let (row, held) = drift_item(&behind, "cadence", true, false);
    assert_eq!(
        row.unwrap().title,
        "2 merged commit(s) not running — all panes idle"
    );
    assert!(held.is_none());
    let (row, held) = drift_item(&behind, "cadence", false, false);
    assert!(row.is_none());
    assert_eq!(held, Some("a pane is busy — restart only when idle"));
    assert_eq!(
        default_ref(Some("origin/trunk\n"), [true; 4]).unwrap(),
        "origin/trunk"
    );
    assert_eq!(
        default_ref(None, [false, false, true, true]).unwrap(),
        "main"
    );
    assert_eq!(
        default_ref(None, [false; 4]).unwrap_err(),
        "no default branch ref"
    );
}

#[test]
fn a_kept_time_holds_while_its_key_does() {
    let mut c = ClockCache::empty();
    let key = clock_key("head1", "rev1");
    c.put("status", "CAD-1", &key, Some(5));
    assert_eq!(c.get("status", "CAD-1", &key), Some(5));
    assert_eq!(c.get("status", "CAD-1", &clock_key("head2", "rev1")), None);
    assert!(matches!(
        claim_since(&c, true, "CAD-1", None),
        ClaimStep::Read { keep: false }
    ));
    let mut clock = StatusClock::new();
    clock.settle("CAD-1", Some(9), false);
    assert!(matches!(
        clock.since("CAD-1", "file", None, 100, None),
        Step::Known(Some(9))
    ));
}

#[test]
fn attachments_are_capped() {
    let inside = vec!["docs".to_string(), "a.md".to_string()];
    let a = take_attachment(&inside, "docs/a.md", true, 3, Ok(b"abc".to_vec())).unwrap();
    assert_eq!(a.name, "a.md");
    assert!(take_attachment(&inside, "docs/a.md", false, 3, Ok(vec![])).is_err());
    assert!(take_attachment(&inside, "docs/a.md", true, u64::MAX, Ok(vec![])).is_err());
    let mut all: Vec<Attachment> = vec![];
    let one = || Attachment {
        name: "a".to_string(),
        bytes: vec![],
    };
    assert!(add_attachment(&mut all, one()).is_ok());
    assert!(add_attachment(&mut all, one()).is_err());
    assert_eq!(all.len(), 1);
}

#[test]
fn a_command_becomes_one_request() {
    let verify = MemoryAction::Verify {
        slug: "lesson".to_string(),
        project: Some("demo".to_string()),
    };
    let rpc = rpc_request(&verify, &None, "d1").unwrap();
    assert_eq!(rpc.params.get_str("slug"), Some("lesson"));
    let lint = MemoryAction::Lint { project: None };
    assert!(rpc_request(&lint, &None, "").is_none());
    assert_eq!(lint_exit(&vec![]), 0);
    assert_eq!(lint_exit(&vec!["e".to_string()]), 1);
    let s = Stale {
        project: "demo".to_string(),
        slug: "lesson".to_string(),
        verified_at: None,
        reason: "unverified",
        repo: None,
        changed: vec!["a".to_string(), "b".to_string()],
    };
    assert_eq!(stale_line(&s), "demo/lesson\tverified never\ta, b");
}

#[test]
fn only_escalated_questions_reach_the_operator() {
    let q = |name: &str| Question {
        name: name.to_string(),
        at: None,
        agent: "w1".to_string(),
        impact: "blocked".to_string(),
        body: "which one".to_string(),
        options: vec![],
        summary: Json::Null,
        escalated_by: Json::Null,
    };
    let record = json(
        r#"{"CAD-1/b": {"summary": "pick", "by": "master"}, "CAD-1/c": "text", "CAD-2/a": {}}"#,
    );
    let up = escalated("CAD-1", vec![q("a"), q("b"), q("c")], &record);
    assert_eq!(up.len(), 1);
    assert_eq!(up[0].name, "b");
    assert_eq!(up[0].summary.as_str(), Some("pick"));
    assert_eq!(up[0].escalated_by.as_str(), Some("master"));
    let up = escalated("CAD-2", vec![q("a")], &record);
    assert!(up.len() == 1 && up[0].summary.is_null());
    assert!(escalated("CAD-3", vec![q("a")], &Json::Null).is_empty());
}
