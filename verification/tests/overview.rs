use cadence::json::{parse, Json};
use cadence::overview::agents::{
    agent_items, agent_project, AgentProbe, AgentRow, InboxHealth, Message, ResumeFailed, Show,
};
use cadence::overview::cmd_send_nudge;
use cadence::overview::deploy::{build_repo_match, compute_drift, Drift, Project, Repo};
use cadence::overview::github::{
    checks_green, classify_main_ci, main_ci_alerts, main_ci_view, rollup_span, verdict_state,
    CiState, MainCiView, ShaCi,
};
use cadence::overview::needs::{
    classify_needs, item, merge_by_subject, scope_rows, sort_needs, Audience, Item, OwnerRow,
    Owners, ESCALATE_AFTER_SECS,
};
use cadence::overview::pr_number;
use cadence::time::parse_iso;

const NOW: i64 = 1_000_000;

fn json(text: &str) -> Json {
    parse(text).unwrap()
}

fn agent(alias: &str, state: &str, updated: Option<i64>) -> AgentRow {
    AgentRow {
        alias: alias.to_string(),
        cwd: None,
        updated,
        upstream: None,
        state: Some(state.to_string()),
        master: false,
        unconfined: false,
        resume_failed: None,
        stalled: false,
        silent_secs: None,
        pane_menu: None,
        awaiting: None,
        silent_ended: false,
        ended_secs: None,
        inbox_queued: None,
        inbox: false,
        health: None,
    }
}

fn no_probe() -> AgentProbe {
    AgentProbe {
        show: None,
        requests: vec![],
        holds_drift: false,
        probe_unknown: false,
        unprobed: false,
        degraded: vec![],
    }
}

fn with_messages(messages: Vec<(&str, i64)>) -> AgentProbe {
    AgentProbe {
        show: Some(Show {
            queued: None,
            messages: Some(
                messages
                    .into_iter()
                    .map(|(state, completed)| Message {
                        state: Some(state.to_string()),
                        completed: Some(completed),
                    })
                    .collect(),
            ),
        }),
        ..no_probe()
    }
}

fn owner(alias: &str, dead: bool, state: &str) -> OwnerRow {
    OwnerRow {
        alias: alias.to_string(),
        dead,
        state: Some(state.to_string()),
        inbox_stale: false,
    }
}

fn pm_row(dead: bool, state: &str) -> OwnerRow {
    owner("pm", dead, state)
}

fn resolve(rows: Vec<Item>, agents: Vec<OwnerRow>) -> Vec<Item> {
    let owners = Owners {
        reachable: true,
        agents,
    };
    merge_by_subject(classify_needs(rows, &owners, NOW, ESCALATE_AFTER_SECS))
}

/// A fenced worker `w1` whose PM is `pm`: its turn went `unknown`
/// `fenced_ago` seconds before `NOW`, and its last write is older.
fn fenced_worker(fenced_ago: i64) -> (AgentRow, AgentProbe) {
    let mut a = agent("w1", "attention", Some(NOW - 2 * 86_400));
    a.upstream = Some("pm".to_string());
    let probe = with_messages(vec![
        ("completed", NOW - 3 * 86_400),
        ("unknown", NOW - fenced_ago),
    ]);
    (a, probe)
}

fn causes(i: &Item) -> Vec<&str> {
    i.causes.iter().map(|c| c.cause.as_str()).collect()
}

fn reason(i: &Item) -> &str {
    i.reason.as_deref().unwrap()
}

#[test]
fn iso_parses() {
    assert_eq!(parse_iso("1970-01-01T00:00:00Z"), Some(0));
    assert_eq!(parse_iso("2000-01-01T00:00:00Z"), Some(946684800));
    assert_eq!(parse_iso("2026-09-19T05:33:43"), None);
    assert_eq!(parse_iso(""), None);
    assert_eq!(parse_iso("not a date at all!!!!"), None);
    assert_eq!(parse_iso("1970-01-01T00é00:00Z"), None);
}

#[test]
fn pr_numbers() {
    assert_eq!(pr_number("board: tailnet sharing (#51)"), Some(51));
    assert_eq!(pr_number("no number"), None);
    assert_eq!(pr_number("mid (#5) subject"), None);
    assert_eq!(pr_number("edge (#abc)"), None);
    assert_eq!(pr_number("12)"), None);
    assert_eq!(pr_number("a (#1) b (#23)"), Some(23));
}

#[test]
fn rollup_verdict_and_green() {
    let rollup = vec![
        json(r#"{"__typename":"CheckRun","name":"test","status":"COMPLETED","conclusion":"SUCCESS"}"#),
        json(r#"{"__typename":"StatusContext","context":"qa-verdict","state":"SUCCESS"}"#),
    ];
    assert_eq!(verdict_state(&rollup).as_deref(), Some("SUCCESS"));
    assert!(checks_green(&rollup));
    let red = vec![
        json(r#"{"__typename":"CheckRun","name":"test","status":"COMPLETED","conclusion":"FAILURE"}"#),
        json(r#"{"__typename":"StatusContext","context":"qa-verdict","state":"SUCCESS"}"#),
    ];
    assert!(!checks_green(&red));
    let pending = vec![json(
        r#"{"__typename":"StatusContext","context":"qa-verdict","state":"PENDING"}"#,
    )];
    assert!(checks_green(&pending));
    assert_eq!(verdict_state(&pending).as_deref(), Some("PENDING"));
    assert_eq!(verdict_state(&vec![]), None);
    assert!(checks_green(&vec![]));
}

#[test]
fn ordering_rank_then_age() {
    let v = sort_needs(vec![
        item(60, "pr_no_verdict", "b", 5, "", None, "c"),
        item(10, "merge", "a", 1, "", None, "c"),
        item(60, "pr_no_verdict", "c", 50, "", None, "c"),
    ]);
    let kinds: Vec<&str> = v.iter().map(|i| i.kind.as_str()).collect();
    assert_eq!(kinds, ["merge", "pr_no_verdict", "pr_no_verdict"]);
    assert_eq!(v[1].title, "c");
}

#[test]
fn stalled_and_silent_end_merge_into_one_row() {
    let now = 1_000_000;
    let mut a = agent("w1", "busy", Some(now - 30));
    a.stalled = true;
    a.silent_secs = Some(900);
    a.silent_ended = true;
    a.ended_secs = Some(600);
    let mut rows = agent_items(&a, &no_probe(), "cadence", now);
    assert_eq!(rows.len(), 2, "two raw causes");
    rows.push(
        item(70, "review_no_pr", "CAD-1 in review", 5, "cadence", None, "c")
            .about("issue", "CAD-1"),
    );
    let merged = merge_by_subject(rows);
    assert_eq!(merged.len(), 2, "one row per subject");
    let w1 = &merged[0];
    assert_eq!(w1.subject_kind, "agent");
    assert_eq!(w1.subject_id, "w1");
    assert_eq!(w1.kind, "stalled", "primary cause keeps `kind`");
    assert_eq!(causes(w1), ["stalled", "silent_end"]);
    assert_eq!(w1.causes[1].command, cmd_send_nudge("w1"));
    assert_eq!(w1.project, "cadence");
    assert_eq!(merged[1].causes.len(), 1);
    assert_eq!(merged[1].subject_kind, "issue");
}

#[test]
fn merge_orders_causes_by_severity_and_keeps_stale_owner() {
    let now = 1_000_000;
    let mut inbox = agent("obs", "idle", Some(now));
    inbox.inbox = true;
    inbox.inbox_queued = Some(60);
    inbox.health = Some(InboxHealth {
        stale: true,
        owner: Some("pm".to_string()),
        oldest_unread_age_secs: Some(90_000),
        oldest_text: "90000".to_string(),
        unread: 60,
    });
    let merged = merge_by_subject(agent_items(&inbox, &no_probe(), "", now));
    assert_eq!(merged.len(), 1);
    let row = &merged[0];
    assert_eq!(row.kind, "inbox_stale");
    assert_eq!(row.owner.as_deref(), Some("pm"));
    assert!(row.title.contains("60 unread"));
    assert_eq!(causes(row), ["inbox_stale", "inbox_unread"]);
    assert_eq!(row.agents, ["obs", "pm"]);
}

#[test]
fn fenced_agent_goes_to_the_operator_whatever_its_pm() {
    for (pm, ago) in [
        (pm_row(true, "idle"), 120),
        (pm_row(false, "idle"), 10 * 60),
    ] {
        let (w1, probe) = fenced_worker(ago);
        let out = resolve(
            agent_items(&w1, &probe, "cadence", NOW),
            vec![owner("w1", false, "attention"), pm],
        );
        assert_eq!(out.len(), 1);
        assert_eq!(out[0].kind, "fenced");
        assert_eq!(out[0].since, Some(NOW - ago));
        assert_eq!(out[0].audience, Audience::Operator);
        assert_eq!(reason(&out[0]), "operator decision");
    }
}

#[test]
fn failed_auto_resume_names_agent_and_waiting_message() {
    let (mut w1, probe) = fenced_worker(120);
    w1.resume_failed = Some(ResumeFailed {
        at: Some(NOW - 300),
        message: Some("m-wait".to_string()),
        reason: Some("fake open refused".to_string()),
    });
    let out = resolve(
        agent_items(&w1, &probe, "cadence", NOW),
        vec![owner("w1", false, "attention"), pm_row(false, "idle")],
    );
    assert_eq!(out.len(), 1, "{out:?}");
    assert_eq!(out[0].kind, "auto_resume_failed");
    let title = &out[0].title;
    assert!(title.contains("agent w1"), "{title}");
    assert!(title.contains("message m-wait waiting"), "{title}");
    assert!(title.contains("fake open refused"), "{title}");
    assert_eq!(out[0].command, "cadence agent resume w1");
    assert_eq!(out[0].since, Some(NOW - 300));
}

#[test]
fn tracker_row_clock_is_its_status_change_not_the_issue_age() {
    let review = |in_status: i64| {
        item(70, "review_no_pr", "CAD-1 in review", 30 * 86_400, "", None, "c")
            .about("issue", "CAD-1")
            .owned_by(Some("pm"))
            .since(Some(NOW - in_status))
    };
    let out = resolve(vec![review(10 * 60)], vec![pm_row(false, "idle")]);
    assert_eq!(out[0].audience, Audience::Team);
    assert_eq!(reason(&out[0]), "owner pm can act");
    let out = resolve(vec![review(74 * 60)], vec![pm_row(false, "idle")]);
    assert_eq!(out[0].audience, Audience::Operator);
    assert_eq!(reason(&out[0]), "unhandled 74m");
}

#[test]
fn row_without_a_start_time_never_escalates_by_age() {
    let old = 30 * 86_400;
    let mut a = agent("w1", "busy", Some(NOW - old));
    a.upstream = Some("pm".to_string());
    a.pane_menu = Some("1. Yes".to_string());
    let mut rows = agent_items(&a, &no_probe(), "", NOW);
    rows.push(
        item(70, "review_no_pr", "CAD-9", old, "", None, "c")
            .about("issue", "CAD-9")
            .owned_by(Some("pm")),
    );
    rows.push(
        item(60, "pr_no_verdict", "PR #3", old, "", None, "c")
            .about("pr", "a/b#3")
            .owned_by(Some("pm"))
            .since(rollup_span(&vec![]).0),
    );
    let out = resolve(rows, vec![owner("w1", false, "busy"), pm_row(false, "idle")]);
    assert_eq!(out.len(), 3);
    for row in &out {
        assert_eq!(row.since, None, "{row:?}");
        assert_eq!(row.audience, Audience::Team, "{row:?}");
        assert_eq!(reason(row), "owner pm can act", "{row:?}");
    }
}

#[test]
fn fence_without_an_unknown_turn_is_timed_from_its_last_write() {
    let fenced = |written_ago: i64| {
        let mut a = agent("w1", "attention", Some(NOW - written_ago));
        a.upstream = Some("pm".to_string());
        let probe = with_messages(vec![("completed", NOW - 9 * 3_600)]);
        resolve(
            agent_items(&a, &probe, "", NOW),
            vec![owner("w1", false, "attention"), pm_row(false, "idle")],
        )
    };
    let out = fenced(74 * 60);
    assert_eq!(out[0].since, Some(NOW - 74 * 60));
    assert_eq!(reason(&out[0]), "operator decision");
    assert_eq!(fenced(10 * 60)[0].since, Some(NOW - 10 * 60));
}

#[test]
fn owner_that_cannot_act_escalates_with_the_reason() {
    let owners_of = |agents: Vec<OwnerRow>| {
        let rows = classify_needs(
            vec![item(40, "stalled", "t", 60, "", None, "c").owned_by(Some("pm"))],
            &Owners {
                reachable: true,
                agents,
            },
            NOW,
            ESCALATE_AFTER_SECS,
        );
        (rows[0].audience, rows[0].reason.clone().unwrap())
    };
    assert_eq!(
        owners_of(vec![pm_row(false, "attention")]),
        (Audience::Operator, "owner pm is fenced".to_string())
    );
    assert_eq!(
        owners_of(vec![pm_row(false, "stopped")]),
        (Audience::Operator, "owner pm is stopped".to_string())
    );
    assert_eq!(
        owners_of(vec![]),
        (Audience::Operator, "owner pm is absent".to_string())
    );
    let drained = OwnerRow {
        inbox_stale: true,
        ..pm_row(false, "idle")
    };
    assert_eq!(
        owners_of(vec![drained]),
        (
            Audience::Operator,
            "owner pm has no inbox consumer".to_string()
        )
    );
    let rows = classify_needs(
        vec![item(40, "stalled", "t", 1, "", None, "c").owned_by(Some("pm"))],
        &Owners {
            reachable: false,
            agents: vec![],
        },
        NOW,
        ESCALATE_AFTER_SECS,
    );
    assert_eq!(rows[0].audience, Audience::Operator);
}

#[test]
fn merge_ready_pr_with_live_issue_owner_stays_team() {
    let rollup = vec![
        json(
            r#"{"__typename": "CheckRun", "startedAt": "1970-01-12T13:16:40Z",
                "completedAt": "1970-01-12T13:40:00Z"}"#,
        ),
        json(
            r#"{"__typename": "StatusContext", "context": "qa-verdict",
                "startedAt": "1970-01-12T13:41:40Z"}"#,
        ),
        json(
            r#"{"__typename": "CheckRun", "startedAt": "0001-01-01T00:00:00Z",
                "completedAt": "0001-01-01T00:00:00Z"}"#,
        ),
    ];
    let (first, last) = rollup_span(&rollup);
    assert_eq!((first, last), (Some(NOW - 1_800), Some(NOW - 300)));
    let pr = item(
        10,
        "merge",
        "PR #7 fix — verdict pass",
        3_600,
        "cadence",
        None,
        "c",
    )
    .about("pr", "acme/widgets#7")
    .for_agent("w9")
    .owned_by(Some("w9"))
    .since(last);
    let out = resolve(vec![pr], vec![owner("w9", false, "busy")]);
    assert_eq!(out[0].audience, Audience::Team);
    assert_eq!(reason(&out[0]), "owner w9 can act");
}

#[test]
fn row_without_a_resolvable_owner_is_the_operators() {
    let out = resolve(
        vec![
            item(90, "ci_red", "main CI failed", 60, "", None, "c").about("ci", "a/b@main"),
            item(70, "review_no_pr", "CAD-1", 60, "", None, "c")
                .about("issue", "CAD-1")
                .owned_by(Some("")),
            item(40, "stalled", "w2", 60, "", None, "c").about("agent", "w2"),
        ],
        vec![],
    );
    for row in &out {
        assert_eq!(row.audience, Audience::Operator, "{row:?}");
        assert_eq!(reason(row), "no owner", "{row:?}");
    }
}

#[test]
fn kind_class_holds_outside_team_rows() {
    let old = Some(NOW - ESCALATE_AFTER_SECS * 10);
    let out = resolve(
        vec![
            item(20, "approval", "a", 1, "", None, "c").about("agent", "w1"),
            item(50, "drift", "d", 1, "", None, "c")
                .about("deploy", "x")
                .since(old),
            item(100, "inbox_unread", "i", 1, "", None, "c")
                .about("agent", "w2")
                .since(old),
            item(110, "tracker_behind", "t", 1, "", None, "c")
                .about("tracker", "pm")
                .since(old),
        ],
        vec![],
    );
    let got: Vec<(&str, Option<&str>)> = out
        .iter()
        .map(|r| (r.audience.as_str(), r.reason.as_deref()))
        .collect();
    assert_eq!(
        got,
        [
            ("operator", Some("operator decision")),
            ("dependency", None),
            ("info", None),
            ("info", None),
        ]
    );
}

#[test]
fn merged_row_takes_its_most_urgent_audience() {
    let mut a = agent("w1", "busy", Some(NOW - 60));
    a.upstream = Some("pm".to_string());
    a.pane_menu = Some("1. Yes".to_string());
    a.stalled = true;
    a.silent_secs = Some(ESCALATE_AFTER_SECS + 60);
    let out = resolve(
        agent_items(&a, &no_probe(), "", NOW),
        vec![pm_row(false, "idle")],
    );
    assert_eq!(out.len(), 1);
    assert_eq!(out[0].kind, "approval_menu", "primary stays by rank");
    assert_eq!(out[0].audience, Audience::Operator);
    assert_eq!(reason(&out[0]), "unhandled 61m");
    assert_eq!(out[0].causes[0].audience, Audience::Team);
    assert_eq!(out[0].causes[1].audience, Audience::Operator);
    assert_eq!(
        out[0].causes[1].since,
        Some(NOW - ESCALATE_AFTER_SECS - 60)
    );
}

#[test]
fn scope_keeps_project_and_group_rows() {
    let rows = || {
        vec![
            item(40, "stalled", "a", 1, "cadence", None, "c")
                .about("agent", "w1")
                .for_agent("w1"),
            item(40, "stalled", "b", 1, "other", None, "c")
                .about("agent", "w2")
                .for_agent("w2"),
            item(90, "ci_red", "c", 1, "cadence", None, "c").about("repo", "a/b"),
        ]
    };
    let titles =
        |v: Vec<Item>| -> Vec<String> { v.iter().map(|i| i.title.clone()).collect() };
    assert_eq!(
        titles(scope_rows(rows(), Some("cadence"), None)),
        ["a", "c"]
    );
    let members = vec!["pm".to_string(), "w2".to_string()];
    assert_eq!(titles(scope_rows(rows(), None, Some(&members))), ["b"]);
    assert_eq!(titles(scope_rows(rows(), None, None)).len(), 3);
}

#[test]
fn agent_project_is_longest_repo_prefix() {
    let repos = vec![
        ("/srv/root".to_string(), "outer".to_string()),
        ("/srv/root/.cadence".to_string(), "inner".to_string()),
    ];
    assert_eq!(
        agent_project(Some("/srv/root/.cadence/wt/x"), &repos),
        "inner"
    );
    assert_eq!(agent_project(Some("/elsewhere"), &repos), "");
    assert_eq!(agent_project(None, &repos), "");
    // A path is a prefix by whole parts.
    assert_eq!(agent_project(Some("/srv/rooted"), &repos), "");
}

fn sha(n: u8) -> String {
    format!("{n}").repeat(40)
}

fn run_of(
    workflow: &str,
    sha: &str,
    id: u64,
    status: &str,
    conclusion: Option<&str>,
    event: &str,
) -> Json {
    let conclusion = match conclusion {
        Some(c) => format!("\"{c}\""),
        None => "null".to_string(),
    };
    json(&format!(
        r#"{{"id": {id}, "head_sha": "{sha}", "status": "{status}",
            "conclusion": {conclusion}, "event": "{event}",
            "path": ".github/workflows/{workflow}", "head_branch": "main",
            "html_url": "https://github.com/o/r/actions/runs/{id}",
            "created_at": "2026-09-23T01:{:02}:00Z"}}"#,
        id % 60
    ))
}

fn ci(sha_n: u8, id: u64, status: &str, conclusion: Option<&str>) -> Json {
    run_of("ci.yml", &sha(sha_n), id, status, conclusion, "push")
}

fn states(shas: &[ShaCi]) -> Vec<(&str, CiState, Option<&str>)> {
    shas.iter()
        .map(|s| {
            (
                &s.sha[..1],
                s.state,
                s.covered_by.as_deref().map(|c| &c[..1]),
            )
        })
        .collect()
}

/// First-parent log for SHAs 1 (oldest) … n (newest), newest first.
fn log(n: u8) -> Vec<String> {
    (1..=n).rev().map(sha).collect()
}

#[test]
fn main_ci_middle_cancelled_newest_pending_is_unverified() {
    let runs = vec![
        ci(3, 30, "in_progress", None),
        ci(2, 20, "completed", Some("cancelled")),
        ci(1, 10, "completed", Some("success")),
    ];
    let shas = classify_main_ci(&runs, &log(3));
    assert_eq!(
        states(&shas),
        [
            ("3", CiState::Pending, None),
            ("2", CiState::Cancelled, None),
            ("1", CiState::Passed, None)
        ]
    );
    let a = main_ci_alerts(&shas);
    assert!(a.red.is_none(), "pending never alerts");
    assert_eq!(a.unverified.len(), 1);
    assert_eq!(a.unverified[0].sha, sha(2));
}

#[test]
fn main_ci_newest_failed_is_red_and_middle_uncovered() {
    for bad in ["failure", "timed_out", "startup_failure"] {
        let runs = vec![
            ci(3, 30, "completed", Some(bad)),
            ci(2, 20, "completed", Some("cancelled")),
            ci(1, 10, "completed", Some("success")),
        ];
        let shas = classify_main_ci(&runs, &log(3));
        assert_eq!(
            states(&shas),
            [
                ("3", CiState::Failed, None),
                ("2", CiState::Cancelled, None),
                ("1", CiState::Passed, None)
            ],
            "{bad}"
        );
        let a = main_ci_alerts(&shas);
        assert_eq!(a.red.map(|s| s.sha.clone()), Some(sha(3)), "{bad}");
        assert_eq!(a.unverified.len(), 1, "{bad}");
        assert_eq!(a.unverified[0].sha, sha(2));
    }
}

#[test]
fn main_ci_newest_passed_covers_middle_without_passing_it() {
    let runs = vec![
        ci(3, 30, "completed", Some("success")),
        ci(2, 20, "completed", Some("cancelled")),
        ci(1, 10, "completed", Some("success")),
    ];
    let shas = classify_main_ci(&runs, &log(3));
    assert_eq!(
        states(&shas),
        [
            ("3", CiState::Passed, None),
            ("2", CiState::Cancelled, Some("3")),
            ("1", CiState::Passed, None)
        ]
    );
    assert_ne!(shas[1].state, CiState::Passed);
    let a = main_ci_alerts(&shas);
    assert!(a.red.is_none());
    assert!(a.unverified.is_empty(), "covered clears the alert");
}

#[test]
fn main_ci_handover_only_sha_is_missing_not_passed() {
    let handover = || {
        run_of(
            "handover.yml",
            &sha(2),
            22,
            "completed",
            Some("success"),
            "push",
        )
    };
    let dispatch = run_of(
        "ci.yml",
        &sha(2),
        21,
        "completed",
        Some("success"),
        "workflow_dispatch",
    );
    let runs = vec![
        handover(),
        dispatch,
        ci(1, 10, "completed", Some("success")),
    ];
    let shas = classify_main_ci(&runs, &log(2));
    assert_eq!(
        states(&shas),
        [("2", CiState::Missing, None), ("1", CiState::Passed, None)]
    );
    assert!(shas[0].run_id.is_none());
    let a = main_ci_alerts(&shas);
    assert_eq!(a.unverified.len(), 1);
    assert_eq!(a.unverified[0].state, CiState::Missing);
    // A later passing SHA covers the missing one; it stays missing.
    let runs = vec![ci(3, 30, "completed", Some("success")), handover()];
    let shas = classify_main_ci(&runs, &log(3));
    assert_eq!(shas[1].state, CiState::Missing);
    assert_eq!(shas[1].covered_by, Some(sha(3)));
}

#[test]
fn main_ci_places_runs_the_clone_has_not_fetched() {
    let runs = vec![
        ci(4, 40, "completed", Some("success")),
        ci(2, 20, "completed", Some("cancelled")),
        ci(1, 10, "completed", Some("success")),
        ci(9, 5, "completed", Some("success")),
    ];
    let shas = classify_main_ci(&runs, &log(2));
    assert_eq!(
        states(&shas),
        [
            ("4", CiState::Passed, None),
            ("2", CiState::Cancelled, Some("4")),
            ("1", CiState::Passed, None)
        ]
    );
    let shas = classify_main_ci(&runs, &vec![]);
    assert_eq!(
        shas.iter().map(|s| &s.sha[..1]).collect::<Vec<_>>(),
        ["4", "2", "1", "9"]
    );
    let runs = vec![
        ci(1, 11, "completed", Some("failure")),
        ci(1, 10, "completed", Some("success")),
    ];
    assert_eq!(classify_main_ci(&runs, &log(1))[0].state, CiState::Failed);
}

fn object(entries: Vec<(&str, Json)>) -> Json {
    Json::Obj(
        entries
            .into_iter()
            .map(|(k, v)| cadence::json::Member {
                key: k.to_string(),
                value: v,
            })
            .collect(),
    )
}

#[test]
fn main_ci_rows_share_the_branch_subject() {
    let shas = ["a".repeat(40), "b".repeat(40), "c".repeat(40)];
    let run = |i: usize, id: u64, conclusion: &str| {
        run_of("ci.yml", &shas[i], id, "completed", Some(conclusion), "push")
    };
    let data = object(vec![(
        "main_ci",
        object(vec![
            ("branch", Json::Str("main".to_string())),
            (
                "runs",
                Json::Arr(vec![
                    run(2, 30, "failure"),
                    run(1, 20, "cancelled"),
                    run(0, 10, "success"),
                ]),
            ),
        ]),
    )]);
    let log = vec![shas[2].clone(), shas[1].clone(), shas[0].clone()];
    let (view, rows) = main_ci_view("o/r", "cadence", &data, Some(Ok(log.clone())), 0);
    match view {
        MainCiView::Shas { by_log, shas, .. } => {
            assert!(by_log);
            let got: Vec<&str> = shas.iter().map(|s| s.state.as_str()).collect();
            assert_eq!(got, ["failed", "cancelled", "passed"]);
        }
        other => panic!("{other:?}"),
    }
    let merged = merge_by_subject(rows);
    assert_eq!(merged.len(), 1);
    let row = &merged[0];
    assert_eq!((row.subject_kind.as_str(), row.subject_id.as_str()), ("ci", "o/r@main"));
    assert_eq!(row.kind, "ci_red");
    assert_eq!(row.command, "gh run view 30 --repo o/r");
    assert_eq!(causes(row), ["ci_red", "ci_unverified"]);
    assert_eq!(row.causes[1].command, "gh run rerun 20 --repo o/r");
    assert!(row.title.ends_with(" o/r"), "{row:?}");
    assert!(row.causes[1].title.contains(&shas[1][..7]));
    // No ci.yml workflow: nothing to show, nothing to alert.
    let absent = json(r#"{"main_ci": {"branch": "main", "absent": true}}"#);
    let (view, rows) = main_ci_view("o/r", "cadence", &absent, Some(Ok(log.clone())), 0);
    assert!(matches!(view, MainCiView::Nothing) && rows.is_empty());
    // A failed fetch surfaces its error, never a verdict.
    let failed = json(r#"{"main_ci": {"branch": "main", "error": "gh: boom"}}"#);
    let (view, rows) = main_ci_view("o/r", "cadence", &failed, Some(Ok(log)), 0);
    assert!(matches!(view, MainCiView::Fault { error: Json::Str(e), .. } if e == "gh: boom"));
    assert!(rows.is_empty());
}

#[test]
fn drift_counts_commits_and_prs() {
    let main = || Ok("origin/main".to_string());
    let d = compute_drift(&sha(1), main(), Ok("0\n".to_string()), "");
    assert!(matches!(&d, Drift::Known { count: 0, commits, .. } if commits.is_empty()));
    let d = compute_drift(
        &sha(1),
        main(),
        Ok("3\n".to_string()),
        "four (#4)\nthree — no pr\ntwo (#2)\n",
    );
    match d {
        Drift::Known {
            base,
            count,
            commits,
        } => {
            assert_eq!(base, "origin/main");
            assert_eq!(count, 3);
            let prs: Vec<Option<u64>> = commits.iter().map(|c| c.pr).collect();
            assert_eq!(prs, vec![Some(4), None, Some(2)]);
        }
        other => panic!("{other:?}"),
    }
    // Unknown build — cannot tell, not zero.
    let d = compute_drift("unknown", main(), Ok("3\n".to_string()), "");
    assert!(matches!(d, Drift::Unknown(why) if why.contains("cannot tell")));
    // A commit git cannot place — also cannot tell.
    let d = compute_drift(
        &"deadbeef".repeat(5),
        main(),
        Err("bad revision".to_string()),
        "",
    );
    assert!(matches!(d, Drift::Unknown(why) if why == "cannot tell — bad revision"));
}

#[test]
fn drift_matches_repo_by_remote_or_path() {
    let project = |key: &str, remote: &str, path: &str| Project {
        key: key.to_string(),
        repos: vec![Repo {
            remote: Some(remote.to_string()),
            declared: Some(path.to_string()),
            path: Some(path.to_string()),
        }],
    };
    let build = Some("github.com/favcrm/cadence".to_string());
    let root = Some("/build/cadence".to_string());
    let p = project("cadence", "github.com/favcrm/cadence", "/tmp/clone");
    let m = build_repo_match(&vec![p], &build, &root);
    assert_eq!(m.map(|(k, _)| k), Some("cadence".to_string()));
    let by_path = project("here", "example.com/other/repo", "/build/cadence");
    let m = build_repo_match(&vec![by_path], &build, &root);
    assert_eq!(m.map(|(k, _)| k), Some("here".to_string()));
    // A project whose remote differs and whose path differs never matches.
    let other = || project("other", "example.com/other/repo", "/definitely/not/the/build");
    assert!(build_repo_match(&vec![other()], &build, &root).is_none());
    assert!(build_repo_match(&vec![other()], &None, &None).is_none());
}
