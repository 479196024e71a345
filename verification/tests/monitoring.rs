use cadence::json::{parse, Json};
use cadence::overview::monitoring::{
    monitor_alerts, monitor_list, monitoring_view, validate_monitor_alert_response,
    validate_monitor_rows, AlertIn, MonitorIn, Stamp, When,
};
use cadence::overview::show::{item_json, monitoring_json, monitoring_unavailable, MonitorRead};
use cadence::overview::needs::{item, Extra, MergeInfo, QuestionInfo};

fn json(text: &str) -> Json {
    parse(text).unwrap()
}

fn at(secs: i64) -> When {
    When::At(Stamp { secs, nanos: 0 })
}

fn monitor(id: &str, state: &str, success: i64, check: i64, next: i64) -> MonitorIn {
    MonitorIn {
        id: id.to_string(),
        owner: Some("watchdog".to_string()),
        monitoring: Some(state.to_string()),
        last_success_at: at(success),
        last_check_at: at(check),
        next_check_at: at(next),
        error: Json::Null,
        alerts_error: None,
        alerts: vec![],
    }
}

fn read(m: &MonitorIn) -> MonitorRead {
    MonitorRead {
        row: json(&format!(
            r#"{{"id": "{}", "project": "cadence", "owner": "watchdog"}}"#,
            m.id
        )),
        alerts: vec![],
    }
}

fn shown(monitors: Vec<MonitorIn>, now: i64) -> Json {
    let reads: Vec<MonitorRead> = monitors.iter().map(read).collect();
    monitoring_json(&reads, &monitors, now)
}

fn text<'a>(j: &'a Json, k: &str) -> &'a str {
    j.get_str(k).unwrap()
}

fn number(j: &Json, k: &str) -> Option<i64> {
    j.get(k).unwrap().as_i64()
}

fn first<'a>(j: &'a Json, k: &str) -> &'a Json {
    &j.get(k).unwrap().as_arr().unwrap()[0]
}

fn flag(j: &Json, k: &str) -> bool {
    j.get(k).unwrap().as_bool().unwrap()
}

#[test]
fn monitoring_projection_keeps_real_scan_and_actionable_alert_evidence() {
    let row = json(
        r#"{"id": "watch-cadence", "project": "cadence", "owner": "watchdog",
            "monitoring": "degraded", "last_success_at": 90, "last_check_at": 110,
            "next_check_at": 170,
            "delivery": {"configured": false, "state": "unconfigured"},
            "error": "socket closed"}"#,
    );
    let alert = json(
        r#"{"seq": 7, "monitor": "watch-cadence", "task": "cad-176-t1", "event_seq": 44,
            "fingerprint": "turn-stalled:44", "kind": "turn_stalled",
            "payload": {"message": "synthetic evidence"}, "state": "open",
            "attempts": 1, "last_error": null, "created": 100, "updated": 100}"#,
    );
    let mut m = monitor("watch-cadence", "degraded", 90, 110, 170);
    m.error = Json::Str("socket closed".to_string());
    m.alerts = vec![AlertIn {
        seq: Some(7),
        kind: Some("turn_stalled".to_string()),
        open: true,
        created: Some(Stamp {
            secs: 100,
            nanos: 0,
        }),
    }];
    let reads = vec![MonitorRead {
        row,
        alerts: vec![alert],
    }];
    let view = monitoring_json(&reads, &vec![m], 130);
    assert!(flag(&view, "available"));
    assert_eq!(text(&view, "state"), "degraded");
    assert_eq!(number(&view, "last_success_at"), Some(90));
    assert_eq!(number(&view, "last_check_at"), Some(110));
    assert_eq!(number(&view, "open_alerts"), Some(1));
    let delivery = view.get("delivery").unwrap();
    assert!(!flag(delivery, "configured"));
    assert!(!flag(delivery, "push"));
    let alert = first(&view, "alerts");
    assert_eq!(number(alert, "age_secs"), Some(30));
    assert_eq!(text(alert, "next_owner"), "watchdog");
    assert_eq!(
        text(alert, "authority"),
        "monitor owner may reconcile the worker"
    );
    let evidence = alert.get("evidence").unwrap();
    assert_eq!(number(evidence, "event_seq"), Some(44));
    assert_eq!(text(evidence, "fingerprint"), "turn-stalled:44");
    // The monitor's own row carries the same alert.
    let of_row = first(first(&view, "monitors"), "alerts");
    assert_eq!(number(of_row, "seq"), Some(7));
    assert_eq!(text(first(&view, "errors"), "error"), "socket closed");
}

#[test]
fn turn_unknown_overview_requires_operator_reconciliation() {
    let mut m = monitor("unknown-monitor", "active", 90, 100, 160);
    m.owner = Some("operator".to_string());
    m.alerts = vec![AlertIn {
        seq: Some(3),
        kind: Some("turn_unknown".to_string()),
        open: true,
        created: Some(Stamp {
            secs: 100,
            nanos: 0,
        }),
    }];
    let view = monitoring_view(&vec![m], 130);
    let alert = &view.alerts[0];
    assert_eq!(alert.seq, 3);
    assert_eq!(alert.next_owner, "operator");
    assert_eq!(alert.authority, "operator reconciliation required");
    assert!(alert.next_action.contains("Inspect"));
    assert!(alert.next_action.contains("reconcil"));
}

#[test]
fn monitoring_projection_reports_stopped_without_registration() {
    let view = shown(vec![], 130);
    assert!(flag(&view, "available"));
    assert_eq!(text(&view, "state"), "stopped");
    assert!(view.get("last_success_at").unwrap().is_null());
    assert!(view.get("alerts").unwrap().as_arr().unwrap().is_empty());
}

#[test]
fn monitoring_projection_marks_overdue_active_scan_stale() {
    let view = shown(vec![monitor("watch", "active", 90, 90, 100)], 101);
    assert_eq!(text(&view, "state"), "stale");
    let row = first(&view, "monitors");
    assert_eq!(text(row, "monitoring"), "stale");
    assert!(flag(row, "stale"));
    assert_eq!(
        text(first(&view, "errors"), "error"),
        "scheduled monitor reconciliation is overdue"
    );
}

#[test]
fn monitoring_projection_keeps_stale_aggregate_when_active_row_follows() {
    let overdue = || monitor("overdue", "active", 90, 90, 100);
    let current = || monitor("current", "active", 110, 110, 200);
    let forward = shown(vec![overdue(), current()], 101);
    let reverse = shown(vec![current(), overdue()], 101);
    assert_eq!(text(&forward, "state"), "stale");
    assert_eq!(text(&reverse, "state"), "stale");
}

#[test]
fn malformed_monitor_rows_fail_closed_before_projection() {
    assert!(validate_monitor_rows(&vec![]).is_ok());
    let error = validate_monitor_rows(&vec![json(r#"{"project": "cadence"}"#)]).unwrap_err();
    assert!(error.contains("row 0") && error.contains("id"), "{error}");
    let unavailable = monitoring_unavailable(&error);
    assert!(!flag(&unavailable, "available"));
    assert_eq!(text(&unavailable, "state"), "unavailable");
    assert!(text(first(&unavailable, "errors"), "error").contains("row 0"));
    let error = validate_monitor_rows(&vec![json(r#"{"id": "watch"}"#)]).unwrap_err();
    assert!(
        error.contains("row 0") && error.contains("project"),
        "{error}"
    );
    let error = validate_monitor_rows(&vec![json(
        r#"{"id": "watch", "project": "cadence", "owner": "watchdog",
            "monitoring": "bogus", "interval_secs": 60, "coverage": [],
            "delivery": {"configured": false, "state": "unconfigured"},
            "open_alerts": 0, "total_alerts": 0}"#,
    )])
    .unwrap_err();
    assert!(error.contains("unsupported monitoring state"), "{error}");
    let unavailable = monitoring_unavailable(&error);
    assert!(!flag(&unavailable, "available"));
    assert_eq!(text(&unavailable, "state"), "unavailable");
}

#[test]
fn monitor_alert_response_validation_accepts_empty_and_rejects_partial() {
    let empty = json(r#"{"monitor": "watch", "alerts": [], "cursor": 0}"#);
    assert!(validate_monitor_alert_response("watch", &empty)
        .unwrap()
        .is_empty());

    let missing_alerts = json(r#"{"monitor": "watch", "cursor": 0}"#);
    let error = validate_monitor_alert_response("watch", &missing_alerts).unwrap_err();
    assert!(error.contains("missing alerts"), "{error}");
    let why = monitor_alerts("watch", &Ok(missing_alerts)).unwrap_err();
    assert_eq!(why, format!("monitor_alerts 'watch': {error}"));
    assert!(!flag(&monitoring_unavailable(&why), "available"));

    let response = json(
        r#"{"monitor": "watch", "alerts": [{"seq": 1, "monitor": "watch", "task": "task-1",
            "event_seq": 2, "fingerprint": "event:2", "kind": "turn_stalled",
            "payload": {"message": "synthetic"}, "state": "open", "attempts": 0,
            "last_error": null, "created": 10.0, "updated": 10.0}], "cursor": 1}"#,
    );
    assert_eq!(
        validate_monitor_alert_response("watch", &response)
            .unwrap()
            .len(),
        1
    );

    let response = json(
        r#"{"monitor": "watch", "alerts": [{"seq": 1, "monitor": "watch", "task": "task-1",
            "event_seq": 2, "fingerprint": "event:2", "kind": "turn_stalled",
            "state": "open", "attempts": 0,
            "last_error": null, "created": 10.0, "updated": 10.0}], "cursor": 1}"#,
    );
    let error = validate_monitor_alert_response("watch", &response).unwrap_err();
    assert!(error.contains("missing payload"), "{error}");

    let wrong_monitor = json(r#"{"monitor": "other", "alerts": [], "cursor": 0}"#);
    let error = validate_monitor_alert_response("watch", &wrong_monitor).unwrap_err();
    assert!(error.contains("wrong monitor"), "{error}");
}

#[test]
fn a_list_of_monitors_is_read_whole_or_not_at_all() {
    let none: Result<Json, String> = Err("no daemon".to_string());
    assert_eq!(monitor_list(&none).unwrap_err(), "no daemon");
    assert_eq!(
        monitor_list(&Ok(json("{}"))).unwrap_err(),
        "monitor_list response missing monitors"
    );
    assert!(monitor_list(&Ok(json(r#"{"monitors": []}"#)))
        .unwrap()
        .is_empty());
    assert!(monitor_list(&Ok(json(r#"{"monitors": [{"id": "w"}]}"#))).is_err());
    assert_eq!(
        monitor_alerts("w", &Err("timed out".to_string())).unwrap_err(),
        "monitor_alerts 'w': timed out"
    );
}

#[test]
fn a_row_shows_what_its_kind_adds() {
    let row = item(22, "merge_decision", "merge?", 5, "cadence", Some("u"), "c")
        .about("issue", "CAD-1")
        .with(Extra::Merge(MergeInfo {
            issue: "CAD-1".to_string(),
            pr: Some("u".to_string()),
            pr_ref: None,
            sha: "abc".to_string(),
            owner: "w1".to_string(),
            reviewer: "w2".to_string(),
            verdict_summary: "ok".to_string(),
            report: "r".to_string(),
            additions: 3,
            deletions: 2,
            files: 1,
            decline: "d".to_string(),
        }));
    let j = item_json(&row);
    assert_eq!(text(&j, "kind"), "merge_decision");
    assert_eq!(text(&j, "link"), "u");
    assert_eq!(number(&j, "age"), Some(5));
    assert!(j.get("since").unwrap().is_null());
    let merge = j.get("merge").unwrap();
    assert_eq!(text(merge, "by"), "w2");
    assert_eq!(number(merge, "additions"), Some(3));
    let subject = j.get("subject").unwrap();
    assert_eq!(
        (text(subject, "kind"), text(subject, "id")),
        ("issue", "CAD-1")
    );

    let asked = item(20, "question", "q", 1, "", None, "c").with(Extra::Question(QuestionInfo {
        issue: "CAD-2".to_string(),
        report: "q1".to_string(),
        agent: "w1".to_string(),
        impact: "high".to_string(),
        body: "which?".to_string(),
        options: vec!["a".to_string(), "b".to_string()],
        summary: Json::Str("s".to_string()),
        escalated_by: Json::Null,
    }));
    let j = item_json(&asked);
    assert_eq!(text(j.get("question").unwrap(), "impact"), "high");
    assert_eq!(text(&j, "summary"), "s");
    assert!(j.get("escalated_by").unwrap().is_null());
    assert!(j.get("merge").is_none());
}

#[test]
fn the_order_of_monitors_does_not_count() {
    let alert = |seq: i64, open: bool| AlertIn {
        seq: Some(seq),
        kind: Some("turn_unknown".to_string()),
        open,
        created: None,
    };
    let early = || {
        let mut m = monitor("early", "active", 90, 95, 300);
        m.alerts = vec![alert(4, true), alert(2, false)];
        m
    };
    let late = || {
        let mut m = monitor("late", "stale", 100, 110, 200);
        m.alerts = vec![alert(3, true)];
        m
    };
    for ms in [vec![early(), late()], vec![late(), early()]] {
        let view = monitoring_view(&ms, 130);
        assert_eq!(view.state, "stale");
        assert_eq!(view.last_success_at, Some(100));
        assert_eq!(view.last_check_at, Some(110));
        assert_eq!(view.next_check_at, Some(200));
        assert_eq!(view.open_alerts, 2);
        assert_eq!(view.alerts.iter().map(|a| a.seq).collect::<Vec<_>>(), vec![2, 3, 4]);
    }
}
