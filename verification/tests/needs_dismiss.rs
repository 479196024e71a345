use cadence::json::{parse, print, Json, Member};
use cadence::needs_dismiss::{
    dismissed, dismissed_parsed, dismissed_path, filter_rows, key, record, row_suppressed,
};

fn j(raw: &str) -> Json {
    parse(raw).unwrap()
}

fn records(raw: &str) -> Vec<Member> {
    dismissed(Some(raw))
}

#[test]
fn a_dismissal_hides_one_occurrence() {
    let all = records(r#"{"agent:w1":{"kind":"agent","id":"w1","mode":"dismiss","at":100}}"#);
    let row = |since: i64| j(&format!(r#"{{"subject":{{"kind":"agent","id":"w1"}},"since":{since}}}"#));
    assert!(row_suppressed(&row(100), &all, 500));
    assert!(row_suppressed(&row(50), &all, 500));
    assert!(!row_suppressed(&row(101), &all, 500));
    // by its age, where it has no start
    let aged = j(r#"{"subject":{"kind":"agent","id":"w1"},"age":400}"#);
    assert!(row_suppressed(&aged, &all, 500));
    assert!(!row_suppressed(&aged, &all, 501));
    assert!(!row_suppressed(&j(r#"{"subject":{"kind":"agent","id":"w2"},"since":1}"#), &all, 500));
    assert!(!row_suppressed(&j(r#"{"since":1}"#), &all, 500));
}

#[test]
fn a_snooze_hides_until_its_time() {
    let all = records(r#"{"issue:D-1":{"mode":"snooze","at":1,"until":200}}"#);
    let row = j(r#"{"subject":{"kind":"issue","id":"D-1"},"since":150}"#);
    assert!(row_suppressed(&row, &all, 199));
    assert!(!row_suppressed(&row, &all, 200));
}

#[test]
fn unreadable_records_hide_nothing() {
    assert!(dismissed(None).is_empty());
    assert!(dismissed(Some("[]")).is_empty());
    assert!(dismissed(Some("{")).is_empty());
    assert!(dismissed_parsed(Some(Err("io".to_string()))).is_empty());
    let rows = vec![j(r#"{"subject":{"kind":"a","id":"b"},"since":1}"#)];
    assert_eq!(filter_rows(rows, &Vec::new(), 5).len(), 1);
}

#[test]
fn a_record_is_filed_under_its_subject_and_prunes_dead_snoozes() {
    assert_eq!(key("agent", "w1"), "agent:w1");
    assert_eq!(dismissed_path("/state"), "/state/needs_dismissed.json");
    let all = records(
        r#"{"a:1":{"mode":"snooze","until":10},"b:2":{"mode":"snooze","until":99},"c:3":{"mode":"dismiss","at":1}}"#,
    );
    let next = record(all, j(r#"{"kind":"d","id":"4","mode":"dismiss","at":50}"#), 50);
    assert_eq!(
        print(&next),
        r#"{"b:2":{"mode":"snooze","until":99},"c:3":{"at":1,"mode":"dismiss"},"d:4":{"at":50,"id":"4","kind":"d","mode":"dismiss"}}"#
    );
    let rows = vec![
        j(r#"{"subject":{"kind":"d","id":"4"},"since":50}"#),
        j(r#"{"subject":{"kind":"d","id":"5"},"since":50}"#),
    ];
    let kept = records(&print(&next));
    assert_eq!(filter_rows(rows, &kept, 60).len(), 1);
}
