use cadence::json::{print, Json};
use cadence::overview::deploy::{Commit, Drift, DriftPart};
use cadence::overview::github::{CiState, MainCiView, ShaCi};
use cadence::overview::parts::{ci_json, drift_json, note_json};
use cadence::overview::screen::CiEntry;
use cadence::overview::Note;

fn entry(ci: MainCiView) -> CiEntry {
    CiEntry { slug: "o/r".to_string(), project: "p".to_string(), ci }
}

#[test]
fn a_note_names_its_source() {
    let n = Note {
        source: "github_ci".to_string(),
        subject: "o/r".to_string(),
        detail: "timed out".to_string(),
    };
    assert_eq!(
        print(&note_json(&n)),
        r#"{"detail":"timed out","source":"github_ci","subject":"o/r"}"#
    );
}

#[test]
fn a_branch_shows_its_commits_or_its_fault() {
    assert_eq!(print(&ci_json(&entry(MainCiView::Nothing))), "null");
    let fault = MainCiView::Fault { branch: None, error: Json::Str("no answer".to_string()) };
    assert_eq!(
        print(&ci_json(&entry(fault))),
        r#"{"error":"no answer","project":"p","slug":"o/r"}"#
    );
    let fault = MainCiView::Fault { branch: Some("main".to_string()), error: Json::Null };
    assert_eq!(
        print(&ci_json(&entry(fault))),
        r#"{"branch":"main","error":null,"project":"p","slug":"o/r"}"#
    );
    let odd = MainCiView::Fault { branch: None, error: Json::Arr(vec![Json::Bool(true)]) };
    assert_eq!(
        print(&ci_json(&entry(odd))),
        r#"{"error":[true],"project":"p","slug":"o/r"}"#
    );
    let shas = MainCiView::Shas {
        branch: "main".to_string(),
        by_log: true,
        log_error: None,
        shas: vec![ShaCi {
            sha: "abc".to_string(),
            state: CiState::Cancelled,
            covered_by: Some("def".to_string()),
            run_id: Some(7),
            run_url: None,
            conclusion: Some("cancelled".to_string()),
            created_at: None,
        }],
    };
    assert_eq!(
        print(&ci_json(&entry(shas))),
        concat(&[
            r#"{"branch":"main","log_error":null,"order":"first_parent","project":"p","#,
            r#""shas":[{"conclusion":"cancelled","covered_by":"def","created_at":null,"#,
            r#""run_id":7,"run_url":null,"sha":"abc","state":"cancelled"}],"#,
            r#""slug":"o/r","workflow":"ci.yml"}"#,
        ])
    );
}

fn concat(parts: &[&str]) -> String {
    parts.concat()
}

#[test]
fn drift_is_shown_as_far_as_it_is_known() {
    let mut p = DriftPart {
        project: None,
        repo: None,
        drift: Drift::Unknown("cannot tell".to_string()),
        held: None,
    };
    assert_eq!(print(&drift_json(&p, None)), r#"{"matched":false,"reason":"cannot tell"}"#);
    assert_eq!(
        print(&drift_json(&p, Some("abc"))),
        r#"{"build_commit":"abc","matched":false,"reason":"cannot tell"}"#
    );
    p.project = Some("p".to_string());
    p.repo = Some("/r".to_string());
    assert_eq!(
        print(&drift_json(&p, Some("abc"))),
        r#"{"known":false,"matched":true,"project":"p","reason":"cannot tell","repo":"/r"}"#
    );
    p.drift = Drift::Known {
        base: "origin/main".to_string(),
        count: 2,
        commits: vec![
            Commit { subject: "two (#2)".to_string(), pr: Some(2) },
            Commit { subject: "one".to_string(), pr: None },
        ],
    };
    p.held = Some("a pane is busy");
    assert_eq!(
        print(&drift_json(&p, Some("abc"))),
        concat(&[
            r#"{"build_commit":"abc","commits":[{"pr":2,"subject":"two (#2)"},"#,
            r#"{"pr":null,"subject":"one"}],"count":2,"held":"a pane is busy","known":true,"#,
            r#""matched":true,"project":"p","ref":"origin/main","repo":"/r"}"#,
        ])
    );
}
