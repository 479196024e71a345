use cadence::json::{parse, print, Json};
use cadence::mcp::{
    answer_call, check_identity, closed, fresh_handle, open_params, opened, plan, serve_line,
    summarize, timeout_secs, verdict, waited, Action, Reply, Served, State, Step,
};

fn j(raw: &str) -> Json {
    parse(raw).unwrap()
}

#[test]
fn verdict_maps_decisions_to_wire_shapes() {
    let input = j(r#"{"command": "ls"}"#);
    let accept = verdict(Some(&j(r#"{"decision": "accept"}"#)), &input);
    assert_eq!(accept.get_str("behavior"), Some("allow"));
    assert_eq!(print(accept.get("updatedInput").unwrap()), print(&input));
    let decline = verdict(Some(&j(r#"{"decision": "decline", "reason": "no"}"#)), &input);
    assert_eq!(decline.get_str("behavior"), Some("deny"));
    assert_eq!(decline.get_str("message"), Some("no"));
    let bare = verdict(Some(&j(r#"{"decision": "decline"}"#)), &input);
    assert_eq!(bare.get_str("message"), Some("declined by operator"));
    assert_eq!(verdict(None, &input).get_str("behavior"), Some("deny"));
}

#[test]
fn summarize_prefers_command_and_bounds_length() {
    assert_eq!(summarize(&j(r#"{"command": "git status", "other": 1}"#)), "git status");
    let long = "x".repeat(500);
    assert_eq!(summarize(&j(&format!(r#"{{"command": "{long}"}}"#))).len(), 240);
    assert!(summarize(&j(r#"{"a": 1}"#)).contains("\"a\":1"));
}

#[test]
fn the_deadline_comes_from_the_flag_then_the_environment() {
    assert_eq!(timeout_secs(Some(5), Some("7")), 5);
    assert_eq!(timeout_secs(None, Some("7")), 7);
    assert_eq!(timeout_secs(Some(0), None), 1);
    assert_eq!(timeout_secs(None, Some("soon")), 900);
    assert_eq!(timeout_secs(None, None), 900);
}

#[test]
fn a_prompt_walks_to_its_answer() {
    let input = j(r#"{"command": "ls"}"#);
    assert!(check_identity(Some("w"), Some("/s")).is_none());
    assert!(check_identity(None, Some("/s")).is_some());
    assert!(matches!(plan(&State::Opening, 1), Action::Open));
    assert!(matches!(plan(&State::Opening, 0), Action::Answer(_)));
    let handle = fresh_handle();
    assert!(handle.starts_with("perm-") && handle.len() == 37);
    assert_ne!(handle, fresh_handle());
    let params = open_params("w", "Bash", &handle, &input);
    assert_eq!(params.get_str("request"), Some(handle.as_str()));
    assert_eq!(params.get_str("input_summary"), Some("ls"));
    let state = match opened(Reply::Said(j(r#"{"request":"perm-1"}"#))) {
        Step::Again { state, pause } => {
            assert!(!pause);
            state
        }
        Step::Answer(_) => panic!("the request is open"),
    };
    match plan(&state, 90_000_000_000) {
        Action::Wait { request, secs } => assert_eq!((request.as_str(), secs), ("perm-1", 60)),
        other => panic!("{other:?}"),
    }
    match plan(&state, 500_000_000) {
        Action::Wait { secs, .. } => assert_eq!(secs, 1),
        other => panic!("{other:?}"),
    }
    assert!(matches!(plan(&state, 0), Action::Close { .. }));
    let r = "perm-1".to_string();
    assert!(matches!(waited(r.clone(), Reply::Failed, &input), Step::Again { pause: true, .. }));
    assert!(matches!(
        waited(r.clone(), Reply::Said(j(r#"{"state":"waiting"}"#)), &input),
        Step::Again { pause: false, .. }
    ));
    match waited(r.clone(), Reply::Said(j(r#"{"state":"closed","reason":"gone"}"#)), &input) {
        Step::Answer(v) => {
            assert_eq!(v.get_str("message"), Some("permission request closed: gone"))
        }
        other => panic!("{other:?}"),
    }
    let yes = r#"{"state":"answered","answer":{"decision":"accept"}}"#;
    match waited(r, Reply::Said(j(yes)), &input) {
        Step::Answer(v) => assert_eq!(v.get_str("behavior"), Some("allow")),
        other => panic!("{other:?}"),
    }
    // an answer that came at the last moment counts
    assert_eq!(closed(Reply::Said(j(yes)), &input).get_str("behavior"), Some("allow"));
    assert_eq!(closed(Reply::Failed, &input).get_str("behavior"), Some("deny"));
    match opened(Reply::Rejected("unknown agent".to_string())) {
        Step::Answer(v) => assert_eq!(v.get_str("message"), Some("unknown agent")),
        other => panic!("{other:?}"),
    }
}

fn reply(line: &str) -> Json {
    match serve_line(line, "9.9") {
        Served::Reply(j) => j,
        other => panic!("{other:?}"),
    }
}

#[test]
fn the_server_answers_requests_only() {
    assert!(matches!(serve_line("not json", "9.9"), Served::Nothing));
    assert!(matches!(serve_line(r#"{"method":"notifications/initialized"}"#, "9.9"), Served::Nothing));
    let hello = reply(r#"{"id":1,"method":"initialize","params":{"protocolVersion":"2024-01-01"}}"#);
    assert_eq!(
        print(&hello),
        r#"{"id":1,"jsonrpc":"2.0","result":{"capabilities":{"tools":{}},"protocolVersion":"2024-01-01","serverInfo":{"name":"cadence","version":"9.9"}}}"#
    );
    let hello = reply(r#"{"id":1,"method":"initialize"}"#);
    assert_eq!(hello.get("result").unwrap().get_str("protocolVersion"), Some("2025-11-25"));
    let list = reply(r#"{"id":2,"method":"tools/list"}"#);
    let tools = list.get("result").unwrap().get("tools").unwrap().as_arr().unwrap();
    assert_eq!(tools.len(), 1);
    assert_eq!(tools[0].get_str("name"), Some("approve"));
    let e = reply(r#"{"id":3,"method":"x"}"#);
    assert_eq!(e.get("error").unwrap().get("code").unwrap().as_i64(), Some(-32601));
    let e = reply(r#"{"id":4,"method":"tools/call","params":{"name":"other"}}"#);
    assert_eq!(e.get("error").unwrap().get("code").unwrap().as_i64(), Some(-32602));
    match serve_line(
        r#"{"id":"a","method":"tools/call","params":{"name":"approve","arguments":{"tool_name":"Bash","input":{"command":"ls"}}}}"#,
        "9.9",
    ) {
        Served::Call { id, tool, input } => {
            assert_eq!(tool, "Bash");
            let v = verdict(Some(&j(r#"{"decision":"accept"}"#)), &input);
            let out = answer_call(id, &v);
            assert_eq!(out.get_str("id"), Some("a"));
            let block = &out.get("result").unwrap().get("content").unwrap().as_arr().unwrap()[0];
            assert_eq!(
                block.get_str("text"),
                Some(r#"{"behavior":"allow","updatedInput":{"command":"ls"}}"#)
            );
        }
        other => panic!("{other:?}"),
    }
}
