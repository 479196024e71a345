use cadence::json::print;
use cadence::error::Error;
use cadence::master_perm::record;
use cadence::master_perm::record::{
    allow_once, always_rule, board_requests, check_rule_shape, expire, pending_requests, reject,
    revoke_rule, suggest_tail, validate_pattern, Doc, Effect, Grant, Request, Rule, Scope, Taken,
    Use,
};
use cadence::master_perm::show::{request_json, rule_json};
use cadence::master_perm::{
    allowlisted, classify, never_why, normalize_argv, readonly_tool, rules_file, well_formed,
    Class, Facts, Risk, TTL_SECS,
};

fn argv(v: &[&str]) -> Vec<String> {
    v.iter().map(|s| s.to_string()).collect()
}

fn facts(argv: &Vec<String>, checkouts: &[&str], state_dirs: &[&str]) -> Facts {
    Facts {
        cwd: "/work".to_string(),
        resolved: argv
            .iter()
            .map(|a| if a.starts_with('/') { Some(a.clone()) } else { Some(format!("/work/{a}")) })
            .collect(),
        checkouts: checkouts.iter().map(|s| s.to_string()).collect(),
        state_dirs: state_dirs.iter().map(|s| s.to_string()).collect(),
    }
}

fn class(v: &Vec<String>, checkouts: &[&str], state_dirs: &[&str]) -> Class {
    classify(v, &facts(v, checkouts, state_dirs), &Vec::new())
}

fn of(v: &Vec<String>) -> Class {
    class(v, &[], &["/state"])
}

/// What is known of a command in a directory.
fn at(v: &Vec<String>, cwd: &str) -> Facts {
    Facts { cwd: cwd.to_string(), ..facts(v, &[], &["/state"]) }
}

fn ask(
    doc: Doc,
    v: &Vec<String>,
    reason: &str,
    by: &str,
    now: i64,
) -> Result<(Doc, Request), Error> {
    record::ask(doc, v, "/work", Some(&at(v, "/work")), &Vec::new(), reason, by, now)
}

fn take(doc: Doc, rules: &Vec<Rule>, v: &Vec<String>, cwd: &str, now: i64) -> Taken {
    record::take(doc, rules, v, Some(&at(v, cwd)), &Vec::new(), now)
}

fn peek(doc: Doc, rules: &Vec<Rule>, v: &Vec<String>, now: i64) -> Result<bool, Error> {
    record::peek(doc, rules, v, Some(&at(v, "/work")), &Vec::new(), now)
}

#[test]
fn pipes_and_never_list_are_not_requestable() {
    let bad = of(&argv(&["cadence", "issue", "ls;rm"]));
    assert!(matches!(bad, Class::IllFormed { .. }), "{bad:?}");
    for v in [
        argv(&["cadence", "delivery", "merge"]),
        argv(&["cadence", "rollout", "status"]),
        argv(&["cadence", "daemon", "restart"]),
        argv(&["cadence", "secret", "ls"]),
        argv(&["cadence", "audit", "approve"]),
        argv(&["cadence", "master", "edit", "agents/master/SOUL.md"]),
        argv(&["cadence", "wiki", "put", "agents/master/permissions.yaml"]),
    ] {
        let c = of(&v);
        assert!(matches!(c, Class::Never { .. }), "{v:?} -> {c:?}");
    }
}

#[test]
fn state_dir_and_foreign_programs_are_never() {
    let c = class(&argv(&["cat", "/tmp/state"]), &["/tmp/repo"], &["/tmp/state"]);
    assert!(matches!(c, Class::Never { .. }), "{c:?}");
    let c = class(&argv(&["rm", "-rf", "/"]), &[], &["/tmp/state"]);
    assert!(matches!(c, Class::Never { .. }), "{c:?}");
}

#[test]
fn readonly_inside_a_checkout_is_requestable() {
    let c = class(&argv(&["cat", "/tmp/repo/src/a.rs"]), &["/tmp/repo"], &["/tmp/state"]);
    assert!(matches!(c, Class::Requestable { risk: Risk::Low }), "{c:?}");
    let c = class(&argv(&["cat", "/tmp/nope"]), &["/tmp/repo"], &["/tmp/state"]);
    assert!(matches!(c, Class::Never { .. }), "{c:?}");
}

#[test]
fn agent_cannot_ask_and_forged_id_is_refused() {
    let v = argv(&["cadence", "issue", "new", "T"]);
    let err = ask(Doc::empty(), &v, "need a ticket", "worker", 1_000).unwrap_err();
    assert!(err.message().contains("only the master"), "{}", err.message());
    let err = allow_once(Doc::empty(), "mp-forged", 1_000).unwrap_err();
    assert!(err.message().contains("no permission request"), "{}", err.message());
}

fn no_live(doc: Doc, v: &Vec<String>, cwd: &str, now: i64) -> Option<Doc> {
    let t = take(doc, &Vec::new(), v, cwd, now);
    let err = t.outcome.unwrap_err();
    assert!(err.message().contains("no live permission"), "{}", err.message());
    t.save
}

#[test]
fn single_use_expiry_and_argv_binding() {
    let v = argv(&["cadence", "issue", "new", "Title"]);
    let (doc, req) = ask(Doc::empty(), &v, "file the ticket", "master", 1_000).unwrap();
    let (doc, _) = allow_once(doc, &req.id, 1_000).unwrap();
    let other = argv(&["cadence", "issue", "new", "Other"]);
    no_live(doc.clone(), &other, "/work", 1_001);
    no_live(doc.clone(), &v, "/work/other", 1_002);
    let t = take(doc, &Vec::new(), &v, "/work", 1_003);
    assert!(matches!(t.outcome, Ok(Use::Grant { .. })));
    let doc = t.save.unwrap();
    no_live(doc.clone(), &v, "/work", 1_004);
    let (doc, req) = ask(doc, &v, "again", "master", 2_000).unwrap();
    let (doc, _) = allow_once(doc, &req.id, 2_000).unwrap();
    no_live(doc, &v, "/work", 2_000 + TTL_SECS);
}

#[test]
fn planted_grant_cannot_cover_the_never_list() {
    let v = argv(&["cadence", "audit", "approve"]);
    let mut doc = Doc::empty();
    doc.grants.push(Grant {
        id: "mg-planted".into(),
        request_id: "mp-planted".into(),
        argv: v.clone(),
        cwd: "/work".into(),
        uses_left: 1,
        expires_at: 9_000 + TTL_SECS,
    });
    let err = take(doc, &Vec::new(), &v, "/work", 9_000).outcome.unwrap_err();
    assert!(err.message().contains("never requestable"), "{}", err.message());
    assert!(err.message().contains("cannot allow"), "{}", err.message());
}

#[test]
fn wildcard_shape_is_rejected_and_deny_beats_allow() {
    let err = validate_pattern("foo*bar").unwrap_err();
    assert!(err.message().contains("end of the argument"), "{}", err.message());
    let err = validate_pattern("*foo").unwrap_err();
    assert!(err.message().contains("end of the argument"), "{}", err.message());
    let err = check_rule_shape(&argv(&["cadence", "*"]), &argv(&["x"]), &Scope::Prefix).unwrap_err();
    assert!(err.message().contains("different command"), "{}", err.message());

    let v = argv(&["cadence", "wiki", "put", "agents/master/knowledge/a.md"]);
    let (doc, req) = ask(Doc::empty(), &v, "write a note", "master", 3_000).unwrap();
    let (doc, _req, allow) = always_rule(
        doc,
        &req.id,
        Scope::Prefix,
        &argv(&["agents/master/knowledge/*"]),
        3_000,
    )
    .unwrap();
    let deny = Rule {
        id: "mr-deny".into(),
        effect: Effect::Deny,
        scope: Scope::Exact,
        argv: v.clone(),
        tail: vec![],
        cwd: "/work".into(),
        by: "operator".into(),
        at: 3_000,
    };
    let rules = vec![allow, deny];
    let err = take(doc.clone(), &rules, &v, "/work", 3_001).outcome.unwrap_err();
    assert!(err.message().contains("deny rule"), "{}", err.message());
    let (rules, gone) = revoke_rule(rules, "mr-deny").unwrap();
    assert_eq!(gone.id, "mr-deny");
    let used = take(doc.clone(), &rules, &v, "/work", 3_002).outcome.unwrap();
    assert!(matches!(used, Use::Rule { .. }), "{used:?}");
    let sibling = argv(&["cadence", "wiki", "put", "agents/master/knowledge/b.md"]);
    assert!(peek(doc.clone(), &rules, &sibling, 3_003).unwrap());
    let other_verb = argv(&["cadence", "issue", "new", "agents/master/knowledge/b.md"]);
    assert!(!peek(doc, &rules, &other_verb, 3_004).unwrap());
}

#[test]
fn revoked_rule_stops_matching() {
    let v = argv(&["cadence", "issue", "new", "Read"]);
    let (doc, req) = ask(Doc::empty(), &v, "read it", "master", 4_000).unwrap();
    let (doc, _r, rule) = always_rule(doc, &req.id, Scope::Exact, &Vec::new(), 4_000).unwrap();
    let id = rule.id.clone();
    let rules = vec![rule];
    assert!(peek(doc.clone(), &rules, &v, 4_001).unwrap());
    let (rules, _) = revoke_rule(rules, &id).unwrap();
    assert!(!peek(doc, &rules, &v, 4_002).unwrap());
    assert!(revoke_rule(rules, &id).is_err());
}

#[test]
fn request_expires() {
    let v = argv(&["cadence", "issue", "new", "Later"]);
    let (doc, req) = ask(Doc::empty(), &v, "read", "master", 100).unwrap();
    let err = allow_once(doc, &req.id, 100 + TTL_SECS).unwrap_err();
    assert!(err.message().contains("expired"), "{}", err.message());
}

#[test]
fn rules_file_is_per_agent_and_a_second_decision_is_refused() {
    assert!(rules_file("/pm", "master").unwrap().ends_with("agents/master/permissions.yaml"));
    assert!(rules_file("/pm", "worker-1").unwrap().ends_with("agents/worker-1/permissions.yaml"));
    assert!(rules_file("/pm", "../master").is_err());
    let v = argv(&["cadence", "issue", "new", "T"]);
    let (doc, req) = ask(Doc::empty(), &v, "need a ticket", "master", 1_000).unwrap();
    let (doc, _) = allow_once(doc, &req.id, 1_000).unwrap();
    let again = allow_once(doc.clone(), &req.id, 1_001).unwrap_err();
    assert!(again.message().contains("cannot be decided again"), "{}", again.message());
    let (_, listed) = board_requests(doc, 1_002);
    assert_eq!(listed.len(), 1);
    assert!(listed[0].decision_label.starts_with("Allowed once by operator "));
}

#[test]
fn a_rejection_may_leave_a_deny_rule() {
    let v = argv(&["cadence", "issue", "new", "T"]);
    let (doc, req) = ask(Doc::empty(), &v, "why", "master", 1_000).unwrap();
    let (doc, open) = pending_requests(doc, 1_000);
    assert_eq!(open.len(), 1);
    let (doc, rejected, rule) = reject(doc, &req.id, true, 1_000).unwrap();
    assert_eq!(rejected.status, "rejected");
    let rule = rule.unwrap();
    assert_eq!(rule.effect, Effect::Deny);
    let err = take(doc.clone(), &vec![rule], &v, "/work", 1_001).outcome.unwrap_err();
    assert!(err.message().contains("deny rule"));
    assert!(expire(doc, 1_000 + TTL_SECS).requests.len() <= 1);
}

#[test]
fn a_command_is_shaped_and_classified() {
    assert!(well_formed(&argv(&["cadence", "issue", "ls"])).is_ok());
    assert!(well_formed(&Vec::new()).is_err());
    assert!(well_formed(&argv(&["cadence", "a|b"])).is_err());
    assert!(readonly_tool(&argv(&["cat", "x"])) && !readonly_tool(&argv(&["rm", "x"])));
    assert_eq!(normalize_argv(&argv(&["cadence", "issue"])), argv(&["cadence", "issue"]));
    assert!(!allowlisted(&argv(&["cadence", "issue", "ls"]), &Vec::new()));
    let v = argv(&["cadence", "issue", "new"]);
    assert!(never_why(&v, &facts(&v, &[], &[])).is_none());
    assert_eq!(suggest_tail(&argv(&["cadence", "wiki", "put", "agents/a.md"])), Some(argv(&["agents/*"])));
    assert_eq!(suggest_tail(&argv(&["cadence", "issue"])), None);
    assert_eq!(Risk::Low.as_str(), "low");
}

#[test]
fn the_board_sees_requests_and_rules() {
    let v = argv(&["cadence", "wiki", "put", "agents/a.md"]);
    let (doc, req) = ask(Doc::empty(), &v, "why", "master", 1_000).unwrap();
    let card = request_json(&req);
    assert_eq!(card.get_str("command"), Some("cadence wiki put agents/a.md"));
    assert_eq!(print(card.get("prefix").unwrap()), r#"["agents/*"]"#);
    assert_eq!(card.get("expires_at").unwrap().as_i64(), Some(1_000 + TTL_SECS));
    let (_, _, rule) = always_rule(doc, &req.id, Scope::Exact, &Vec::new(), 1_000).unwrap();
    let card = rule_json(&rule);
    assert_eq!(card.get_str("effect"), Some("allow"));
    assert_eq!(card.get_str("scope"), Some("exact"));
    assert_eq!(print(card.get("tail").unwrap()), "[]");
}

#[test]
fn what_cannot_be_asked_says_why() {
    let why = |v: &Vec<String>, reason: &str| {
        ask(Doc::empty(), v, reason, "master", 1_000).unwrap_err().message().to_string()
    };
    let v = argv(&["cadence", "issue", "new", "T"]);
    assert_eq!(why(&v, "  "), "a reason is 1-500 characters");
    assert_eq!(why(&v, &"x".repeat(501)), "a reason is 1-500 characters");
    assert_eq!(
        why(&argv(&["cadence", "delivery", "merge"]), "ship it"),
        "merge is never requestable — it cannot be approved and no permission rule can cover it"
    );
    assert_eq!(why(&argv(&["cadence", "a;b"]), "why"), "no pipes, chaining, redirects, quotes or escapes");
    let gone = record::ask(Doc::empty(), &v, "gone", None, &Vec::new(), "why", "master", 1_000);
    assert_eq!(
        gone.unwrap_err().message(),
        "cwd gone does not exist — a request records a real directory"
    );
    let list = argv(&["Bash(cadence issue new *)"]);
    let f = at(&v, "/work");
    let listed = record::ask(Doc::empty(), &v, "/work", Some(&f), &list, "why", "master", 1_000);
    assert_eq!(
        listed.unwrap_err().message(),
        "that command is already allowlisted — run it, do not ask"
    );
}

#[test]
fn what_leads_into_a_state_dir_is_never_requestable() {
    let never = |v: &Vec<String>, f: &Facts| matches!(classify(v, f, &Vec::new()), Class::Never { .. });
    let put = |a: &str| argv(&["cadence", "wiki", "put", a]);
    let at = |cwd: &str, to: Option<&str>| Facts {
        cwd: cwd.to_string(),
        resolved: vec![None, None, None, to.map(str::to_string)],
        checkouts: Vec::new(),
        state_dirs: vec!["/home/u/state".to_string()],
    };
    // a plain relative argument, where it leads
    assert!(never(&put("state/x"), &at("/home/u", Some("/home/u/state/x"))));
    assert!(never(&put("alias"), &at("/work", Some("/home/u/state"))));
    // and where nothing is there yet
    assert!(never(&put("state/new"), &at("/home/u", None)));
    assert!(never(&put("a/../state/new"), &at("/home/u", None)));
    assert!(never(&put("../state/new"), &at("/home/u/w", None)));
    assert!(!never(&put("states/new"), &at("/home/u", None)));
    // a bare word is no path of the directory that the master runs in
    assert!(!never(&put("note"), &at("/home/u/state/master/cwd", None)));
    assert!(never(&put("./note"), &at("/home/u/state/master/cwd", None)));
}

#[test]
fn the_board_drops_decided_requests_that_ran_out() {
    let v = argv(&["cadence", "issue", "new", "T"]);
    let (doc, req) = ask(Doc::empty(), &v, "why", "master", 1_000).unwrap();
    let (doc, _) = allow_once(doc, &req.id, 1_000).unwrap();
    let (doc, listed) = board_requests(doc, 1_000 + TTL_SECS - 1);
    assert_eq!(listed.len(), 1);
    let (doc, listed) = board_requests(doc, 1_000 + TTL_SECS);
    assert!(listed.is_empty());
    assert_eq!(doc.requests.len(), 1);
}

#[test]
fn a_request_names_its_program_plainly() {
    let v = argv(&["/usr/bin/cadence", "issue", "new", "T"]);
    let (doc, req) = ask(Doc::empty(), &v, "why", "master", 1_000).unwrap();
    assert_eq!(req.argv, argv(&["cadence", "issue", "new", "T"]));
    let (doc, same) = ask(doc, &req.argv, "again", "master", 1_001).unwrap();
    assert_eq!((same.id, doc.requests.len()), (req.id.clone(), 1));
    let (doc, _) = allow_once(doc, &req.id, 1_002).unwrap();
    let t = take(doc, &Vec::new(), &v, "/work", 1_003);
    assert!(matches!(t.outcome, Ok(Use::Grant { .. })));
    let none = record::take(t.save.unwrap(), &Vec::new(), &v, None, &Vec::new(), 1_004);
    assert!(none.outcome.is_err() && none.save.is_none());
}
