use cadence::dict;
use cadence::json::{parse, print, Json};
use cadence::model_defaults::document::{
    defaults_of, parse_settings_document, scan_settings, settings_from, show_config,
};
use cadence::model_defaults::resolve::{
    explicit_override_selection, legacy_selection, resolve, resolve_parsed, snapshot_json,
    provider_label, ObservedModel, ProviderRow, ResolveRequest, ResolvedRegistration,
};
use cadence::model_defaults::{
    canonical_team_role, normalize_attribution, normalize_team_role, parse_model_policy,
    team_roles, validate_config, validate_model_id, ModelDefaults, ModelPolicy, ModelSelector,
    MAX_CONFIG_BYTES, MAX_HTTP_BODY_BYTES,
};

fn eligible() -> Vec<String> {
    vec!["cursor".to_string(), "codex".to_string()]
}

fn config(raw: &str) -> ModelDefaults {
    let mut parsed = defaults_of(&parse(raw).unwrap()).unwrap();
    validate_config(&mut parsed, &eligible()).unwrap();
    parsed
}

fn supports(provider: &str, kind: &str) -> bool {
    match (provider, kind) {
        ("cursor", _) => true,
        ("codex", "managed-ws") => true,
        _ => false,
    }
}

fn resolved(
    provider: &str,
    kind: &str,
    role: &str,
    team: Option<&str>,
    policy: Option<&str>,
    params: Option<&str>,
    defaults: &ModelDefaults,
) -> ResolvedRegistration {
    resolve(
        &ResolveRequest {
            provider,
            endpoint_kind: kind,
            runtime_role: role,
            team_role: team,
            model_policy: policy,
            params,
            config: defaults,
            revision: 4,
        },
        supports(provider, kind),
    )
    .unwrap()
}

fn source(resolved: &ResolvedRegistration) -> String {
    field(resolved, "source").as_str().unwrap().to_string()
}

fn field<'a>(resolved: &'a ResolvedRegistration, key: &str) -> &'a Json {
    resolved.model_selection.as_ref().unwrap().get(key).unwrap()
}

#[test]
fn precedence_follows_explicit_role_baseline_then_native() {
    let defaults = config(
        r#"{"schema":1,"providers":{
            "cursor":{
                "default":{"mode":"model","model":"baseline"},
                "roles":{
                    "qa":{"mode":"model","model":"qa-model"},
                    "dev":{"mode":"provider_default"},
                    "worker":{"mode":"model","model":"worker-model"}
                }
            },
            "codex":{"default":{"mode":"provider_default"},"roles":{}}
        }}"#,
    );
    let explicit = resolved(
        "cursor",
        "managed",
        "worker",
        Some("qa"),
        None,
        Some(r#"{"model":" explicit "}"#),
        &defaults,
    );
    assert_eq!(source(&explicit), "explicit");
    assert!(field(&explicit, "revision").is_null());
    assert_eq!(explicit.params.as_deref(), Some(r#"{"model":"explicit"}"#));

    let role = resolved("cursor", "pty", "worker", Some("qa"), None, None, &defaults);
    assert_eq!(source(&role), "role_default");
    assert_eq!(field(&role, "model").as_str(), Some("qa-model"));
    assert_eq!(field(&role, "revision").as_i64(), Some(4));

    let native_role =
        resolved("cursor", "managed", "worker", Some("dev"), None, None, &defaults);
    assert_eq!(source(&native_role), "role_default");
    assert!(field(&native_role, "model").is_null());
    assert!(native_role.params.is_none());

    let baseline =
        resolved("cursor", "managed", "worker", Some("architect"), None, None, &defaults);
    assert_eq!(source(&baseline), "provider_baseline");
    assert_eq!(field(&baseline, "model").as_str(), Some("baseline"));

    let worker = resolved("cursor", "managed", "worker", None, None, None, &defaults);
    assert_eq!(field(&worker, "lookup_role").as_str(), Some("worker"));
    assert_eq!(field(&worker, "model").as_str(), Some("worker-model"));

    let qa_ignores_worker =
        resolved("cursor", "managed", "worker", Some("research"), None, None, &defaults);
    assert_eq!(field(&qa_ignores_worker, "model").as_str(), Some("baseline"));

    let ops = resolved("cursor", "managed", "worker", Some(" OPS "), None, None, &defaults);
    assert_eq!(ops.team_role.as_deref(), Some("devops"));
    assert_eq!(field(&ops, "lookup_role").as_str(), Some("devops"));

    let bypass = resolved(
        "cursor",
        "managed",
        "worker",
        Some("qa"),
        Some("provider_default"),
        None,
        &defaults,
    );
    assert_eq!(source(&bypass), "explicit_provider_default");
    assert!(field(&bypass, "revision").is_null());
    assert!(bypass.params.is_none());

    let codex = resolved("codex", "managed-ws", "worker", Some("qa"), None, None, &defaults);
    assert_eq!(source(&codex), "provider_default");
    assert!(codex.params.is_none());

    let empty = ModelDefaults::empty();
    let omitted = resolved("cursor", "pty", "pm", None, None, None, &empty);
    assert_eq!(source(&omitted), "provider_default");
    assert_eq!(field(&omitted, "revision").as_i64(), Some(4));
    assert_eq!(field(&omitted, "lookup_role").as_str(), Some("pm"));
}

#[test]
fn unsupported_endpoints_do_not_receive_a_model() {
    let defaults = config(
        r#"{"schema":1,"providers":{"cursor":{"default":{"mode":"model","model":"baseline"},"roles":{}}}}"#,
    );
    let devin = resolved(
        "devin",
        "pty",
        "worker",
        Some("qa"),
        None,
        Some(r#"{"permission_mode":"auto"}"#),
        &defaults,
    );
    assert!(devin.model_selection.is_none());
    assert_eq!(devin.team_role.as_deref(), Some("qa"));
    assert_eq!(devin.params.as_deref(), Some(r#"{"permission_mode":"auto"}"#));
    let err = resolve(
        &ResolveRequest {
            provider: "inbox",
            endpoint_kind: "inbox",
            runtime_role: "worker",
            team_role: None,
            model_policy: Some("provider_default"),
            params: None,
            config: &defaults,
            revision: 1,
        },
        false,
    )
    .unwrap_err();
    assert_eq!(err.code(), Some("unsupported_model_setting"));
}

fn refused(body: &str) -> cadence::error::Error {
    parse_settings_document(body, &eligible()).unwrap_err()
}

fn conflict(policy: Option<&str>, params: &str) -> Option<&'static str> {
    resolve(
        &ResolveRequest {
            provider: "cursor",
            endpoint_kind: "managed",
            runtime_role: "worker",
            team_role: None,
            model_policy: policy,
            params: Some(params),
            config: &ModelDefaults::empty(),
            revision: 0,
        },
        true,
    )
    .unwrap_err()
    .code()
}

#[test]
fn invalid_documents_and_conflicts_reject() {
    let err = refused(
        r#"{"expected_revision":0,"config":{"schema":1,"providers":{"nope":{"default":{"mode":"provider_default"},"roles":{}}}}}"#,
    );
    assert_eq!(err.code(), Some("invalid_config"));
    let err = refused(
        r#"{"expected_revision":0,"expected_revision":1,"config":{"schema":1,"providers":{}}}"#,
    );
    assert!(err.message().contains("duplicate key"));
    let err = refused(
        r#"{"expected_revision":0,"config":{"schema":1,"providers":{"cursor":{"default":{"mode":"model","model":"a"},"roles":{"qa":{"mode":"model","model":"b"},"qa":{"mode":"provider_default"}}}}}}"#,
    );
    assert!(err.message().contains("duplicate key"));
    let err =
        refused(r#"{"expected_revision":0,"config":{"schema":1,"providers":{},"extra":true}}"#);
    assert_eq!(err.code(), Some("invalid_config"));
    let err = refused(r#"{"expected_revision":1.5,"config":{"schema":1,"providers":{}}}"#);
    assert_eq!(err.code(), Some("invalid_request"));
    let err = refused(r#"{"expected_revision":-1,"config":{"schema":1,"providers":{}}}"#);
    assert_eq!(err.code(), Some("invalid_request"));
    let mut bad = config(
        r#"{"schema":1,"providers":{"cursor":{"default":{"mode":"model","model":"ok"},"roles":{}}}}"#,
    );
    bad.providers[0].1.default = ModelSelector::Model { model: " \n ".to_string() };
    assert_eq!(
        validate_config(&mut bad, &eligible()).unwrap_err().code(),
        Some("invalid_model")
    );
    let long = "m".repeat(201);
    assert!(validate_model_id(&long).is_err());
    assert!(validate_model_id("bad\u{0007}id").is_err());
    assert_eq!(
        conflict(Some("provider_default"), r#"{"model":"explicit"}"#),
        Some("conflicting_model_policy")
    );
    assert_eq!(conflict(None, r#"{"model":"   "}"#), Some("invalid_model"));
    assert_eq!(conflict(None, r#"{"model":1}"#), Some("invalid_model"));
    assert!(normalize_team_role("nope").is_err());
    let huge = format!(
        r#"{{"expected_revision":0,"config":{{"schema":1,"providers":{{"cursor":{{"default":{{"mode":"model","model":"{}"}},"roles":{{}}}}}}}}}}"#,
        "x".repeat(MAX_CONFIG_BYTES)
    );
    assert_eq!(refused(&huge).code(), Some("invalid_config"));
}

#[test]
fn deep_json_nesting_is_rejected() {
    let nest = 4_000;
    let mut body = String::from(r#"{"expected_revision":0,"config":"#);
    body.push_str(&"[".repeat(nest));
    body.push('0');
    body.push_str(&"]".repeat(nest));
    body.push('}');
    assert!(body.len() <= MAX_HTTP_BODY_BYTES);
    let err = refused(&body);
    assert_eq!(err.code(), Some("invalid_config"));
    assert!(err.message().contains("nesting exceeds"), "{}", err.message());
}

#[test]
fn identical_selector_round_trips_and_trims() {
    let write = parse_settings_document(
        r#"{"expected_revision":0,"config":{"schema":1,"providers":{"cursor":{"default":{"mode":"model","model":"  opus  "},"roles":{"qa":{"mode":"provider_default"}}}}}}"#,
        &eligible(),
    )
    .unwrap();
    assert_eq!(write.expected_revision, 0);
    match &dict::find(&write.config.providers, "cursor").unwrap().default {
        ModelSelector::Model { model } => assert_eq!(model, "opus"),
        other => panic!("{other:?}"),
    }
    // what is shown reads back
    let shown = show_config(&write.config);
    assert_eq!(defaults_of(&parse(&print(&shown)).unwrap()).unwrap(), write.config);
}

fn scan_fault(body: &str) -> String {
    scan_settings(body).unwrap_err().message().to_string()
}

#[test]
fn the_walk_tells_what_is_wrong() {
    assert_eq!(scan_settings("{\"expected_revision\":7,\"config\":[]}").unwrap(), 7);
    assert_eq!(scan_settings(" {\"config\" : {\"a\":[1,-2.5e+3,true,null,\"\\u00e9\\ud83d\\ude00\"]} , \"expected_revision\" : 12 } ").unwrap(), 12);
    assert_eq!(scan_fault(""), "unexpected end of JSON");
    assert_eq!(scan_fault("[]"), "settings body must be a JSON object");
    assert_eq!(scan_fault("{\"config\" 1}"), "expected ':', found '1'");
    assert_eq!(scan_fault("{\"config\"é}"), "expected ':', found 'Ã'");
    assert_eq!(scan_fault("{\"other\":1}"), "unknown settings field 'other'");
    assert_eq!(scan_fault("{\"config\":1} x"), "trailing data after settings JSON");
    assert_eq!(scan_fault("{\"config\":1}"), "settings body requires expected_revision");
    assert_eq!(scan_fault("{\"expected_revision\":1}"), "settings body requires config");
    assert_eq!(scan_fault("{\"config\":1 2}"), "expected ',' or '}'");
    assert_eq!(scan_fault("{\"config\":[1 2]}"), "expected ',' or ']'");
    assert_eq!(scan_fault("{\"config\":nul}"), "invalid literal");
    assert_eq!(scan_fault("{\"config\":01}"), "expected ',' or '}'");
    assert_eq!(scan_fault("{\"config\":-}"), "invalid number");
    assert_eq!(scan_fault("{\"config\":1.}"), "invalid number");
    assert_eq!(scan_fault("{\"config\":1e}"), "invalid number");
    assert_eq!(scan_fault("{\"config\":?}"), "invalid JSON value");
    assert_eq!(scan_fault("{\"config\":\"\\x\"}"), "invalid string escape");
    assert_eq!(scan_fault("{\"config\":\"\\uzzzz\"}"), "invalid unicode escape");
    assert_eq!(scan_fault("{\"config\":\"\\udc00\"}"), "lone unicode surrogate");
    assert_eq!(scan_fault("{\"config\":\"\\ud800x\"}"), "lone unicode surrogate");
    assert_eq!(scan_fault("{\"config\":\"\\ud800\\u0041\"}"), "invalid unicode surrogate pair");
    assert_eq!(scan_fault("{\"config\":\"\n\"}"), "unescaped control character in string");
    assert_eq!(scan_fault("{\"config\":\"abc"), "unexpected end of JSON");
    // a key is the same however it is written
    assert_eq!(scan_fault("{\"config\":{\"a\":1,\"\\u0061\":2}}"), "duplicate key 'a'");
    assert_eq!(
        scan_fault("{\"config\":1,\"expected_revision\":9223372036854775808}"),
        "expected_revision is outside the stored integer range"
    );
    assert_eq!(
        scan_fault("{\"config\":1,\"expected_revision\":\"1\"}"),
        "expected_revision must be a nonnegative integer"
    );
    assert_eq!(scan_fault(&" ".repeat(MAX_HTTP_BODY_BYTES + 1)), "settings body exceeds 20480 bytes");
}

#[test]
fn a_document_has_its_shape() {
    let read = |raw: &str| defaults_of(&parse(raw).unwrap());
    assert!(read(r#"[1,{}]"#).is_ok());
    assert!(read(r#"{"schema":1}"#).is_err());
    assert!(read(r#"{"schema":"1","providers":{}}"#).is_err());
    assert!(read(r#"{"schema":1,"providers":[]}"#).is_err());
    assert!(read(r#"{"schema":4294967296,"providers":{}}"#).is_err());
    assert!(read(r#"{"schema":1,"providers":{"cursor":{"default":["provider_default"],"roles":{}}}}"#).is_ok());
    assert!(read(r#"{"schema":1,"providers":{"cursor":{"default":{"mode":"model","model":"a","x":1},"roles":{}}}}"#).is_err());
    assert!(read(r#"{"schema":1,"providers":{"cursor":{"default":{"mode":"provider_default","x":1},"roles":{}}}}"#).is_ok());
    let e = settings_from(3, Err("expected value".to_string()), &eligible()).unwrap_err();
    assert_eq!(e.message(), "model defaults document was rejected: expected value");
    let mut other = read(r#"{"schema":2,"providers":{}}"#).unwrap();
    assert!(validate_config(&mut other, &eligible()).is_err());
}

#[test]
fn ids_roles_and_policies() {
    assert_eq!(validate_model_id("  a/b  ").unwrap(), "a/b");
    assert!(validate_model_id(&"m".repeat(200)).is_ok());
    assert_eq!(team_roles().len(), 7);
    assert!(canonical_team_role("devops") && !canonical_team_role("ops"));
    assert_eq!(normalize_team_role("QA").unwrap(), "qa");
    assert_eq!(
        normalize_team_role("nope").unwrap_err().message(),
        "unknown team role 'nope' — expected one of: pm, research, architect, dev, qa, devops, worker"
    );
    assert_eq!(normalize_team_role("  ").unwrap_err().code(), Some("invalid_team_role"));
    assert_eq!(parse_model_policy(None).unwrap(), ModelPolicy::Inherit);
    assert_eq!(parse_model_policy(Some(" inherit ")).unwrap(), ModelPolicy::Inherit);
    assert_eq!(
        parse_model_policy(Some("provider_default")).unwrap(),
        ModelPolicy::ProviderDefault
    );
    assert_eq!(parse_model_policy(Some("x")).unwrap_err().code(), Some("invalid_model_policy"));
    assert_eq!(normalize_attribution(None).unwrap().transport, "local");
    assert_eq!(normalize_attribution(Some(" fle ")).unwrap().actor, "fle");
    assert!(normalize_attribution(Some("")).is_err());
    assert!(normalize_attribution(Some(&"a".repeat(161))).is_err());
}

#[test]
fn params_are_kept_or_printed_again() {
    let defaults = ModelDefaults::empty();
    let kept = resolved("cursor", "pty", "worker", None, None, Some(r#"{ "b": 1, "a": [true] }"#), &defaults);
    assert_eq!(kept.params.as_deref(), Some(r#"{ "b": 1, "a": [true] }"#));
    let printed = resolved(
        "cursor",
        "pty",
        "worker",
        None,
        None,
        Some(r#"{ "model": " m ", "a": "q\"" }"#),
        &defaults,
    );
    assert_eq!(printed.params.as_deref(), Some(r#"{"a":"q\"","model":"m"}"#));
    let request = ResolveRequest {
        provider: "cursor",
        endpoint_kind: "pty",
        runtime_role: "worker",
        team_role: None,
        model_policy: None,
        params: Some("[]"),
        config: &defaults,
        revision: 0,
    };
    let e = resolve(&request, true).unwrap_err();
    assert_eq!(e.message(), "params must be a JSON object");
    assert!(resolve_parsed(&request, Some(Err("bad".to_string())), true).is_err());
    let long = format!(r#"{{"a":"{}"}}"#, "x".repeat(4000));
    let e = resolve(&ResolveRequest { params: Some(&long), ..request }, true).unwrap_err();
    assert_eq!(e.code(), Some("params_too_large"));
}

#[test]
fn provenance_of_older_and_overridden_agents() {
    assert!(legacy_selection(false, None, "worker", Some("m")).is_null());
    let j = legacy_selection(true, None, "worker", Some("m"));
    assert_eq!(j.get_str("source"), Some("legacy_configured"));
    assert_eq!(j.get_str("lookup_role"), Some("worker"));
    let j = legacy_selection(true, Some("qa"), "worker", None);
    assert_eq!(j.get_str("source"), Some("legacy_provider_default"));
    assert_eq!(j.get_str("lookup_role"), Some("qa"));
    let j = explicit_override_selection("qa", Some(" m ")).unwrap();
    assert_eq!(print(&j), r#"{"lookup_role":"qa","model":"m","revision":null,"source":"explicit"}"#);
    assert!(explicit_override_selection("qa", Some(" ")).is_err());
    let j = explicit_override_selection("qa", None).unwrap();
    assert_eq!(j.get_str("source"), Some("explicit_provider_default"));
}

#[test]
fn the_snapshot_suggests_what_was_seen() {
    let observed = vec![
        ObservedModel { provider: "cursor", configured: Some(" m2 "), reported: Some("m1") },
        ObservedModel { provider: "cursor", configured: Some("m1"), reported: Some(" ") },
        ObservedModel { provider: "codex", configured: Some("other"), reported: None },
    ];
    let row = |id: &str, eligible: bool| ProviderRow {
        id: id.to_string(),
        label: None,
        eligible,
        kinds: vec!["pty".to_string()],
        limitation: None,
    };
    let j = snapshot_json(
        9,
        &ModelDefaults::empty(),
        &observed,
        &vec![row("cursor", true), row("codex", false)],
    );
    assert_eq!(j.get("revision").unwrap().as_i64(), Some(9));
    let rows = j.get("providers").unwrap().as_arr().unwrap();
    assert_eq!(print(rows[0].get("suggestions").unwrap()), r#"["m1","m2"]"#);
    assert_eq!(print(rows[1].get("suggestions").unwrap()), "[]");
    assert_eq!(rows[0].get_str("label"), Some("Cursor"));
    assert_eq!(print(j.get("config").unwrap()), r#"{"providers":{},"schema":1}"#);
    assert_eq!(j.get("roles").unwrap().as_arr().unwrap().len(), 7);
}

#[test]
fn providers_are_shown_by_their_names() {
    for (id, label) in [("codex", "Codex"), ("cursor", "Cursor"), ("devin", "Devin"), ("pi", "pi")] {
        assert_eq!(provider_label(id), label);
    }
}
