use cadence::pi_policy::package::{
    check_entry, declared_extensions, entry_file, entry_path, is_dependency, package_digest,
    parse_package_pin, resolve_package, Content, EntryFacts, Facts, Kind, PackFile,
};
use cadence::pi_policy::{
    culprit, read, require_allowed, resolve_model, Found, PiModels, PiPolicy, PiRoleDefaults,
};
use cadence::json::parse;

fn strings(v: &[&str]) -> Vec<String> {
    v.iter().map(|s| s.to_string()).collect()
}

fn policy(
    allow: &[&str],
    master_allow: Option<&[&str]>,
    worker_allow: Option<&[&str]>,
    master: Option<&str>,
    worker: Option<&str>,
) -> PiPolicy {
    PiPolicy {
        providers: Vec::new(),
        models: PiModels {
            allow: strings(allow),
            master_allow: master_allow.map(strings),
            worker_allow: worker_allow.map(strings),
            default: PiRoleDefaults {
                master: master.map(|s| s.to_string()),
                worker: worker.map(|s| s.to_string()),
            },
        },
    }
}

fn pinned(providers: &[&str]) -> PiPolicy {
    PiPolicy { providers: strings(providers), ..policy(&[], None, None, None, None) }
}

#[test]
fn absent_file_or_table_is_no_policy() {
    // What a file without a `pi` table holds, and no file at all.
    let found = |text: Option<&str>| {
        let yaml: serde_yaml::Value = serde_yaml::from_str(text.unwrap_or("")).unwrap();
        assert!(yaml.get("pi").is_none());
        Found::Nothing
    };
    assert!(read(found(None)).unwrap().is_none());
    assert!(read(found(Some("schema: 1\n"))).unwrap().is_none());
    assert!(read(found(Some("host:\n  agent_gc_older_than_secs: 60\n"))).unwrap().is_none());
}

#[test]
fn a_full_table_parses() {
    let mut p = policy(
        &["openrouter/z-ai/glm-5.3-flash", "devin/swe-2-high"],
        None,
        None,
        Some("openrouter/z-ai/glm-5.3-flash"),
        Some("devin/swe-2-high"),
    );
    p.providers = strings(&["pi-devin@0.1.2", "@acme/tool@2.0.0"]);
    let policy = read(Found::Table(p)).unwrap().unwrap();
    assert_eq!(policy.providers, vec!["pi-devin@0.1.2", "@acme/tool@2.0.0"]);
    assert_eq!(
        policy.models.allow,
        vec!["openrouter/z-ai/glm-5.3-flash", "devin/swe-2-high"]
    );
    assert_eq!(
        policy.models.default.master.as_deref(),
        Some("openrouter/z-ai/glm-5.3-flash")
    );
    assert_eq!(policy.models.default.worker.as_deref(), Some("devin/swe-2-high"));
    assert_eq!(policy.models.default.for_role("master"), Some("openrouter/z-ai/glm-5.3-flash"));
    assert_eq!(policy.models.default.for_role("worker"), Some("devin/swe-2-high"));
}

#[test]
fn a_bad_key_or_entry_names_the_culprit() {
    let err = read(Found::BadTable {
        culprit: Some("provdiders".to_string()),
        why: "unknown field".to_string(),
    })
    .unwrap_err();
    assert_eq!(err.message(), "pm.yaml [pi] provdiders: unknown field");
    let err = read(Found::BadTable { culprit: None, why: "x".to_string() }).unwrap_err();
    assert_eq!(err.message(), "pm.yaml [pi]: x");
    let err = read(Found::Table(policy(&[" padded "], None, None, None, None))).unwrap_err();
    assert!(err.message().contains(" padded "), "{}", err.message());
    let err = read(Found::Table(pinned(&["unpinned"]))).unwrap_err();
    assert!(err.message().contains("unpinned"), "{}", err.message());
    assert!(read(Found::BadFile("eof".to_string())).is_err());
}

#[test]
fn resolve_model_is_explicit_then_role_default_then_refuse() {
    let p = policy(&["a/m1", "a/m2"], None, None, Some("a/m1"), Some("a/m2"));
    let p = Some(&p);
    assert_eq!(resolve_model(p, "worker", Some("a/m1")).unwrap(), "a/m1");
    assert_eq!(resolve_model(p, "worker", None).unwrap(), "a/m2");
    assert_eq!(resolve_model(p, "pm", None).unwrap(), "a/m2");
    assert_eq!(resolve_model(p, "master", None).unwrap(), "a/m1");
    let err = resolve_model(p, "worker", Some("a/m3")).unwrap_err();
    assert!(err.message().contains("a/m3") && err.message().contains("a/m1"));
    let p2 = policy(&["a/m1"], None, None, None, None);
    let err = resolve_model(Some(&p2), "worker", None).unwrap_err();
    assert!(err.message().contains("models.default.worker"));
    let err = resolve_model(None, "worker", Some("a/m1")).unwrap_err();
    assert!(err.message().contains("allowlist"));
}

#[test]
fn per_role_lists_override_and_fall_back() {
    let p = policy(
        &["a/shared-1"],
        Some(&["a/master-only"]),
        None,
        Some("a/master-only"),
        Some("a/shared-1"),
    );
    assert_eq!(p.models.allow_for("master"), &vec!["a/master-only".to_string()]);
    for role in ["worker", "pm"] {
        assert_eq!(p.models.allow_for(role), &vec!["a/shared-1".to_string()]);
    }
    let err = require_allowed(Some(&p), "master", "a/shared-1").unwrap_err();
    assert!(err.message().contains("master") && err.message().contains("master_allow"));
    let err = require_allowed(Some(&p), "worker", "a/master-only").unwrap_err();
    assert!(err.message().contains("worker") && err.message().contains("allow"));
    let p2 = policy(&["a/m1"], Some(&["a/m2"]), None, Some("a/m1"), None);
    let err = resolve_model(Some(&p2), "master", None).unwrap_err();
    assert!(err.message().contains("a/m1") && err.message().contains("master_allow"));
}

#[test]
fn an_empty_role_list_allows_nothing() {
    let p = policy(&["a/m1"], Some(&[]), None, None, None);
    assert!(p.models.allow_for("master").is_empty());
    let err = require_allowed(Some(&p), "master", "a/m1").unwrap_err();
    assert!(err.message().contains("master_allow"));
    require_allowed(Some(&p), "worker", "a/m1").unwrap();
    assert_eq!(p.models.allow_key("worker"), "allow");
}

#[test]
fn worker_allow_narrows_the_worker_side() {
    let p = policy(&["a/shared-1", "a/shared-2"], None, Some(&["a/shared-2"]), None, None);
    require_allowed(Some(&p), "worker", "a/shared-2").unwrap();
    let err = require_allowed(Some(&p), "worker", "a/shared-1").unwrap_err();
    assert!(err.message().contains("worker_allow"));
    require_allowed(Some(&p), "master", "a/shared-1").unwrap();
    assert_eq!(p.models.allow_key("master"), "allow");
}

#[test]
fn role_lists_validate_at_read() {
    let err = read(Found::Table(policy(&[], Some(&[" bad "]), None, None, None))).unwrap_err();
    assert!(err.message().contains(" bad "), "{}", err.message());
}

fn facts(dir: &str, entries: &[&str]) -> Facts {
    Facts {
        root_real: Some("/npm/node_modules".to_string()),
        dir_real: Some(dir.to_string()),
        digest: Ok(String::new()),
        entries: entries
            .iter()
            .map(|e| EntryFacts { is_file: true, target: Some(e.to_string()) })
            .collect(),
    }
}

const ROOT: &str = "/npm/node_modules";

#[test]
fn a_pinned_package_resolves_to_its_entries() {
    let pkg = resolve_package(
        "pi-devin@0.1.2",
        ROOT,
        Some(r#"{"version":"0.1.2","pi":{"extensions":["./extensions/index.ts"]}}"#),
        &facts("/npm/node_modules/pi-devin", &["/npm/node_modules/pi-devin/extensions/index.ts"]),
    )
    .unwrap();
    assert_eq!(pkg.dir, "/npm/node_modules/pi-devin");
    assert_eq!(pkg.entries, vec!["/npm/node_modules/pi-devin/extensions/index.ts"]);
    let scoped = resolve_package(
        "@acme/tool@2.0.0",
        ROOT,
        Some(r#"{"version":"2.0.0","pi":{"extensions":["a.js","b/c.js"]}}"#),
        &facts(
            "/npm/node_modules/@acme/tool",
            &["/npm/node_modules/@acme/tool/a.js", "/npm/node_modules/@acme/tool/b/c.js"],
        ),
    )
    .unwrap();
    assert_eq!(
        scoped.entries,
        vec!["/npm/node_modules/@acme/tool/a.js", "/npm/node_modules/@acme/tool/b/c.js"]
    );
}

#[test]
fn a_name_has_one_scoping_at() {
    assert!(parse_package_pin("@scope/name@1").is_ok());
    for bad in ["@@a/b@1", "@scope/@name@1", "@name@1", "a/b@1", "@/b@1", "@@name@1"] {
        assert!(parse_package_pin(bad).is_err(), "{bad}");
    }
}

#[test]
fn the_first_key_that_fails_alone_is_the_culprit() {
    let tries = |v: &[(&str, bool)]| v.iter().map(|(k, b)| (k.to_string(), *b)).collect();
    assert_eq!(
        culprit(&tries(&[("models", false), ("provdiders", true), ("x", true)])),
        Some("provdiders".to_string())
    );
    assert_eq!(culprit(&tries(&[("models", false)])), None);
    assert_eq!(culprit(&Vec::new()), None);
}

#[test]
fn package_drift_and_escape_are_refused() {
    let f = facts("/npm/node_modules/pi-devin", &["/npm/node_modules/pi-devin/e.ts"]);
    let manifest = r#"{"version":"0.2.0","pi":{"extensions":["./e.ts"]}}"#;
    let err = resolve_package("pi-devin@0.1.2", ROOT, Some(manifest), &f).unwrap_err();
    assert!(err.message().contains("0.2.0") && err.message().contains("0.1.2"));
    let err = resolve_package("ghost@1.0.0", ROOT, None, &f).unwrap_err();
    assert!(err.message().contains("not installed under /npm/node_modules"));
    assert!(resolve_package("pi-devin@0.1.2", ROOT, Some(r#"{"version":"0.1.2"}"#), &f).is_err());
    assert!(resolve_package("pi-devin@0.1.2", ROOT, Some("{"), &f).is_err());
    let evil = r#"{"version":"1.0.0","pi":{"extensions":["../outside.ts"]}}"#;
    let err = resolve_package("evil@1.0.0", ROOT, Some(evil), &facts("/npm/node_modules/evil", &["/npm/node_modules/outside.ts"]))
        .unwrap_err();
    assert!(err.message().contains("escapes"), "{}", err.message());
    let missing = r#"{"version":"1.0.0","pi":{"extensions":["nope.ts"]}}"#;
    let err = resolve_package("missing@1.0.0", ROOT, Some(missing), &facts("/npm/node_modules/missing", &[]))
        .unwrap_err();
    assert!(err.message().contains("does not exist at /npm/node_modules/missing/nope.ts"));
    let number = r#"{"version":"1.0.0","pi":{"extensions":[1]}}"#;
    let err = resolve_package("n@1.0.0", ROOT, Some(number), &facts("/npm/node_modules/n", &[]))
        .unwrap_err();
    assert!(err.message().contains("must be strings"));
    for spec in ["", "pkg", "pkg@", "@1.0", "@/x@1", "../x@1", "a/b@1"] {
        assert!(resolve_package(spec, ROOT, Some(manifest), &f).is_err(), "{spec}");
    }
}

#[test]
fn a_symlinked_package_dir_cannot_escape_the_root() {
    let manifest = r#"{"version":"0.1.2","pi":{"extensions":["./e.ts"]}}"#;
    let err = resolve_package(
        "pi-devin@0.1.2",
        ROOT,
        Some(manifest),
        &facts("/npm/elsewhere/pi-devin", &["/npm/elsewhere/pi-devin/e.ts"]),
    )
    .unwrap_err();
    assert!(err.message().contains("escapes"), "{}", err.message());
    let mut f = facts("/npm/node_modules/pi-devin", &[]);
    f.root_real = None;
    let err = resolve_package("pi-devin@0.1.2", ROOT, Some(manifest), &f).unwrap_err();
    assert!(err.message().contains("does not resolve"));
    let mut f = facts("/npm/node_modules/pi-devin", &[]);
    f.dir_real = None;
    let err = resolve_package("pi-devin@0.1.2", ROOT, Some(manifest), &f).unwrap_err();
    assert!(err.message().contains("package dir /npm/node_modules/pi-devin does not resolve"));
}

#[test]
fn a_symlinked_entry_cannot_escape_the_package_dir() {
    let manifest = r#"{"version":"1.0.0","pi":{"extensions":["./entry.ts"]}}"#;
    let err = resolve_package(
        "evil@1.0.0",
        ROOT,
        Some(manifest),
        &facts("/npm/node_modules/evil", &["/npm/payload.ts"]),
    )
    .unwrap_err();
    assert!(err.message().contains("escapes"), "{}", err.message());
    // a name that only begins like the directory is no inside
    let err = entry_file(
        "/npm/node_modules/evil",
        "e.ts",
        &EntryFacts { is_file: true, target: Some("/npm/node_modules/evil2/e.ts".to_string()) },
    )
    .unwrap_err();
    assert!(err.contains("escapes"));
    let err = entry_file("/d", "e.ts", &EntryFacts { is_file: true, target: None }).unwrap_err();
    assert!(err.contains("does not resolve at /d/e.ts"));
}

#[test]
fn an_internal_symlinked_entry_still_resolves() {
    let manifest = r#"{"version":"1.0.0","pi":{"extensions":["./alias.ts","./real/inner.ts"]}}"#;
    let pkg = resolve_package(
        "linked@1.0.0",
        ROOT,
        Some(manifest),
        &facts(
            "/npm/node_modules/linked",
            &["/npm/node_modules/linked/real/index.ts", "/npm/node_modules/linked/real/inner.ts"],
        ),
    )
    .unwrap();
    assert_eq!(pkg.entries.len(), 2);
    assert_eq!(pkg.entries[0], "/npm/node_modules/linked/real/index.ts");
}

fn file(rel: &str, text: &str) -> PackFile {
    PackFile {
        rel: rel.to_string(),
        content: Content::File { len: text.len() as u64, bytes: text.as_bytes().to_vec() },
    }
}

fn link(rel: &str, target: &str) -> PackFile {
    PackFile { rel: rel.to_string(), content: Content::Link { target: target.to_string() } }
}

#[test]
fn a_content_pin_refuses_a_hand_edited_package() {
    let manifest = r#"{"version":"0.2.1","pi":{"extensions":["./extensions/index.ts"]}}"#;
    let clean = || vec![
        file("package.json", manifest),
        file("extensions/index.ts", "// ext"),
        file("src/stream.ts", "// ext"),
    ];
    let digest = package_digest(clean());
    let spec = format!("pi-devin@0.2.1#{digest}");
    let with = |found: String| {
        let mut f = facts(
            "/npm/node_modules/pi-devin",
            &["/npm/node_modules/pi-devin/extensions/index.ts"],
        );
        f.digest = Ok(found);
        resolve_package(&spec, ROOT, Some(manifest), &f)
    };
    assert!(with(package_digest(clean())).is_ok());
    let mut edited = clean();
    edited[2] = file("src/stream.ts", "// hand-edited in place");
    let err = with(package_digest(edited)).unwrap_err();
    assert!(err.message().contains("drifted"));
    assert!(err.message().contains(&digest));
}

#[test]
fn added_or_removed_files_change_the_digest() {
    let one = package_digest(vec![file("package.json", "{}"), file("e.ts", "// ext")]);
    let more = package_digest(vec![
        file("package.json", "{}"),
        file("e.ts", "// ext"),
        file("extra.ts", "// planted"),
    ]);
    let less = package_digest(vec![file("package.json", "{}")]);
    assert_ne!(one, more);
    assert_ne!(one, less);
    // a launch by the pin refuses both, and takes the package as it was
    let manifest = r#"{"version":"0.2.1","pi":{"extensions":["./e.ts"]}}"#;
    let spec = format!("pi-devin@0.2.1#{one}");
    let launch = |found: &str| {
        let mut f = facts("/npm/node_modules/pi-devin", &["/npm/node_modules/pi-devin/e.ts"]);
        f.digest = Ok(found.to_string());
        resolve_package(&spec, ROOT, Some(manifest), &f)
    };
    assert!(launch(&one).is_ok());
    assert!(launch(&more).is_err());
    assert!(launch(&less).is_err());
    // the order in which they are found does not count
    assert_eq!(one, package_digest(vec![file("e.ts", "// ext"), file("package.json", "{}")]));
}

#[test]
fn the_content_pin_ignores_node_modules() {
    let own = vec![file("e.ts", "// ext")];
    let with_dep = |text: &str| vec![file("node_modules/dep/index.js", text), file("e.ts", "// ext")];
    let digest = package_digest(own);
    assert_eq!(package_digest(with_dep("// dep")), digest);
    assert_eq!(package_digest(with_dep("// swapped")), digest);
    assert!(is_dependency("node_modules/x") && is_dependency("a/node_modules"));
    assert!(!is_dependency("a/node_modules_x"));
}

#[test]
fn the_digest_covers_symlink_targets() {
    let a = package_digest(vec![link("alias.ts", "real/index.ts")]);
    let b = package_digest(vec![link("alias.ts", "real/inner.ts")]);
    assert_ne!(a, b);
    assert_ne!(a, package_digest(vec![file("alias.ts", "real/index.ts")]));
}

#[test]
fn the_digest_is_framed() {
    // sha256 of nothing, and of "f" "a" 0 2 0 0 0 0 0 0 0 "hi"
    assert_eq!(
        package_digest(Vec::new()),
        "sha256-e3b0c44298fc1c149afbf4c8996fb92427ae41e4649b934ca495991b7852b855"
    );
    assert_eq!(package_digest(vec![file("a", "hi")]).len(), 71);
    assert!(check_entry("/p/x", Kind::File, 8 << 20).is_ok());
    let err = check_entry("/p/x", Kind::File, (8 << 20) + 1).unwrap_err();
    assert_eq!(err.message(), "package digest: /p/x exceeds the 8388608-byte bound");
    assert!(check_entry("/p/x", Kind::Link, u64::MAX).is_ok());
    let err = check_entry("/p/x", Kind::Other, 0).unwrap_err();
    assert_eq!(err.message(), "package digest: /p/x is not a regular file");
}

#[test]
fn a_malformed_content_pin_refuses() {
    for spec in [
        "pi-devin@0.1.2#",
        "pi-devin@0.1.2#sha256",
        "pi-devin@0.1.2#md5-0123456789abcdef0123456789abcdef",
        "pi-devin@0.1.2#sha256-XYZ",
        "pi-devin@0.1.2#sha256-0123456789abcdef0123456789abcdef0123456789abcdef0123456789abcde",
        "pi-devin@0.1.2#sha256-0123456789ABCDEF0123456789abcdef0123456789abcdef0123456789abcdef",
    ] {
        assert!(parse_package_pin(spec).is_err(), "{spec}");
    }
    let good = format!("pi-devin@0.1.2#sha256-{}", "0".repeat(64));
    assert_eq!(read(Found::Table(pinned(&[&good]))).unwrap().unwrap().providers.len(), 1);
    let err = read(Found::Table(pinned(&["pi-devin@0.1.2#md5-abc"]))).unwrap_err();
    assert!(err.message().contains("pi-devin@0.1.2#md5-abc"));
}

#[test]
fn a_pin_is_cut_at_its_last_at() {
    let p = parse_package_pin("@scope/name@1.2").unwrap();
    assert_eq!((p.name.as_str(), p.version.as_str()), ("@scope/name", "1.2"));
    assert!(p.digest.is_none());
    assert_eq!(entry_path("/d", "./a/./b.ts").unwrap(), "/d/a/b.ts");
    assert!(entry_path("/d", "/abs.ts").unwrap_err().contains("must be relative"));
    assert!(entry_path("/d", "a/../b.ts").unwrap_err().contains("escapes"));
    assert_eq!(declared_extensions(&parse(r#"{"pi":{"extensions":["a"]}}"#).unwrap()).len(), 1);
    assert!(declared_extensions(&parse(r#"{"pi":[]}"#).unwrap()).is_empty());
}
