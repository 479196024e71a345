use cadence::json::{parse, print, same, Json};
use cadence::platform::custody::{
    file_load, file_path, libsecret_args, libsecret_clear, libsecret_lookup, libsecret_tool, Custody,
    FileFault, Key, Place,
};
use cadence::platform::index::{earlier_run, index_json, result_json};
use cadence::platform::local::{
    begin, check_path, confine, default_outbox_dir, item_dir, list_items, preview, publication,
    read_back, register, replay, Attachment, ItemFiles,
};
use cadence::platform::{
    consent_request, enroll_consent, enroll_token, load_credential, personal_token_kind,
    refuse_leak, require_grant, ConsentOutcome, CredentialRecord, Grant,
};

fn json(text: &str) -> Json {
    parse(text).unwrap()
}

fn key() -> Key<'static> {
    Key {
        platform: "github",
        account: "acme",
    }
}

fn names(v: &[&str]) -> Vec<String> {
    v.iter().map(|s| s.to_string()).collect()
}

#[test]
fn libsecret_lookup_trims_the_tool_framing() {
    let bytes = libsecret_lookup(&key(), true, b"tok_abc123\n".to_vec()).unwrap();
    assert_eq!(bytes, b"tok_abc123");
}

#[test]
fn libsecret_lookup_trims_crlf_too() {
    let bytes = libsecret_lookup(&key(), true, b"tok_abc123\r\n".to_vec()).unwrap();
    assert_eq!(bytes, b"tok_abc123");
}

#[test]
fn libsecret_lookup_refuses_a_failed_tool() {
    assert!(libsecret_lookup(&key(), false, vec![]).is_err());
    assert!(libsecret_clear(&key(), false).is_err());
    assert!(libsecret_clear(&key(), true).is_ok());
}

#[test]
fn custody_stays_where_the_record_says() {
    let files = Custody::open("/state", None);
    let tool = Custody::open("/state", Some("/usr/bin/secret-tool".to_string()));
    let (place, tag) = files.put(&key());
    assert_eq!(tag, "file");
    match place {
        Place::File { dir, path } => assert_eq!(path, file_path(&dir, &key())),
        other => panic!("{other:?}"),
    }
    let (_, tag) = tool.put(&key());
    assert_eq!(tag, "keychain:libsecret");
    // Bytes put by the one custody are not looked for in the other.
    assert!(matches!(tool.load("keychain:libsecret", &key()), Ok(Place::Tool { .. })));
    assert!(files.load("keychain:libsecret", &key()).is_err());
    assert!(files.load("vault", &key()).is_err());
    // A file record is dropped from the file store by either.
    let path = file_path("/state/custody", &key());
    for custody in [&files, &tool] {
        match custody.remove("/state", "file", &key()).unwrap() {
            Place::File { path: p, .. } => assert_eq!(p, path),
            other => panic!("{other:?}"),
        }
    }
    assert!(matches!(tool.remove("/state", "keychain:libsecret", &key()), Ok(Place::Tool { .. })));
    assert!(files.remove("/state", "keychain:libsecret", &key()).is_err());
    assert_eq!(
        libsecret_args(&key()),
        ["service", "cadence-platform", "platform", "github", "acme"]
    );
    assert!(libsecret_tool(Some("t".to_string()), false, false).is_none());
    assert!(file_load(&key(), Err(FileFault::Missing)).is_err());
}

#[test]
fn personal_tokens_are_not_enrolled() {
    assert_eq!(
        personal_token_kind("ghp_abc"),
        Some("GitHub personal access token")
    );
    assert_eq!(personal_token_kind("ghs_abc"), None);
    let declared = names(&["repo"]);
    let e = enroll_token(&json(r#"{"token": "  ghs_abc \n"}"#), &declared).unwrap();
    assert_eq!(e.bytes, b"ghs_abc");
    assert_eq!(e.scopes, declared);
    assert_eq!(e.exchange, "token");
    for bad in [
        r#"{}"#,
        r#"{"token": "  "}"#,
        r#"{"token": "a b"}"#,
        r#"{"token": "glpat-x"}"#,
    ] {
        assert!(enroll_token(&json(bad), &declared).is_err(), "{bad}");
    }
}

#[test]
fn consent_keeps_to_what_was_granted() {
    let declared = names(&["read", "write"]);
    let got = enroll_consent(
        &declared,
        Ok(ConsentOutcome {
            credential: b"tok".to_vec(),
            granted_scopes: Some(names(&["read"])),
        }),
    )
    .unwrap();
    assert_eq!(got.bytes, b"tok");
    assert_eq!(got.scopes, names(&["read"]));
}

#[test]
fn consent_is_asked_of_a_registered_platform_only() {
    let known = names(&["agenticos"]);
    let declared = names(&["read"]);
    let params = json(r#"{"redirect": "r"}"#);
    let q = consent_request(&known, "agenticos", "ops", &declared, &params).unwrap();
    assert_eq!((q.platform, q.account), ("agenticos", "ops"));
    assert_eq!(*q.scopes, declared);
    assert_eq!(q.params.get_str("redirect"), Some("r"));
    let e = consent_request(&known, "other", "ops", &declared, &params).err().unwrap();
    assert!(e.message().contains("no consent-exchange adapter is registered for platform 'other'"));
    let token = json(r#"{"token": "t"}"#);
    let e = consent_request(&known, "agenticos", "ops", &declared, &token).err().unwrap();
    assert!(e.message().contains("does not belong to a consent exchange"));
}

#[test]
fn a_grant_must_cover_the_scope() {
    let grant = || {
        Some(Grant {
            scopes: names(&["read"]),
        })
    };
    assert!(require_grant("w1", "github", "acme", "read", Ok(()), grant(), true, true).is_ok());
    let refused = require_grant("w1", "github", "acme", "write", Ok(()), grant(), false, true);
    assert!(refused.is_err());
    let absent = require_grant("w1", "github", "acme", "read", Ok(()), None, false, true);
    let unknown = require_grant("w1", "github", "acme", "read", Ok(()), None, false, false);
    let (absent, unknown) = (absent.err().unwrap(), unknown.err().unwrap());
    assert_ne!(absent.message(), unknown.message());
    for e in [&absent, &unknown] {
        assert!(e.message().contains("scope 'read' is not granted"), "{}", e.message());
    }
}

#[test]
fn changed_custody_bytes_are_refused() {
    let record = || {
        Some(CredentialRecord {
            custody: "file".to_string(),
            fingerprint: "f1".to_string(),
        })
    };
    let loaded = |print: &str| Ok((b"tok".to_vec(), print.to_string()));
    assert_eq!(
        load_credential("github", "acme", record(), loaded("f1")).unwrap(),
        b"tok"
    );
    let e = load_credential("github", "acme", record(), loaded("f2")).unwrap_err();
    assert!(e.message().contains("fingerprint"));
    assert!(load_credential("github", "acme", None, loaded("f1")).is_err());
}

#[test]
fn text_that_carries_the_secret_is_withheld() {
    assert!(refuse_leak("the reply", "token is tok_1!", b"tok_1").is_err());
    assert!(refuse_leak("the reply", "nothing here", b"tok_1").is_ok());
    assert!(refuse_leak("the reply", "anything", b"").is_ok());
    // Bytes that are no UTF-8 are compared as they would be shown.
    assert!(refuse_leak("the reply", "a\u{fffd}b", &[0xff]).is_err());
}

const INPUT: &str = r#"{"project": "cadence", "title": "Hello", "body": "World\n"}"#;

#[test]
fn a_post_is_published_once_and_read_back() {
    let staged = begin("publish", INPUT, Ok(())).unwrap();
    let attachments: Vec<Attachment> = vec![];
    let p = publication(&staged, "e1", "/out/cadence/e1", "http://b", "now", &attachments);
    assert_eq!(p.post_md, "# Hello\n\nWorld\n");
    assert_eq!(p.index.result.platform_ref, "outbox/cadence/e1");
    assert_eq!(p.index.result.url, "http://b/outbox?item=e1");
    assert_eq!(
        item_dir("/out", "cadence", "e1", Ok(())).unwrap(),
        "/out/cadence/e1"
    );
    let index = || json(&print(&index_json(&p.index)));
    // The same input replays; another under the key is refused.
    assert_eq!(
        replay(&index(), &p.index.input_sha256, "e1")
            .unwrap()
            .get_str("url"),
        Some("http://b/outbox?item=e1")
    );
    assert!(replay(&index(), "other", "e1").is_err());
    let files = |post: &str| ItemFiles {
        post: Some(post.as_bytes().to_vec()),
        has_dir: false,
        listing: None,
        files: vec![],
    };
    let intact = vec![(index(), files(&p.post_md))];
    assert!(read_back("publish", INPUT, Ok(()), &intact));
    let edited = vec![(index(), files("# Hello\n\nChanged\n"))];
    assert!(!read_back("publish", INPUT, Ok(()), &edited));
    assert!(!read_back("publish", INPUT, Ok(()), &vec![]));
    let replayed = index();
    let replayed = replay(&replayed, &p.index.input_sha256, "e1").unwrap();
    assert!(same(replayed, &result_json(&p.index.result)));
}

#[test]
fn attachments_read_back_with_their_digests() {
    let staged = begin("publish", INPUT, Ok(())).unwrap();
    let attachments = vec![Attachment {
        name: "a.txt".to_string(),
        bytes: b"abc".to_vec(),
    }];
    let p = publication(&staged, "e2", "/out/cadence/e2", "http://b", "now", &attachments);
    assert_eq!(
        p.index.attachments[0].sha256,
        "ba7816bf8f01cfea414140de5dae2223b00361a396177a9cb410ff61f20015ad"
    );
    let files = |names: &[&str], bytes: &[u8]| ItemFiles {
        post: Some(p.post_md.as_bytes().to_vec()),
        has_dir: true,
        listing: Some(names.iter().map(|n| n.to_string()).collect()),
        files: vec![("a.txt".to_string(), bytes.to_vec())],
    };
    let reads = |f: ItemFiles| {
        read_back("publish", INPUT, Ok(()), &vec![(index_json(&p.index), f)])
    };
    assert!(reads(files(&["a.txt"], b"abc")));
    assert!(!reads(files(&["a.txt"], b"abd")));
    assert!(!reads(files(&["a.txt", "b.txt"], b"abc")));
    assert!(!reads(files(&[], b"abc")));
}

#[test]
fn attachments_stay_in_the_worktree() {
    assert!(check_path("../x").is_err());
    assert!(check_path("").is_err());
    let rel = check_path("docs/a.md").unwrap();
    assert!(confine("/work/t1", &rel, "docs/a.md").is_ok());
    let other = check_path("/etc/passwd").unwrap();
    assert!(confine("/work/t1", &other, "/etc/passwd").is_err());
}

#[test]
fn a_preview_shows_the_post_or_why_it_fails() {
    let shown = preview("acme", "publish", &json(INPUT), Ok(()));
    assert!(shown.contains("# Hello\n\nWorld"), "{shown}");
    let failed = preview("acme", "delete", &json(INPUT), Ok(()));
    assert!(!failed.contains("# Hello"), "{failed}");
}

#[test]
fn the_outbox_lists_newest_first() {
    let item = |at: &str| json(&format!(r#"{{"published_at": "{at}"}}"#));
    let listed = list_items(vec![item("2026-01-01"), item("2026-03-01"), item("2026-02-01")]);
    let order: Vec<&str> = listed
        .iter()
        .map(|i| i.get_str("published_at").unwrap())
        .collect();
    assert_eq!(order, ["2026-03-01", "2026-02-01", "2026-01-01"]);
    let a = register("/state", Some(8787), Some("/data"), None);
    assert_eq!(a.outbox, default_outbox_dir(Some("/data"), None));
    assert!(a.board_url.ends_with(":8787"), "{}", a.board_url);
}

#[test]
fn a_second_run_replays_or_is_refused() {
    let none: Vec<(String, String)> = vec![];
    let first = begin("publish", INPUT, Ok(())).unwrap();
    assert!(earlier_run(&none, false, "cadence", &first.input_sha, "e1").unwrap().is_none());
    let attachments = vec![Attachment {
        name: "a \"b\".txt".to_string(),
        bytes: b"abc".to_vec(),
    }];
    let p = publication(&first, "e1", "/out/cadence/e1", "http://b", "now", &attachments);
    let landed = vec![("cadence".to_string(), print(&index_json(&p.index)))];
    let again = begin("publish", INPUT, Ok(())).unwrap();
    let found = earlier_run(&landed, true, &again.post.project, &again.input_sha, "e1").unwrap();
    assert!(same(&found.unwrap(), &result_json(&p.index.result)));
    let taken = "outbox item e1 exists under a different input — refusing";
    let other = r#"{"project": "cadence", "title": "Hello", "body": "Other\n"}"#;
    let other = begin("publish", other, Ok(())).unwrap();
    assert_eq!(
        earlier_run(&landed, true, "cadence", &other.input_sha, "e1").unwrap_err(),
        taken
    );
    // The effect id is spent for every project.
    let moved = r#"{"project": "elsewhere", "title": "Hello", "body": "World\n"}"#;
    let moved = begin("publish", moved, Ok(())).unwrap();
    assert_eq!(
        earlier_run(&landed, false, &moved.post.project, &moved.input_sha, "e1").unwrap_err(),
        taken
    );
    assert_eq!(
        earlier_run(&none, true, "cadence", &first.input_sha, "e1").unwrap_err(),
        "outbox item e1 exists without an index — refusing to overwrite"
    );
    let broken = vec![("cadence".to_string(), "{".to_string())];
    assert!(earlier_run(&broken, true, "cadence", &first.input_sha, "e1")
        .unwrap_err()
        .starts_with("the recorded outbox index does not parse: "));
    assert!(begin("remove", INPUT, Ok(())).is_err());
}
