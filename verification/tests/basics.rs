use cadence::dict;
use cadence::hash::{hex_of, sha256_hex_of, sha256_text};
use cadence::json::{parse, print, same, Json};
use cadence::overview::agents::{
    begin_probe, call_bound, probe_agent, ProbeTarget, Request, Show,
};
use cadence::overview::github::{
    cache_answer, cached_only, cached_state, empty_state, is_plain_ref, load_cache, read_cache,
    refresh_github, stale_github, CacheAnswer, GhCache,
};
use cadence::overview::needs::{group_members, MemberRow};
use cadence::overview::parts::gh_state_json;
use cadence::paths::{is_under, join_of, parts_of, stem_of};
use cadence::text::{dec_int_of, join_of as join_names, lines_of, split_of, trim_of, words_of};
use cadence::time::{parse_integer, parse_iso};

fn json(text: &str) -> Json {
    parse(text).unwrap()
}

#[test]
fn digests_are_sha256() {
    let abc = "ba7816bf8f01cfea414140de5dae2223b00361a396177a9cb410ff61f20015ad";
    assert_eq!(sha256_hex_of(b"abc"), abc);
    assert_eq!(sha256_text("abc"), abc);
    assert_eq!(hex_of(&[0, 15, 16, 255]), "000f10ff");
}

#[test]
fn json_is_read_and_printed() {
    let text = r#"{"a":[1,-2.5,true,null],"b":"q\"\n"}"#;
    let j = json(text);
    assert_eq!(print(&j), text);
    assert!(same(&j, &json(text)));
    assert!(!same(&j, &json("{}")));
    assert!(parse("{").is_err());
    assert_eq!(j.get_str("b"), Some("q\"\n"));
    assert!(j.get("c").is_none());
    assert_eq!(json("18446744073709551615").as_u64(), Some(u64::MAX));
    assert_eq!(json("-7").as_i64(), Some(-7));
    assert_eq!(json("1.0").as_i64(), None);
}

#[test]
fn entries_keep_their_order() {
    let mut d: Vec<(String, u64)> = vec![];
    for (k, v) in [("b", 2), ("a", 1), ("b", 3)] {
        dict::insert(&mut d, k.to_string(), v);
    }
    assert_eq!(d, vec![("a".to_string(), 1), ("b".to_string(), 3)]);
    assert_eq!(dict::find(&d, "b"), Some(&3));
    assert_eq!(dict::find(&d, "c"), None);
}

#[test]
fn texts_are_cut_as_std_cuts_them() {
    let text = " a\u{a0}b \t\r\nc\r\n";
    assert_eq!(trim_of(text), text.trim());
    assert_eq!(words_of(text), text.split_whitespace().collect::<Vec<_>>());
    assert_eq!(lines_of(text), text.lines().collect::<Vec<_>>());
    assert_eq!(split_of("a,,b", ','), ["a", "", "b"]);
    assert_eq!(
        join_names(&vec!["a".to_string(), "b".to_string()], ", "),
        "a, b"
    );
    assert_eq!(dec_int_of(i64::MIN), i64::MIN.to_string());
}

#[test]
fn times_and_numbers() {
    assert_eq!(parse_iso("1969-12-31T23:59:59Z"), Some(-1));
    assert_eq!(parse_iso("2024-02-29T12:00:00Z"), Some(1_709_208_000));
    assert_eq!(parse_integer("-42"), Some(-42));
    assert_eq!(parse_integer("9223372036854775808"), None);
}

#[test]
fn paths_are_compared_by_parts() {
    assert_eq!(join_of("/a", "b"), "/a/b");
    assert_eq!(parts_of("/a//b/./c"), ["a", "b", "c"]);
    assert!(is_under(&parts_of("/a/b/c"), &parts_of("/a/b")));
    assert!(!is_under(&parts_of("/a/bc"), &parts_of("/a/b")));
    assert_eq!(stem_of("/x/card.md"), "card");
}

fn slugs(v: &[&str]) -> Vec<String> {
    v.iter().map(|s| s.to_string()).collect()
}

fn cached(at: i64) -> Option<GhCache> {
    Some(GhCache {
        at,
        slugs: slugs(&["acme/widgets"]),
        repos: vec![("acme/widgets".to_string(), json(r#"{"prs": [{"number": 1}]}"#))],
    })
}

#[test]
fn slow_gh_serves_stale_cache_within_the_wait() {
    let want = slugs(&["acme/widgets"]);
    let old = cached(400);
    assert!(matches!(cache_answer(&old, &want, 1000), CacheAnswer::Fetch));
    let (got, state) = stale_github(&old, &want, Some("refresh still running".to_string()));
    assert_eq!(state.state, "stale");
    assert_eq!(state.as_of, Some(400));
    assert!(state.error.unwrap().contains("still running"));
    assert_eq!(got[0].0, "acme/widgets");
    // The refresh lands; the next request is a cache hit.
    let fresh = json(r#"{"prs": [{"number": 2}]}"#);
    let (got, state, keep) = refresh_github(&want, vec![Ok(fresh)], &old, 1000);
    assert_eq!((state.state, state.as_of, keep), ("ok", Some(1000), true));
    let next = Some(GhCache {
        at: 1000,
        slugs: want.clone(),
        repos: got,
    });
    assert!(matches!(cache_answer(&next, &want, 1059), CacheAnswer::Cached));
    assert!(matches!(cache_answer(&next, &want, 1060), CacheAnswer::Fetch));
    assert!(matches!(
        cache_answer(&next, &slugs(&["acme/other"]), 1001),
        CacheAnswer::Fetch
    ));
}

#[test]
fn slow_gh_without_cache_is_unavailable_not_blocking() {
    let want = slugs(&["acme/gadgets"]);
    let (got, state) = stale_github(&None, &want, Some("gh".to_string()));
    assert!(got.is_empty());
    assert_eq!(state.state, "unavailable");
    assert!(state.as_of.is_none());
    // A cache of other repos is no answer either.
    let (got, state) = stale_github(&cached(5), &want, None);
    assert!(got.is_empty() && state.state == "unavailable");
}

#[test]
fn a_failed_repo_keeps_its_last_rows() {
    let want = slugs(&["acme/widgets", "acme/new"]);
    let old = cached(400);
    let (got, state, keep) = refresh_github(
        &want,
        vec![Err("boom".to_string()), Ok(json("{}"))],
        &old,
        1000,
    );
    assert_eq!(got.len(), 2);
    assert_eq!(state.state, "ok");
    assert_eq!(state.error.as_deref(), Some("boom"));
    assert!(keep);
    let (_, state, keep) = refresh_github(
        &want,
        vec![Err("boom".to_string()), Err("bust".to_string())],
        &old,
        1000,
    );
    assert_eq!(state.state, "stale");
    assert!(!keep);
    let body = json(r#"{"at": 9, "slugs": ["a/b"], "repos": {"a/b": {}}}"#);
    assert_eq!(read_cache(&body).unwrap().at, 9);
    assert!(read_cache(&json("[]")).is_none());
    assert!(is_plain_ref("main") && !is_plain_ref("a b"));
}

#[test]
fn wedged_agent_probes_degrade_within_the_bound() {
    let t = ProbeTarget {
        alias: "w1".to_string(),
        mailbox: false,
        listed_queue: false,
        pane: false,
    };
    let late = "no answer within 300ms";
    let p = probe_agent(&t, Err(late.to_string()), Err(late.to_string()), Ok(true));
    assert!(p
        .degraded
        .iter()
        .any(|d| d.source == "agent_show" && d.subject == "w1"));
    assert!(p.degraded[0].detail.contains("no answer within"));
    // Past the budget no probe begins.
    assert!(begin_probe(&t, true).is_some());
    assert!(begin_probe(&t, false).is_none());
    assert_eq!(call_bound(5000, 300), Some(300));
    assert_eq!(call_bound(100, 300), Some(100));
    assert_eq!(call_bound(0, 300), None);
    let quiet: Vec<Request> = vec![];
    let show = Show {
        queued: None,
        messages: None,
    };
    assert!(probe_agent(&t, Ok(show), Ok(quiet), Ok(true)).degraded.is_empty());
}

#[test]
fn a_group_is_its_root_and_what_reports_to_it() {
    let row = |alias: &str, upstream: Option<&str>| MemberRow {
        alias: alias.to_string(),
        upstream: upstream.map(|s| s.to_string()),
    };
    let agents = vec![row("pm", None), row("w1", Some("pm")), row("w2", None)];
    assert_eq!(
        group_members(true, &agents, "pm").unwrap(),
        ["pm", "w1"]
    );
    assert!(group_members(true, &agents, "nobody").is_err());
    assert!(group_members(false, &vec![], "pm").is_err());
}

#[test]
fn a_cache_is_read_from_its_text() {
    let c = load_cache(r#"{"at": 7, "slugs": ["o/r"], "repos": {}}"#).unwrap();
    assert_eq!((c.at, c.slugs), (7, vec!["o/r".to_string()]));
    assert!(load_cache("{").is_none());
    assert!(load_cache(r#"{"slugs": []}"#).is_none());
}

#[test]
fn a_text_is_quoted_as_json_has_it() {
    let printed = print(&Json::Str("\"\\/\u{8}\t\n\u{b}\u{c}\r\u{0}\u{1f} \u{7f}é".to_string()));
    assert_eq!(
        printed,
        "\"\\\"\\\\/\\b\\t\\n\\u000b\\f\\r\\u0000\\u001f \u{7f}é\""
    );
    let back = parse(&printed).unwrap();
    assert_eq!(print(&back), printed);
}

#[test]
fn nesting_is_bounded() {
    let nested = |n: usize| format!("{}{}", "[".repeat(n), "]".repeat(n));
    assert_eq!(print(&json(&nested(127))), nested(127));
    assert!(parse(&nested(128)).is_err());
}

#[test]
fn the_cache_alone_answers_for_its_repos() {
    let want = slugs(&["acme/widgets"]);
    let (got, state) = cached_only(cached(400), &want);
    assert_eq!(got[0].0, "acme/widgets");
    assert_eq!(print(&gh_state_json(&state)), r#"{"as_of":400,"at":400,"state":"cached"}"#);
    let (got, state) = cached_only(cached(400), &slugs(&["acme/gadgets"]));
    assert!(got.is_empty());
    assert_eq!(print(&gh_state_json(&state)), r#"{"state":"unavailable"}"#);
    assert_eq!(cached_only(None, &want).1.state, "unavailable");
    assert_eq!(print(&gh_state_json(&cached_state(&cached(7).unwrap()))), r#"{"as_of":7,"at":7,"state":"cached"}"#);
    assert_eq!(print(&gh_state_json(&empty_state(9))), r#"{"as_of":9,"state":"ok"}"#);
    let (_, state) = stale_github(&None, &want, Some("gh".to_string()));
    assert_eq!(
        print(&gh_state_json(&state)),
        r#"{"as_of":null,"error":"gh","state":"unavailable"}"#
    );
    let (_, state, _) = refresh_github(&want, vec![Ok(json("{}"))], &None, 3);
    assert_eq!(print(&gh_state_json(&state)), r#"{"as_of":3,"error":null,"state":"ok"}"#);
}
