use cadence::operator_auth::session::{Auth, Checked, LinkRefusal, Opened, Row};
use cadence::operator_auth::{
    check_modes, check_name, clean_user_agent, digest, dir, open_refusal, random_credential,
    read_secret, same_credential, secret_path, well_formed, BoardUser, Kind, Meta, Origin,
    ABSOLUTE_SECS, IDLE_SECS, LINK_TTL_SECS, PUBLIC_SESSION_SECS,
};

const T0: i64 = 1_800_000_000;

fn empty() -> Auth {
    Auth::load(Vec::new(), Vec::new())
}

fn mint(auth: Auth, origin: Origin, now: i64) -> (Auth, String) {
    let (auth, nonce) = auth.mint(origin, now);
    (auth, nonce.unwrap())
}

fn opened(auth: Auth, origin: Origin, now: i64) -> (Auth, Opened) {
    let (auth, nonce) = mint(auth, origin, now);
    let (auth, r) = auth.open(&nonce, origin, "ua", now);
    (auth, r.unwrap().unwrap())
}

fn refused(auth: Auth, nonce: &str, origin: Origin, now: i64) -> (Auth, Option<LinkRefusal>) {
    let (auth, r) = auth.open(nonce, origin, "ua", now);
    (auth, r.err())
}

fn checks(auth: Auth, token: &str, key: &str, origin: Origin, now: i64) -> (Auth, bool) {
    let (auth, c) = auth.check(token, key, origin, now);
    (auth, c.session.is_some())
}

fn public(auth: Auth, sub: &str, role: &str, jti: &str, exp: i64, now: i64) -> (Auth, Option<Opened>) {
    let (auth, r) = auth.open_public(user(sub, role), jti, exp, "ua", now);
    (auth, r.unwrap())
}

fn user(sub: &str, role: &str) -> BoardUser {
    BoardUser {
        sub: sub.to_string(),
        email: format!("{sub}@example.com"),
        name: format!("{sub} display"),
        role: role.to_string(),
        handle: sub.to_string(),
    }
}

#[test]
fn credentials_are_random_hex_and_compare_by_value() {
    let a = random_credential().unwrap();
    let b = random_credential().unwrap();
    assert!(well_formed(&a) && well_formed(&b));
    assert_ne!(a, b);
    assert!(same_credential(&a, &a.clone()));
    assert!(!same_credential(&a, &b));
    assert!(!well_formed(&a.to_uppercase()));
    assert!(!well_formed(&a[..63]));
    assert!(!well_formed(""));
}

fn meta(right_kind: bool, mode: u32) -> Meta {
    Meta { right_kind, uid: 1000, mode }
}

#[test]
fn a_loose_secret_is_refused_never_repaired() {
    for loose in [0o640, 0o604, 0o620, 0o602, 0o644, 0o660] {
        let err = check_modes(Kind::Secret, "/s/secret", meta(true, loose), 1000).unwrap_err();
        assert_eq!(err.code(), Some("operator_secret"), "{loose:o}");
        assert!(err.message().contains("chmod 600"), "{}", err.message());
    }
    for loose in [0o755, 0o750, 0o705, 0o770] {
        let err = check_modes(Kind::Dir, "/s", meta(true, loose), 1000).unwrap_err();
        assert!(err.message().contains("chmod 700"), "{}", err.message());
    }
    assert!(check_modes(Kind::Secret, "/s/secret", meta(true, 0o600), 1000).is_ok());
    assert!(check_modes(Kind::Dir, "/s", meta(true, 0o700), 1000).is_ok());
    assert!(check_modes(Kind::Secret, "/s/secret", meta(true, 0o600), 1001).is_err());
}

#[test]
fn a_symlinked_secret_or_directory_is_refused() {
    let err = open_refusal(Kind::Secret, "/s/secret", true, "loop");
    assert!(err.message().contains("symlink"), "{}", err.message());
    let err = check_modes(Kind::Dir, "/s", meta(false, 0o700), 1000).unwrap_err();
    assert!(err.message().contains("not a directory"), "{}", err.message());
}

#[test]
fn a_malformed_secret_is_refused() {
    let err = read_secret("/s/secret", "short\n").unwrap_err();
    assert!(err.message().contains("well-formed"), "{}", err.message());
    let good = "0".repeat(64);
    assert_eq!(read_secret("/s/secret", &format!("{good}\n")).unwrap(), good);
}

#[test]
fn the_files_have_their_places() {
    assert_eq!(dir("/state"), "/state/operator");
    assert_eq!(secret_path("/state"), "/state/operator/secret");
    assert!(check_name("sessions.json").is_ok());
    assert!(check_name("../x").is_err());
    assert_eq!(clean_user_agent("a\tb\u{e9}c"), "abc");
    assert_eq!(Origin::parse("tailnet"), Some(Origin::Tailnet));
    assert_eq!(Origin::parse("nowhere"), None);
    assert_eq!(Origin::Loopback.as_str(), "loopback");
}

#[test]
fn a_link_is_single_use() {
    let (auth, nonce) = mint(empty(), Origin::Loopback, T0);
    let (auth, r) = auth.open(&nonce, Origin::Loopback, "ua", T0);
    assert!(r.is_ok());
    let (_, again) = refused(auth, &nonce, Origin::Loopback, T0 + 1);
    assert_eq!(again, Some(LinkRefusal::AlreadyUsed));
}

#[test]
fn a_link_expires() {
    let (auth, late) = mint(empty(), Origin::Loopback, T0);
    let (auth, err) = refused(auth, &late, Origin::Loopback, T0 + LINK_TTL_SECS + 1);
    assert_eq!(err, Some(LinkRefusal::Expired));
    let (auth, on_time) = mint(auth, Origin::Loopback, T0);
    let (_, r) = auth.open(&on_time, Origin::Loopback, "ua", T0 + LINK_TTL_SECS);
    assert!(r.is_ok());
}

#[test]
fn a_link_is_bound_to_its_origin() {
    let (auth, nonce) = mint(empty(), Origin::Tailnet, T0);
    let (auth, err) = refused(auth, &nonce, Origin::Loopback, T0);
    assert_eq!(err, Some(LinkRefusal::WrongOrigin));
    let (auth, err) = refused(auth, &nonce, Origin::Tailnet, T0);
    assert_eq!(err, Some(LinkRefusal::AlreadyUsed));
    let (auth, nonce) = mint(auth, Origin::Loopback, T0);
    let (_, err) = refused(auth, &nonce, Origin::Tailnet, T0);
    assert_eq!(err, Some(LinkRefusal::WrongOrigin));
}

#[test]
fn bogus_exchanges_never_lock_out_a_live_link() {
    let (mut auth, live) = mint(empty(), Origin::Loopback, T0);
    for _ in 0..1000 {
        let bogus = random_credential().unwrap();
        let (a, err) = refused(auth, &bogus, Origin::Loopback, T0);
        assert_eq!(err, Some(LinkRefusal::Unknown));
        auth = a;
    }
    let (_, r) = auth.open(&live, Origin::Loopback, "ua", T0);
    assert!(r.is_ok());
}

#[test]
fn every_refusal_of_a_link_says_why() {
    let (auth, err) = refused(empty(), "not a nonce", Origin::Loopback, T0);
    assert_eq!(err, Some(LinkRefusal::Malformed));
    let (_, err) = refused(auth, &"0".repeat(64), Origin::Loopback, T0);
    assert_eq!(err, Some(LinkRefusal::Unknown));
    assert_eq!(LinkRefusal::Malformed.as_str(), "malformed");
    assert_eq!(LinkRefusal::WrongOrigin.as_str(), "wrong_origin");
    assert_eq!(LinkRefusal::Expired.explain(), "this login link expired — run `cadence ui login` again");
}

#[test]
fn a_session_needs_its_token_and_its_key() {
    let (auth, a) = opened(empty(), Origin::Loopback, T0);
    let (auth, b) = opened(auth, Origin::Loopback, T0);
    let none = "0".repeat(64);
    let (auth, ok) = checks(auth, &a.token, &a.key, Origin::Loopback, T0);
    assert!(ok);
    let mut auth = auth;
    for (token, key) in [
        (a.token.as_str(), ""),
        (a.token.as_str(), none.as_str()),
        (a.token.as_str(), b.key.as_str()),
        (a.key.as_str(), a.key.as_str()),
        ("", a.key.as_str()),
    ] {
        let (next, ok) = checks(auth, token, key, Origin::Loopback, T0);
        assert!(!ok);
        auth = next;
    }
    // only digests are kept, of both
    assert_eq!(auth.sessions[0].hash, digest(&a.token));
    assert_eq!(auth.sessions[0].key_hash, digest(&a.key));
}

#[test]
fn sessions_check_origin_idle_and_absolute_expiry() {
    let (auth, o) = opened(empty(), Origin::Loopback, T0);
    let (auth, ok) = checks(auth, &o.token, &o.key, Origin::Loopback, T0);
    assert!(ok);
    let (auth, ok) = checks(auth, &o.token, &o.key, Origin::Tailnet, T0);
    assert!(!ok);
    let (auth, ok) = checks(auth, &o.token, &o.key, Origin::Loopback, T0 + IDLE_SECS);
    assert!(!ok);
    let (mut auth, o) = opened(auth, Origin::Loopback, T0);
    let mut now = T0;
    while now + 3600 < T0 + ABSOLUTE_SECS {
        now += 3600;
        let (next, ok) = checks(auth, &o.token, &o.key, Origin::Loopback, now);
        assert!(ok);
        auth = next;
    }
    let (_, ok) = checks(auth, &o.token, &o.key, Origin::Loopback, T0 + ABSOLUTE_SECS);
    assert!(!ok);
}

#[test]
fn sessions_persist_as_hashes_only() {
    let (auth, o) = opened(empty(), Origin::Loopback, T0);
    let saved: Vec<Row> = auth.sessions.clone();
    assert_ne!(saved[0].hash, o.token);
    assert_eq!(saved[0].hash, digest(&o.token));
    let reloaded = Auth::load(saved, Vec::new());
    let (_, c) = reloaded.check(&o.token, &o.key, Origin::Loopback, T0 + 1);
    assert_eq!(c.session.map(|v| v.id), Some(o.session.id));
}

#[test]
fn a_broken_saved_session_is_dropped() {
    let (auth, _) = opened(empty(), Origin::Loopback, T0);
    let mut saved: Vec<Row> = auth.sessions.clone();
    saved[0].hash = "broken".to_string();
    assert!(Auth::load(saved, Vec::new()).sessions.is_empty());
}

#[test]
fn revocation_invalidates_the_right_set() {
    let (auth, a) = opened(empty(), Origin::Loopback, T0);
    let (auth, b) = opened(auth, Origin::Loopback, T0);
    let (auth, c) = opened(auth, Origin::Tailnet, T0);
    let (auth, gone) = auth.revoke_token(&a.token);
    assert!(gone);
    let (auth, ok) = checks(auth, &a.token, &a.key, Origin::Loopback, T0);
    assert!(!ok);
    let (auth, ok) = checks(auth, &b.token, &b.key, Origin::Loopback, T0);
    assert!(ok);
    let (auth, n) = auth.revoke_id(&b.session.id);
    assert_eq!(n, 1);
    let (auth, ok) = checks(auth, &b.token, &b.key, Origin::Loopback, T0);
    assert!(!ok);
    let (auth, ok) = checks(auth, &c.token, &c.key, Origin::Tailnet, T0);
    assert!(ok);
    let (auth, pending) = mint(auth, Origin::Loopback, T0);
    let (auth, n) = auth.revoke_all();
    assert_eq!(n, 1);
    let (auth, ok) = checks(auth, &c.token, &c.key, Origin::Tailnet, T0);
    assert!(!ok);
    let (_, err) = refused(auth, &pending, Origin::Loopback, T0);
    assert_eq!(err, Some(LinkRefusal::AlreadyUsed));
}

#[test]
fn public_sessions_are_cookie_only_and_named() {
    let (auth, o) = public(empty(), "u_1", "operator", "jti-1", T0 + 60, T0);
    let o = o.unwrap();
    assert_eq!(o.session.origin, Origin::Public);
    assert_eq!(o.key, "");
    assert_eq!(o.session.expires_at, T0 + PUBLIC_SESSION_SECS);
    let u = o.session.user.unwrap();
    assert_eq!(u.sub, "u_1");
    assert!(u.is_operator());
    let (auth, c) = auth.check_public(&o.token, T0);
    let live = c.session.unwrap();
    assert_eq!(live.id, o.session.id);
    assert_eq!(live.user.unwrap().email, "u_1@example.com");
    let (mut auth, c) = auth.check_public(&"0".repeat(64), T0);
    assert!(c.session.is_none());
    let key = "f".repeat(64);
    for origin in [Origin::Loopback, Origin::Tailnet, Origin::Public] {
        let (next, ok) = checks(auth, &o.token, &key, origin, T0);
        assert!(!ok);
        let (next, ok) = checks(next, &o.token, "", origin, T0);
        assert!(!ok);
        auth = next;
    }
    let (auth, err) = refused(auth, &o.token, Origin::Loopback, T0);
    assert_eq!(err, Some(LinkRefusal::Unknown));
    let (_, r) = auth.mint(Origin::Public, T0);
    assert_eq!(r.unwrap_err().code(), Some("invalid_request"));
}

#[test]
fn a_spent_jti_stays_spent_across_a_reload() {
    let (auth, o) = public(empty(), "u_1", "member", "jti-9", T0 + 60, T0);
    assert!(o.is_some());
    let (auth, o) = public(auth, "u_1", "member", "jti-9", T0 + 60, T0);
    assert!(o.is_none());
    let kept: Vec<(String, i64)> =
        auth.jtis.rows.iter().map(|e| (e.key.clone(), e.until)).collect();
    assert_eq!(kept, vec![(digest("jti-9"), T0 + 60)]);
    let reloaded = Auth::load(auth.sessions, kept);
    let (reloaded, o) = public(reloaded, "u_1", "member", "jti-9", T0 + 60, T0 + 1);
    assert!(o.is_none());
    let (_, o) = public(reloaded, "u_1", "member", "jti-9", T0 + 60, T0 + 61);
    assert!(o.is_some());
}

fn is_public(auth: Auth, token: &str, now: i64) -> (Auth, bool) {
    let (auth, c): (Auth, Checked) = auth.check_public(token, now);
    (auth, c.session.is_some())
}

#[test]
fn public_sessions_replace_per_sub_and_die_at_sixty_minutes() {
    let (auth, a) = public(empty(), "u_1", "member", "jti-a", T0 + 60, T0);
    let a = a.unwrap();
    let (auth, b) = public(auth, "u_2", "operator", "jti-b", T0 + 60, T0);
    let b = b.unwrap();
    let (auth, a2) = public(auth, "u_1", "member", "jti-a2", T0 + 60, T0 + 5);
    let a2 = a2.unwrap();
    let (auth, ok) = is_public(auth, &a.token, T0 + 5);
    assert!(!ok);
    let (auth, ok) = is_public(auth, &a2.token, T0 + 5);
    assert!(ok);
    let (auth, ok) = is_public(auth, &b.token, T0 + 5);
    assert!(ok);
    let (auth, op) = opened(auth, Origin::Loopback, T0 + 6);
    let (auth, a3) = public(auth, "u_1", "member", "jti-a3", T0 + 60, T0 + 7);
    let a3 = a3.unwrap();
    let (auth, ok) = is_public(auth, &a2.token, T0 + 7);
    assert!(!ok);
    let (auth, ok) = is_public(auth, &a3.token, T0 + 7);
    assert!(ok);
    let (auth, ok) = checks(auth, &op.token, &op.key, Origin::Loopback, T0 + 7);
    assert!(ok);
    let edge = T0 + PUBLIC_SESSION_SECS;
    let (auth, ok) = is_public(auth, &b.token, edge - 1);
    assert!(ok);
    let (_, ok) = is_public(auth, &b.token, edge);
    assert!(!ok);
}

#[test]
fn a_use_is_written_once_a_minute() {
    let (auth, o) = opened(empty(), Origin::Loopback, T0);
    let (auth, c) = auth.check(&o.token, &o.key, Origin::Loopback, T0 + 59);
    assert!(!c.save);
    let (auth, c) = auth.check(&o.token, &o.key, Origin::Loopback, T0 + 60);
    assert!(c.save);
    assert_eq!(c.session.unwrap().last_used, T0 + 60);
    let (_, shown, changed) = auth.list(T0 + 61);
    assert_eq!(shown.len(), 1);
    assert_eq!(shown[0].id, o.session.id);
    assert_eq!(shown[0].idle_expires_at, T0 + 60 + IDLE_SECS);
    assert!(!changed);
}

#[test]
fn a_board_user_actor_is_trailer_safe() {
    let mut u = user("u_1", "member");
    assert_eq!(u.actor(), "u_1 display <u_1@example.com> (board)");
    u.name = "F<b>le\nChen".into();
    u.email = "f\t@x.co>".into();
    assert_eq!(u.actor(), "FbleChen <f@x.co> (board)");
    u.name = "  ".into();
    u.email = "".into();
    assert_eq!(u.actor(), "u_1 (board)");
}
