//! Who gets into the board, told by files, credentials and clocks.
use crate::operator_auth;
use crate::operator_auth::session;
use crate::operator_auth::session::{AuthView, LinkRefusal, RowView};
use crate::operator_auth::{Kind, Meta, Origin, UserView};
use crate::text;
use vstd::prelude::*;

verus! {

/// A file may be trusted exactly where it is of its kind, this user's own, and
/// closed to everybody else: the last six bits of its mode are off.
pub proof fn what_file_is_private(kind: Kind, path: Seq<char>, m: Meta, euid: u32)
    ensures
        operator_auth::mode_fault(kind, path, m, euid) is None <==> m.right_kind && m.uid == euid
            && m.mode % 8 == 0 && m.mode / 8 % 8 == 0,
{
    assert((m.mode % 64 == 0) == (m.mode % 8 == 0 && m.mode / 8 % 8 == 0));
}

/// A credential is 64 small hex digits.
pub proof fn what_is_a_credential(s: Seq<char>)
    ensures
        operator_auth::credential(s) <==> s.len() == 64 && forall|i: int|
            0 <= i < s.len() ==> ('0' <= #[trigger] s[i] <= '9' || 'a' <= s[i] <= 'f'),
{
    if forall|i: int|
        0 <= i < s.len() ==> ('0' <= #[trigger] s[i] <= '9' || 'a' <= s[i] <= 'f') {
        assert forall|i: int| 0 <= i < s.len() implies crate::hash::lower_hex(#[trigger] s[i]) by {}
    }
    if operator_auth::credential(s) {
        assert forall|i: int| 0 <= i < s.len() implies ('0' <= #[trigger] s[i] <= '9' || 'a' <= s[i]
            <= 'f') by {
            assert(crate::hash::lower_hex(s[i]));
        }
    }
}

/// A login link is taken exactly where it is a credential that was minted
/// here for that address, is not spent, and is in time; each other case has
/// its own refusal, the spent ones first.
pub proof fn what_link_is_taken(a: AuthView, nonce: Seq<char>, origin: Origin, now: i64)
    ensures
        ({
            let h = operator_auth::digest_of(nonce);
            let r = session::exchange(a, nonce, origin, now);
            let good = operator_auth::credential(nonce);
            let used = a.spent.dom().contains(h);
            let known = a.links.dom().contains(h);
            &&& r is Ok <==> good && !used && known && now <= a.links[h].1 && a.links[h].0 == origin
            &&& r == Err::<(), LinkRefusal>(LinkRefusal::Malformed) <==> !good
            &&& r == Err::<(), LinkRefusal>(LinkRefusal::AlreadyUsed) <==> good && used
            &&& r == Err::<(), LinkRefusal>(LinkRefusal::Unknown) <==> good && !used && !known
            &&& r == Err::<(), LinkRefusal>(LinkRefusal::Expired) <==> good && !used && known && now
                > a.links[h].1
        }),
{
}

/// A link that was tried is spent and no longer open; no other link and no
/// session changes.
pub proof fn a_tried_link_is_spent(a: AuthView, nonce: Seq<char>, other: Seq<char>)
    requires
        operator_auth::credential(nonce),
        a.links.dom().contains(operator_auth::digest_of(nonce)),
        !a.spent.dom().contains(operator_auth::digest_of(nonce)),
    ensures
        ({
            let n = session::exchanged(a, nonce);
            let h = operator_auth::digest_of(nonce);
            &&& n.spent.dom().contains(h) && !n.links.dom().contains(h)
            &&& n.sessions == a.sessions && n.jtis == a.jtis
            &&& other != h ==> (n.links.dom().contains(other) <==> a.links.dom().contains(other))
                && (n.spent.dom().contains(other) <==> a.spent.dom().contains(other))
            &&& other != h && a.links.dom().contains(other) ==> n.links[other] == a.links[other]
        }),
{
}

/// A session lasts an hour where it is public, else a week; it is found by
/// the digests of its token and key, and begins as used.
pub proof fn what_a_session_begins_with(
    token: Seq<char>,
    key_hash: Seq<char>,
    origin: Origin,
    user_agent: Seq<char>,
    user: Option<UserView>,
    now: i64,
)
    requires
        now + 604800 <= i64::MAX,
    ensures
        ({
            let r = session::new_row(token, key_hash, origin, user_agent, user, now);
            &&& r.hash == operator_auth::digest_of(token) && r.key_hash == key_hash
            &&& r.origin == origin && r.user == user
            &&& r.created == now && r.last_used == now
            &&& r.expires_at == now + (if origin is Public {
                3600int
            } else {
                604800
            })
        }),
{
}

/// A session is live before its end and within its idle time of its last use.
pub proof fn when_a_session_is_live(r: RowView, now: i64)
    ensures
        r.live(now) <==> now < r.expires_at && now < r.last_used + 86400,
{
}

/// A use is noted once a minute, and changes nothing else.
pub proof fn a_use_is_noted(r: RowView, now: i64)
    ensures
        now - r.last_used >= 60 ==> session::touched(r, now) == (RowView { last_used: now, ..r }),
        now - r.last_used < 60 ==> session::touched(r, now) == r,
{
}

/// A keyed session answers to its own token and key, at its own address.
pub proof fn a_session_answers_to_its_key(
    token: Seq<char>,
    key: Seq<char>,
    origin: Origin,
    user_agent: Seq<char>,
    now: i64,
    place: Origin,
)
    ensures
        ({
            let r = session::new_row(
                token,
                operator_auth::digest_of(key),
                origin,
                user_agent,
                None,
                now,
            );
            &&& session::keyed(r, token, key, place) <==> place == origin
            &&& session::public(r, token) <==> origin is Public
        }),
{
}

/// A session with another token, or another key, is another session, so far
/// as the digests tell them apart.
pub proof fn another_key_is_refused(
    r: RowView,
    token: Seq<char>,
    key: Seq<char>,
    origin: Origin,
)
    requires
        session::keyed(r, token, key, origin),
    ensures
        operator_auth::twins(r.hash, operator_auth::digest_of(token)),
        operator_auth::twins(r.key_hash, operator_auth::digest_of(key)),
        r.origin == origin,
{
}

proof fn first_of(v: Seq<RowView>, f: spec_fn(RowView) -> bool, i: int)
    requires
        0 <= i < v.len(),
        f(v[i]),
        forall|j: int| 0 <= j < i ==> !f(#[trigger] v[j]),
    ensures
        session::first_row(v, f) == Some(i),
    decreases i,
{
    if i > 0 {
        let w = v.drop_first();
        assert(!f(v[0]));
        assert(w[i - 1] == v[i]);
        assert forall|j: int| 0 <= j < i - 1 implies !f(#[trigger] w[j]) by {
            assert(w[j] == v[j + 1]);
        }
        first_of(w, f, i - 1);
    }
}

/// The first session that answers is the one found; its use is noted, and no
/// other session changes.
pub proof fn the_first_that_answers_is_found(
    a: AuthView,
    f: spec_fn(RowView) -> bool,
    now: i64,
    i: int,
)
    requires
        0 <= i < a.sessions.len(),
        f(a.sessions[i]),
        forall|j: int| 0 <= j < i ==> !f(#[trigger] a.sessions[j]),
    ensures
        ({
            let (n, r) = session::found(a, f, now);
            &&& r is Some && r->0.hash == a.sessions[i].hash && r->0.user == a.sessions[i].user
            &&& n.sessions.len() == a.sessions.len() && n.sessions[i] == r->0
            &&& forall|j: int|
                0 <= j < a.sessions.len() && j != i ==> #[trigger] n.sessions[j] == a.sessions[j]
            &&& n.links == a.links && n.spent == a.spent && n.jtis == a.jtis
        }),
{
    first_of(a.sessions, f, i);
}

/// What time has ended goes: sessions that are not live, links and spent
/// links a lifetime after their end, sign-ins after theirs; nothing else.
pub proof fn what_time_ends(a: AuthView, now: i64, r: RowView, h: Seq<char>)
    ensures
        ({
            let n = session::pruned(a, now);
            &&& n.sessions.contains(r) <==> a.sessions.contains(r) && now < r.expires_at && now
                < r.last_used + 86400
            &&& n.links.dom().contains(h) <==> a.links.dom().contains(h) && now <= a.links[h].1
                + 120
            &&& n.spent.dom().contains(h) <==> a.spent.dom().contains(h) && now <= a.spent[h].1
                + 120
            &&& n.jtis.dom().contains(h) <==> a.jtis.dom().contains(h) && now <= a.jtis[h].1
            &&& n.links.dom().contains(h) ==> n.links[h] == a.links[h]
        }),
{
    let p = session::lives(now);
    let v = a.sessions.filter(p);
    if v.contains(r) {
        a.sessions.lemma_filter_contains_rev(p, r);
        let k = choose|k: int| 0 <= k < v.len() && #[trigger] v[k] == r;
        a.sessions.lemma_filter_pred(p, k);
    }
    if a.sessions.contains(r) && p(r) {
        let k = choose|k: int| 0 <= k < a.sessions.len() && #[trigger] a.sessions[k] == r;
        a.sessions.lemma_filter_contains(p, k);
    }
}

/// A public sign-in replaces the user's own earlier public sessions and
/// leaves every other one; its identifier is remembered.
pub proof fn a_sign_in_replaces_its_own(
    a: AuthView,
    user: UserView,
    jti: Seq<char>,
    exp: i64,
    user_agent: Seq<char>,
    token: Seq<char>,
    now: i64,
    r: RowView,
)
    ensures
        ({
            let n = session::admitted(a, user, jti, exp, user_agent, token, now);
            let last = n.sessions[n.sessions.len() - 1];
            &&& n.sessions.len() >= 1 && last.hash == operator_auth::digest_of(token)
                && last.origin is Public && last.user == Some(user)
            &&& n.sessions.drop_last().contains(r) <==> a.sessions.contains(r) && !(r.origin
                is Public && r.user is Some && r.user->0.sub == user.sub)
            &&& n.jtis.dom().contains(operator_auth::digest_of(jti)) && n.jtis[operator_auth::digest_of(
                jti,
            )].1 == exp
            &&& n.links == a.links && n.spent == a.spent
        }),
{
    let p = session::other_sub(user.sub);
    let v = a.sessions.filter(p);
    let n = session::admitted(a, user, jti, exp, user_agent, token, now);
    assert(n.sessions.drop_last() =~= v);
    if v.contains(r) {
        a.sessions.lemma_filter_contains_rev(p, r);
        let k = choose|k: int| 0 <= k < v.len() && #[trigger] v[k] == r;
        a.sessions.lemma_filter_pred(p, k);
    }
    if a.sessions.contains(r) && p(r) {
        let k = choose|k: int| 0 <= k < a.sessions.len() && #[trigger] a.sessions[k] == r;
        a.sessions.lemma_filter_contains(p, k);
    }
}

/// Whoever wrote on the board is named by name and address, as far as they
/// can be printed, else by handle.
pub proof fn how_a_writer_is_named(u: UserView)
    ensures
        ({
            let name = operator_auth::cleaned(u.name);
            let email = operator_auth::cleaned(u.email);
            &&& name.len() == 0 ==> operator_auth::actor_text(u) == u.handle + " (board)"@
            &&& name.len() > 0 && email.len() == 0 ==> operator_auth::actor_text(u) == name
                + " (board)"@
            &&& name.len() > 0 && email.len() > 0 ==> operator_auth::actor_text(u) == name + " <"@
                + email + "> (board)"@
        }),
{
}

/// What is printed of a name holds no control character and no bracket, and is
/// at most 120 characters; a name that is short and clean is printed whole.
pub proof fn a_name_is_printed_clean(s: Seq<char>)
    ensures
        operator_auth::cleaned(s).len() <= 120,
        s.len() <= 120 && (forall|i: int|
            0 <= i < s.len() ==> ' ' <= #[trigger] s[i] <= '~' && s[i] != '<' && s[i] != '>')
            ==> operator_auth::cleaned(s) == text::trim(s),
        forall|i: int|
            0 <= i < operator_auth::cleaned(s).len() ==> ' ' <= (
            #[trigger] operator_auth::cleaned(s)[i]) <= '~' && operator_auth::cleaned(s)[i] != '<'
                && operator_auth::cleaned(s)[i] != '>',
{
    let p = operator_auth::trailer_char();
    let k = s.filter(p);
    let f = operator_auth::first_kept(s, p, 120);
    assert forall|i: int| 0 <= i < f.len() implies p(#[trigger] f[i]) by {
        s.lemma_filter_pred(p, i);
        assert(f[i] == k[i]);
    }
    trim_is_part(f);
    if s.len() <= 120 && (forall|i: int|
        0 <= i < s.len() ==> ' ' <= #[trigger] s[i] <= '~' && s[i] != '<' && s[i] != '>') {
        assert forall|i: int| 0 <= i < s.len() implies p(#[trigger] s[i]) by {
            printable_is_ascii(s[i]);
        }
        all_kept(s, p);
    }
    let c = operator_auth::cleaned(s);
    assert forall|i: int| 0 <= i < c.len() implies ' ' <= (#[trigger] c[i]) <= '~' && c[i] != '<'
        && c[i] != '>' by {
        assert(f.contains(c[i]));
        let j = choose|j: int| 0 <= j < f.len() && f[j] == c[i];
        assert(p(f[j]));
        assert(operator_auth::printable(c[i]));
        printable_is_ascii(c[i]);
    }
}

proof fn printable_is_ascii(c: char)
    ensures
        operator_auth::printable(c) <==> ' ' <= c <= '~',
{
}

proof fn all_kept(s: Seq<char>, p: spec_fn(char) -> bool)
    requires
        forall|i: int| 0 <= i < s.len() ==> p(#[trigger] s[i]),
    ensures
        s.filter(p) == s,
    decreases s.len(),
{
    reveal(Seq::filter);
    if s.len() > 0 {
        all_kept(s.drop_last(), p);
        assert(p(s[s.len() - 1]));
        assert(s.drop_last().push(s.last()) =~= s);
    } else {
        assert(s.filter(p) =~= s);
    }
}

proof fn trim_is_part(s: Seq<char>)
    ensures
        text::trim(s).len() <= s.len(),
        forall|i: int| 0 <= i < text::trim(s).len() ==> s.contains(#[trigger] text::trim(s)[i]),
{
    start_is_part(s);
    let t = text::trim_start(s);
    end_is_part(t);
    let u = text::trim(s);
    assert forall|i: int| 0 <= i < u.len() implies s.contains(#[trigger] u[i]) by {
        assert(t.contains(u[i]));
        let j = choose|j: int| 0 <= j < t.len() && t[j] == u[i];
        assert(s.contains(t[j]));
    }
}

proof fn start_is_part(s: Seq<char>)
    ensures
        text::trim_start(s).len() <= s.len(),
        forall|i: int|
            0 <= i < text::trim_start(s).len() ==> s.contains(#[trigger] text::trim_start(s)[i]),
    decreases s.len(),
{
    if s.len() > 0 && text::white(s[0]) {
        let w = s.drop_first();
        start_is_part(w);
        let t = text::trim_start(s);
        assert forall|i: int| 0 <= i < t.len() implies s.contains(#[trigger] t[i]) by {
            assert(w.contains(text::trim_start(w)[i]));
            let j = choose|j: int| 0 <= j < w.len() && w[j] == t[i];
            assert(s[j + 1] == t[i]);
        }
    }
}

proof fn end_is_part(s: Seq<char>)
    ensures
        text::trim_end(s).len() <= s.len(),
        forall|i: int|
            0 <= i < text::trim_end(s).len() ==> s.contains(#[trigger] text::trim_end(s)[i]),
    decreases s.len(),
{
    if s.len() > 0 && text::white(s.last()) {
        let w = s.drop_last();
        end_is_part(w);
        let t = text::trim_end(s);
        assert forall|i: int| 0 <= i < t.len() implies s.contains(#[trigger] t[i]) by {
            assert(w.contains(text::trim_end(w)[i]));
            let j = choose|j: int| 0 <= j < w.len() && w[j] == t[i];
            assert(s[j] == t[i]);
        }
    }
}

} // verus!
