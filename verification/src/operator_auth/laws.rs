//! What holds of links and sessions over several calls.
use crate::operator_auth;
use crate::operator_auth::session;
use crate::operator_auth::session::{AuthView, LinkRefusal, RowView};
use crate::operator_auth::{
    Origin, UserView, ABSOLUTE_SECS, IDLE_SECS, LINK_TTL_SECS, PUBLIC_SESSION_SECS,
};
use vstd::prelude::*;

verus! {

// ---------- links ----------

/// A link that was minted for an origin, ends at a time, and was not
/// exchanged.
pub open spec fn open_link(a: AuthView, nonce: Seq<char>, origin: Origin, end: i64) -> bool {
    let h = operator_auth::digest_of(nonce);
    a.links.dom().contains(h) && a.links[h] == (origin, end) && !a.spent.dom().contains(h)
}

/// A link that was exchanged.
pub open spec fn used_link(a: AuthView, nonce: Seq<char>, end: i64) -> bool {
    let h = operator_auth::digest_of(nonce);
    a.spent.dom().contains(h) && a.spent[h].1 == end
}

/// A link that was minted at a time.
pub open spec fn minted(a: AuthView, nonce: Seq<char>, origin: Origin, now: i64) -> AuthView {
    AuthView {
        links: session::pruned(a, now).links.insert(
            operator_auth::digest_of(nonce),
            (origin, (now + LINK_TTL_SECS) as i64),
        ),
        ..session::pruned(a, now)
    }
}

/// A link opens exactly up to its end. From the next second on it is
/// expired, for one more lifetime, and unknown after that.
pub proof fn a_link_opens_until_its_end(
    a: AuthView,
    nonce: Seq<char>,
    origin: Origin,
    end: i64,
    now: i64,
)
    requires
        operator_auth::credential(nonce),
        open_link(a, nonce, origin, end),
    ensures
        session::exchange(session::pruned(a, now), nonce, origin, now) == if now <= end {
            Ok::<(), LinkRefusal>(())
        } else if now <= end + LINK_TTL_SECS {
            Err(LinkRefusal::Expired)
        } else {
            Err(LinkRefusal::Unknown)
        },
{
}

/// A minted link is open until 120 seconds later.
pub proof fn a_minted_link_is_open(a: AuthView, nonce: Seq<char>, origin: Origin, now: i64)
    requires
        now + LINK_TTL_SECS <= i64::MAX,
        !a.spent.dom().contains(operator_auth::digest_of(nonce)),
    ensures
        open_link(minted(a, nonce, origin, now), nonce, origin, (now + LINK_TTL_SECS) as i64),
{
}

/// An open link stays open whatever else happens in its lifetime: time
/// passes, other links are minted and exchanged, and sessions are opened,
/// checked and ended.
pub proof fn an_open_link_stays(
    a: AuthView,
    nonce: Seq<char>,
    origin: Origin,
    end: i64,
    other: Seq<char>,
    place: Origin,
    f: spec_fn(RowView) -> bool,
    rows: Seq<RowView>,
    now: i64,
)
    requires
        open_link(a, nonce, origin, end),
        now <= end + LINK_TTL_SECS,
        operator_auth::digest_of(other) != operator_auth::digest_of(nonce),
    ensures
        open_link(session::pruned(a, now), nonce, origin, end),
        open_link(minted(a, other, place, now), nonce, origin, end),
        open_link(session::exchanged(session::pruned(a, now), other), nonce, origin, end),
        open_link(session::found(session::pruned(a, now), f, now).0, nonce, origin, end),
        open_link(AuthView { sessions: rows, ..a }, nonce, origin, end),
{
}

/// The first exchange spends a link, whatever it comes to.
pub proof fn the_first_exchange_spends(
    a: AuthView,
    nonce: Seq<char>,
    origin: Origin,
    end: i64,
    now: i64,
)
    requires
        operator_auth::credential(nonce),
        open_link(a, nonce, origin, end),
        now <= end + LINK_TTL_SECS,
    ensures
        used_link(session::exchanged(session::pruned(a, now), nonce), nonce, end),
{
}

/// A link that was exchanged is refused as used, by every later exchange
/// for two lifetimes from its minting, and it stays used over mintings and
/// exchanges, also of itself, and whatever happens to the sessions.
pub proof fn a_used_link_stays_used(
    a: AuthView,
    nonce: Seq<char>,
    end: i64,
    other: Seq<char>,
    place: Origin,
    f: spec_fn(RowView) -> bool,
    rows: Seq<RowView>,
    now: i64,
)
    requires
        operator_auth::credential(nonce),
        used_link(a, nonce, end),
        now <= end + LINK_TTL_SECS,
    ensures
        session::exchange(session::pruned(a, now), nonce, place, now) == Err::<(), LinkRefusal>(
            LinkRefusal::AlreadyUsed,
        ),
        used_link(session::pruned(a, now), nonce, end),
        used_link(minted(a, other, place, now), nonce, end),
        used_link(session::exchanged(session::pruned(a, now), other), nonce, end),
        used_link(session::found(session::pruned(a, now), f, now).0, nonce, end),
        used_link(AuthView { sessions: rows, ..a }, nonce, end),
{
}

// ---------- sessions ----------

proof fn filter_has(v: Seq<RowView>, f: spec_fn(RowView) -> bool, i: int)
    requires
        0 <= i < v.len(),
        f(v[i]),
    ensures
        v.filter(f).contains(v[i]),
    decreases v.len(),
{
    reveal(Seq::filter);
    let rest = v.drop_last();
    let w = rest.filter(f);
    if i < v.len() - 1 {
        assert(rest[i] == v[i]);
        filter_has(rest, f, i);
        let k = choose|k: int| 0 <= k < w.len() && w[k] == v[i];
        if f(v.last()) {
            assert(w.push(v.last())[k] == v[i]);
        }
    } else {
        assert(w.push(v.last())[w.len() as int] == v[i]);
    }
}

/// Some session that a check looks for is live.
pub open spec fn some_live(a: AuthView, f: spec_fn(RowView) -> bool, now: i64) -> bool {
    exists|i: int|
        0 <= i < a.sessions.len() && f(#[trigger] a.sessions[i]) && a.sessions[i].live(now)
}

/// A check finds a session exactly where one that it looks for is live. So
/// an operator's session is found exactly by its token and key, on its
/// origin, within the idle time and its limit.
pub proof fn a_session_is_found_while_live(a: AuthView, f: spec_fn(RowView) -> bool, now: i64)
    ensures
        session::found(session::pruned(a, now), f, now).1 is Some <==> some_live(a, f, now),
{
    let p = session::pruned(a, now);
    let live = session::lives(now);
    session::first_row_is(p.sessions, f);
    if let Some(k) = session::first_row(p.sessions, f) {
        session::filter_keeps(a.sessions, live, k);
        let i = choose|i: int| 0 <= i < a.sessions.len() && a.sessions[i] == p.sessions[k];
        assert(f(a.sessions[i]) && a.sessions[i].live(now));
    }
    if some_live(a, f, now) {
        let i = choose|i: int|
            0 <= i < a.sessions.len() && f(#[trigger] a.sessions[i]) && a.sessions[i].live(now);
        assert(live(a.sessions[i]));
        filter_has(a.sessions, live, i);
        let k = choose|k: int| 0 <= k < p.sessions.len() && p.sessions[k] == a.sessions[i];
        assert(f(p.sessions[k]));
    }
}

/// A public session: it ends 60 minutes after it was opened, and was used
/// no earlier than that.
pub open spec fn sound_public(r: RowView) -> bool {
    r.origin is Public && r.expires_at == r.created + PUBLIC_SESSION_SECS && r.created
        <= r.last_used
}

/// A new public session is sound, and every use keeps it so.
pub proof fn public_sessions_are_sound(
    token: Seq<char>,
    user_agent: Seq<char>,
    user: UserView,
    now: i64,
    r: RowView,
    used: i64,
)
    requires
        now + PUBLIC_SESSION_SECS <= i64::MAX,
        sound_public(r),
        r.created <= used,
    ensures
        sound_public(
            session::new_row(token, ""@, Origin::Public, user_agent, Some(user), now),
        ),
        sound_public(session::touched(r, used)),
{
}

/// A public session is found by its token until its end, however it was
/// used, and not after it.
pub proof fn a_public_session_is_found_until_its_end(a: AuthView, token: Seq<char>, now: i64)
    requires
        forall|i: int|
            0 <= i < a.sessions.len() && session::public(#[trigger] a.sessions[i], token)
                ==> sound_public(a.sessions[i]),
    ensures
        session::found(session::pruned(a, now), session::by_token(token), now).1 is Some
            <==> exists|i: int|
            0 <= i < a.sessions.len() && session::public(#[trigger] a.sessions[i], token) && now
                < a.sessions[i].expires_at,
{
    let f = session::by_token(token);
    a_session_is_found_while_live(a, f, now);
    if some_live(a, f, now) {
        let i = choose|i: int|
            0 <= i < a.sessions.len() && f(#[trigger] a.sessions[i]) && a.sessions[i].live(now);
        assert(session::public(a.sessions[i], token));
    }
    if exists|i: int|
        0 <= i < a.sessions.len() && session::public(#[trigger] a.sessions[i], token) && now
            < a.sessions[i].expires_at {
        let i = choose|i: int|
            0 <= i < a.sessions.len() && session::public(#[trigger] a.sessions[i], token) && now
                < a.sessions[i].expires_at;
        assert(f(a.sessions[i]));
        assert(PUBLIC_SESSION_SECS < IDLE_SECS);
        assert(a.sessions[i].live(now));
    }
}

/// After a user signs in anew, the token of the earlier session finds
/// nothing, where its digest is not that of the new one.
pub proof fn a_new_sign_in_ends_the_earlier(
    a: AuthView,
    user: UserView,
    jti: Seq<char>,
    exp: i64,
    user_agent: Seq<char>,
    token: Seq<char>,
    now: i64,
    earlier: Seq<char>,
    later: i64,
)
    requires
        !operator_auth::twins(
            operator_auth::digest_of(token),
            operator_auth::digest_of(earlier),
        ),
        forall|i: int|
            0 <= i < a.sessions.len() && session::public(#[trigger] a.sessions[i], earlier)
                ==> a.sessions[i].user is Some && a.sessions[i].user->0.sub == user.sub,
    ensures
        session::found(
            session::pruned(
                session::admitted(a, user, jti, exp, user_agent, token, now),
                later,
            ),
            session::by_token(earlier),
            later,
        ).1 is None,
{
    let b = session::admitted(a, user, jti, exp, user_agent, token, now);
    let f = session::by_token(earlier);
    a_session_is_found_while_live(b, f, later);
    if some_live(b, f, later) {
        let i = choose|i: int|
            0 <= i < b.sessions.len() && f(#[trigger] b.sessions[i]) && b.sessions[i].live(later);
        if i < b.sessions.len() - 1 {
            let keep = session::other_sub(user.sub);
            session::filter_keeps(a.sessions, keep, i);
            let k = choose|k: int|
                0 <= k < a.sessions.len() && a.sessions[k] == a.sessions.filter(keep)[i];
            assert(session::public(a.sessions[k], earlier));
        }
    }
}

/// After the sessions of an id were ended, the list shows none of it and
/// every other that is live; and a check finds a session exactly where a
/// live one of another id is looked for.
pub proof fn an_ended_id_is_gone(
    a: AuthView,
    id: Seq<char>,
    f: spec_fn(RowView) -> bool,
    now: i64,
)
    ensures
        ({
            let listed = session::pruned(session::without_id(a, id), now).sessions;
            &&& forall|i: int| 0 <= i < listed.len() ==> (#[trigger] listed[i]).id() != id
            &&& forall|i: int|
                0 <= i < a.sessions.len() && (#[trigger] a.sessions[i]).id() != id
                    && a.sessions[i].live(now) ==> listed.contains(a.sessions[i])
        }),
        session::found(session::pruned(session::without_id(a, id), now), f, now).1 is Some
            <==> exists|i: int|
            0 <= i < a.sessions.len() && f(#[trigger] a.sessions[i]) && a.sessions[i].live(now)
                && a.sessions[i].id() != id,
{
    let b = session::without_id(a, id);
    let keep = session::unlike(None, id);
    let live = session::lives(now);
    let listed = session::pruned(b, now).sessions;
    assert forall|i: int| 0 <= i < listed.len() implies (#[trigger] listed[i]).id() != id by {
        session::filter_keeps(b.sessions, live, i);
        let k = choose|k: int| 0 <= k < b.sessions.len() && b.sessions[k] == listed[i];
        session::filter_keeps(a.sessions, keep, k);
    }
    assert forall|i: int|
        0 <= i < a.sessions.len() && (#[trigger] a.sessions[i]).id() != id && a.sessions[i].live(
            now,
        ) implies listed.contains(a.sessions[i]) by {
        assert(keep(a.sessions[i]));
        filter_has(a.sessions, keep, i);
        let k = choose|k: int| 0 <= k < b.sessions.len() && b.sessions[k] == a.sessions[i];
        assert(live(b.sessions[k]));
        filter_has(b.sessions, live, k);
    }
    a_session_is_found_while_live(b, f, now);
    if some_live(b, f, now) {
        let k = choose|k: int|
            0 <= k < b.sessions.len() && f(#[trigger] b.sessions[k]) && b.sessions[k].live(now);
        session::filter_keeps(a.sessions, keep, k);
        let i = choose|i: int| 0 <= i < a.sessions.len() && a.sessions[i] == b.sessions[k];
        assert(f(a.sessions[i]) && a.sessions[i].live(now) && a.sessions[i].id() != id);
    }
    if exists|i: int|
        0 <= i < a.sessions.len() && f(#[trigger] a.sessions[i]) && a.sessions[i].live(now)
            && a.sessions[i].id() != id {
        let i = choose|i: int|
            0 <= i < a.sessions.len() && f(#[trigger] a.sessions[i]) && a.sessions[i].live(now)
                && a.sessions[i].id() != id;
        assert(keep(a.sessions[i]));
        filter_has(a.sessions, keep, i);
        let k = choose|k: int| 0 <= k < b.sessions.len() && b.sessions[k] == a.sessions[i];
        assert(f(b.sessions[k]) && b.sessions[k].live(now));
    }
}

/// After everything was ended nothing is listed and no check finds a
/// session, and no link that was minted before opens one: it is refused as
/// used while it is remembered.
pub proof fn nothing_is_left_after_all_was_ended(
    a: AuthView,
    f: spec_fn(RowView) -> bool,
    nonce: Seq<char>,
    origin: Origin,
    now: i64,
)
    ensures
        session::pruned(session::voided(a), now).sessions.len() == 0,
        session::found(session::pruned(session::voided(a), now), f, now).1 is None,
        session::exchange(session::pruned(session::voided(a), now), nonce, origin, now) is Err,
        ({
            let h = operator_auth::digest_of(nonce);
            operator_auth::credential(nonce) && a.links.dom().contains(h) && now <= a.links[h].1
                + LINK_TTL_SECS ==> session::exchange(
                session::pruned(session::voided(a), now),
                nonce,
                origin,
                now,
            ) == Err::<(), LinkRefusal>(LinkRefusal::AlreadyUsed)
        }),
{
    reveal(Seq::filter);
    let b = session::voided(a);
    assert(session::pruned(b, now).sessions =~= seq![]);
}

/// An operator's session that was opened ends at its limit, and idles out
/// before it where it is not used.
pub proof fn an_opened_session_has_its_limits(
    token: Seq<char>,
    key_hash: Seq<char>,
    origin: Origin,
    user_agent: Seq<char>,
    now: i64,
    used: i64,
    later: i64,
)
    requires
        !(origin is Public),
        now + ABSOLUTE_SECS <= i64::MAX,
        now <= used,
    ensures
        ({
            let r = session::touched(
                session::new_row(token, key_hash, origin, user_agent, None, now),
                used,
            );
            &&& later >= now + ABSOLUTE_SECS ==> !r.live(later)
            &&& later >= used + IDLE_SECS ==> !r.live(later)
        }),
{
}

} // verus!
