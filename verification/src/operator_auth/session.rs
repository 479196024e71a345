//! Login links and sessions. The nonce of a link opens one session, once,
//! on the origin it was minted for. A session ends when it idles and at an
//! absolute time.
use crate::error::Error;
use crate::hash;
use crate::operator_auth;
use crate::operator_auth::table;
use crate::operator_auth::table::Table;
use crate::operator_auth::{clean_user_agent, digest, random_credential, same_credential, well_formed, BoardUser, Origin, UserView, ABSOLUTE_SECS, IDLE_SECS, LINK_TTL_SECS, PUBLIC_SESSION_SECS, TOUCH_EVERY_SECS};
use crate::text;
use vstd::prelude::*;

verus! {

/// Why a link was refused.
#[derive(Clone, Copy, Debug, PartialEq, Eq, Structural)]
pub enum LinkRefusal {
    /// Not the shape of a credential.
    Malformed,
    /// Never minted here, or the daemon restarted since.
    Unknown,
    /// Exchanged before.
    AlreadyUsed,
    Expired,
    /// Minted for another origin.
    WrongOrigin,
}

impl LinkRefusal {
    pub open spec fn name(self) -> Seq<char> {
        match self {
            LinkRefusal::Malformed => "malformed"@,
            LinkRefusal::Unknown => "unknown"@,
            LinkRefusal::AlreadyUsed => "already_used"@,
            LinkRefusal::Expired => "expired"@,
            LinkRefusal::WrongOrigin => "wrong_origin"@,
        }
    }

    pub fn as_str(self) -> (r: &'static str)
        ensures
            r@ == self.name(),
    {
        match self {
            LinkRefusal::Malformed => "malformed",
            LinkRefusal::Unknown => "unknown",
            LinkRefusal::AlreadyUsed => "already_used",
            LinkRefusal::Expired => "expired",
            LinkRefusal::WrongOrigin => "wrong_origin",
        }
    }

    pub open spec fn explanation(self) -> Seq<char> {
        match self {
            LinkRefusal::Malformed => "this is not a login link"@,
            LinkRefusal::Unknown => "this login link is unknown here — it was never minted by this daemon, or the daemon restarted; run `cadence ui login` again"@,
            LinkRefusal::AlreadyUsed => "this login link was already used — if that was not you, run `cadence ui sessions --revoke-all`"@,
            LinkRefusal::Expired => "this login link expired — run `cadence ui login` again"@,
            LinkRefusal::WrongOrigin => "this login link was minted for another address (loopback vs tailnet) — run `cadence ui login` (or `--tailnet`) for the address you opened"@,
        }
    }

    pub fn explain(self) -> (r: &'static str)
        ensures
            r@ == self.explanation(),
    {
        match self {
            LinkRefusal::Malformed => "this is not a login link",
            LinkRefusal::Unknown => "this login link is unknown here — it was never minted by this daemon, or the daemon restarted; run `cadence ui login` again",
            LinkRefusal::AlreadyUsed => "this login link was already used — if that was not you, run `cadence ui sessions --revoke-all`",
            LinkRefusal::Expired => "this login link expired — run `cadence ui login` again",
            LinkRefusal::WrongOrigin => "this login link was minted for another address (loopback vs tailnet) — run `cadence ui login` (or `--tailnet`) for the address you opened",
        }
    }
}

/// A stored session: digests of its credentials, never the credentials.
#[derive(Clone, Debug)]
pub struct Row {
    pub hash: String,
    /// The digest of the second credential; empty where there is none.
    pub key_hash: String,
    pub origin: Origin,
    pub created: i64,
    pub last_used: i64,
    pub expires_at: i64,
    pub user_agent: String,
    pub user: Option<BoardUser>,
}

pub struct RowView {
    pub hash: Seq<char>,
    pub key_hash: Seq<char>,
    pub origin: Origin,
    pub created: i64,
    pub last_used: i64,
    pub expires_at: i64,
    pub user_agent: Seq<char>,
    pub user: Option<UserView>,
}

pub open spec fn user_opt(u: Option<BoardUser>) -> Option<UserView> {
    match u {
        Some(x) => Some(x@),
        None => None,
    }
}

impl View for Row {
    type V = RowView;

    open spec fn view(&self) -> RowView {
        RowView {
            hash: self.hash@,
            key_hash: self.key_hash@,
            origin: self.origin,
            created: self.created,
            last_used: self.last_used,
            expires_at: self.expires_at,
            user_agent: self.user_agent@,
            user: user_opt(self.user),
        }
    }
}

pub open spec fn row_views(v: Seq<Row>) -> Seq<RowView> {
    v.map_values(|r: Row| r@)
}

impl RowView {
    /// The id that is shown: the first 8 digits of the digest.
    pub open spec fn id(self) -> Seq<char> {
        if self.hash.len() < 8 {
            self.hash
        } else {
            self.hash.take(8)
        }
    }

    pub open spec fn live(self, now: i64) -> bool {
        now < self.expires_at && now - self.last_used < IDLE_SECS
    }

    pub open spec fn idle_end(self) -> i64 {
        if self.last_used + IDLE_SECS < self.expires_at {
            (self.last_used + IDLE_SECS) as i64
        } else {
            self.expires_at
        }
    }
}

/// A session as it is shown.
#[derive(Clone, Debug)]
pub struct SessionView {
    pub id: String,
    pub origin: Origin,
    pub created: i64,
    pub last_used: i64,
    pub idle_expires_at: i64,
    pub expires_at: i64,
    pub user_agent: String,
    pub user: Option<BoardUser>,
}

/// The session shows a row, and nothing of its credentials but the id.
pub open spec fn shows(s: SessionView, r: RowView) -> bool {
    &&& s.id@ == r.id()
    &&& s.origin == r.origin
    &&& s.created == r.created
    &&& s.last_used == r.last_used
    &&& s.idle_expires_at == r.idle_end()
    &&& s.expires_at == r.expires_at
    &&& s.user_agent@ == r.user_agent
    &&& user_opt(s.user) == r.user
}

impl Row {
    fn id(&self) -> (r: String)
        ensures
            r@ == self@.id(),
    {
        let v = text::chars_of(self.hash.as_str());
        if v.len() < 8 {
            return self.hash.clone();
        }
        let r = text::string_of(v.as_slice(), 0, 8);
        assert(r@ =~= self.hash@.take(8));
        r
    }

    fn is_live(&self, now: i64) -> (r: bool)
        ensures
            r == self@.live(now),
    {
        now < self.expires_at && (now as i128 - self.last_used as i128) < IDLE_SECS as i128
    }

    fn show(&self) -> (s: SessionView)
        ensures
            shows(s, self@),
    {
        let end: i128 = self.last_used as i128 + IDLE_SECS as i128;
        SessionView {
            id: self.id(),
            origin: self.origin,
            created: self.created,
            last_used: self.last_used,
            idle_expires_at: if end < self.expires_at as i128 {
                end as i64
            } else {
                self.expires_at
            },
            expires_at: self.expires_at,
            user_agent: self.user_agent.clone(),
            user: match &self.user {
                Some(u) => Some(u.copy()),
                None => None,
            },
        }
    }
}

/// A session that was just opened: the token and the key are given out
/// once.
#[derive(Debug)]
pub struct Opened {
    pub token: String,
    pub key: String,
    pub session: SessionView,
}

/// The links, the spent ones, the assertions that were used, and the
/// sessions. There is no limit on failed exchanges: a nonce cannot be
/// guessed, and a shared budget could be spent by anyone to lock the
/// operator out.
#[derive(Debug)]
pub struct Auth {
    pub sessions: Vec<Row>,
    pub links: Table,
    pub spent: Table,
    pub jtis: Table,
}

pub struct AuthView {
    pub sessions: Seq<RowView>,
    pub links: Map<Seq<char>, (Origin, i64)>,
    pub spent: Map<Seq<char>, (Origin, i64)>,
    pub jtis: Map<Seq<char>, (Origin, i64)>,
}

impl View for Auth {
    type V = AuthView;

    open spec fn view(&self) -> AuthView {
        AuthView {
            sessions: row_views(self.sessions@),
            links: self.links@,
            spent: self.spent@,
            jtis: self.jtis@,
        }
    }
}

pub open spec fn lives(now: i64) -> spec_fn(RowView) -> bool {
    |r: RowView| r.live(now)
}

/// The state at a time. A link that ended is kept for one more lifetime,
/// so that its refusal can say so.
pub open spec fn pruned(a: AuthView, now: i64) -> AuthView {
    AuthView {
        sessions: a.sessions.filter(lives(now)),
        links: table::kept(a.links, now, LINK_TTL_SECS as int),
        spent: table::kept(a.spent, now, LINK_TTL_SECS as int),
        jtis: table::kept(a.jtis, now, 0),
    }
}

// ---------- links ----------

/// What becomes of an exchange of a nonce.
pub open spec fn exchange(a: AuthView, nonce: Seq<char>, origin: Origin, now: i64) -> Result<
    (),
    LinkRefusal,
> {
    let h = operator_auth::digest_of(nonce);
    if !operator_auth::credential(nonce) {
        Err(LinkRefusal::Malformed)
    } else if a.spent.dom().contains(h) {
        Err(LinkRefusal::AlreadyUsed)
    } else if !a.links.dom().contains(h) {
        Err(LinkRefusal::Unknown)
    } else if now > a.links[h].1 {
        Err(LinkRefusal::Expired)
    } else if a.links[h].0 != origin {
        Err(LinkRefusal::WrongOrigin)
    } else {
        Ok(())
    }
}

/// The state after the exchange: a link that was named is spent, whatever
/// the outcome.
pub open spec fn exchanged(a: AuthView, nonce: Seq<char>) -> AuthView {
    let h = operator_auth::digest_of(nonce);
    if !operator_auth::credential(nonce) || a.spent.dom().contains(h) || !a.links.dom().contains(
        h,
    ) {
        a
    } else {
        AuthView { links: a.links.remove(h), spent: a.spent.insert(h, a.links[h]), ..a }
    }
}

/// The row of a new session.
pub open spec fn new_row(
    token: Seq<char>,
    key_hash: Seq<char>,
    origin: Origin,
    user_agent: Seq<char>,
    user: Option<UserView>,
    now: i64,
) -> RowView {
    RowView {
        hash: operator_auth::digest_of(token),
        key_hash,
        origin,
        created: now,
        last_used: now,
        expires_at: (now + (if origin is Public {
            PUBLIC_SESSION_SECS
        } else {
            ABSOLUTE_SECS
        })) as i64,
        user_agent: operator_auth::agent_text(user_agent),
        user,
    }
}

pub open spec fn created(
    a: AuthView,
    token: Seq<char>,
    key: Seq<char>,
    origin: Origin,
    user_agent: Seq<char>,
    now: i64,
) -> AuthView {
    AuthView {
        sessions: a.sessions.push(
            new_row(token, operator_auth::digest_of(key), origin, user_agent, None, now),
        ),
        ..a
    }
}

// ---------- public sessions ----------

pub open spec fn other_sub(sub: Seq<char>) -> spec_fn(RowView) -> bool {
    |r: RowView| !(r.origin is Public && r.user is Some && r.user->0.sub == sub)
}

/// The state with a public session of a user: the earlier one of the same
/// user is gone, and the assertion is used.
pub open spec fn admitted(
    a: AuthView,
    user: UserView,
    jti: Seq<char>,
    exp: i64,
    user_agent: Seq<char>,
    token: Seq<char>,
    now: i64,
) -> AuthView {
    AuthView {
        sessions: a.sessions.filter(other_sub(user.sub)).push(
            new_row(token, ""@, Origin::Public, user_agent, Some(user), now),
        ),
        jtis: a.jtis.insert(operator_auth::digest_of(jti), (Origin::Public, exp)),
        ..a
    }
}

// ---------- checks ----------

/// A row is of a token and a key, on an origin.
pub open spec fn keyed(r: RowView, token: Seq<char>, key: Seq<char>, origin: Origin) -> bool {
    operator_auth::twins(r.hash, operator_auth::digest_of(token)) && operator_auth::twins(
        r.key_hash,
        operator_auth::digest_of(key),
    ) && r.origin == origin
}

/// A public row is of a token.
pub open spec fn public(r: RowView, token: Seq<char>) -> bool {
    r.origin is Public && operator_auth::twins(r.hash, operator_auth::digest_of(token))
}

pub open spec fn first_row(v: Seq<RowView>, f: spec_fn(RowView) -> bool) -> Option<int>
    decreases v.len(),
{
    if v.len() == 0 {
        None
    } else if f(v[0]) {
        Some(0)
    } else {
        match first_row(v.drop_first(), f) {
            Some(i) => Some(i + 1),
            None => None,
        }
    }
}

/// A row as it is after a use: the last use is written once a minute.
pub open spec fn touched(r: RowView, now: i64) -> RowView {
    if now - r.last_used >= TOUCH_EVERY_SECS {
        RowView { last_used: now, ..r }
    } else {
        r
    }
}

/// What a check finds, and the state after it.
pub open spec fn found(a: AuthView, f: spec_fn(RowView) -> bool, now: i64) -> (
    AuthView,
    Option<RowView>,
) {
    match first_row(a.sessions, f) {
        Some(i) => {
            let r = touched(a.sessions[i], now);
            (AuthView { sessions: a.sessions.update(i, r), ..a }, Some(r))
        },
        None => (a, None),
    }
}

pub open spec fn by_key(token: Seq<char>, key: Seq<char>, origin: Origin) -> spec_fn(RowView) -> bool {
    |r: RowView| keyed(r, token, key, origin)
}

pub open spec fn by_token(token: Seq<char>) -> spec_fn(RowView) -> bool {
    |r: RowView| public(r, token)
}

/// What a check comes to: the session, and whether the sessions are to be
/// saved.
#[derive(Debug)]
pub struct Checked {
    pub session: Option<SessionView>,
    pub save: bool,
}

pub open spec fn checked(c: Checked, row: Option<RowView>) -> bool {
    match (c.session, row) {
        (Some(s), Some(r)) => shows(s, r),
        (None, None) => true,
        _ => false,
    }
}

pub open spec fn sound_rows() -> spec_fn(RowView) -> bool {
    |r: RowView| operator_auth::credential(r.hash)
}

fn keep_rows(rows: Vec<Row>, now: i64) -> (r: Vec<Row>)
    ensures
        row_views(r@) == row_views(rows@).filter(lives(now)),
        r@.len() <= rows@.len(),
{
    let ghost d = row_views(rows@);
    let ghost all = rows@;
    let ghost f = lives(now);
    let mut out: Vec<Row> = Vec::new();
    proof {
        reveal(Seq::filter);
        assert(d.take(0) =~= Seq::empty());
        assert(row_views(out@) =~= d.take(0).filter(f));
    }
    for x in it: rows
        invariant
            it.seq() == all,
            d == row_views(all),
            f == lives(now),
            out@.len() <= it.index(),
            row_views(out@) == d.take(it.index()).filter(f),
    {
        let ghost n = it.index();
        let ghost o = out@;
        proof {
            reveal(Seq::filter);
            assert(d.take(n + 1).drop_last() =~= d.take(n));
            assert(d.take(n + 1).last() == x@);
        }
        if x.is_live(now) {
            let ghost xv = x@;
            out.push(x);
            assert(row_views(out@) =~= row_views(o).push(xv));
        }
    }
    assert(d.take(d.len() as int) =~= d);
    out
}

fn drop_sub(rows: Vec<Row>, sub: &str) -> (r: Vec<Row>)
    ensures
        row_views(r@) == row_views(rows@).filter(other_sub(sub@)),
{
    let ghost d = row_views(rows@);
    let ghost all = rows@;
    let ghost f = other_sub(sub@);
    let mut out: Vec<Row> = Vec::new();
    proof {
        reveal(Seq::filter);
        assert(d.take(0) =~= Seq::empty());
        assert(row_views(out@) =~= d.take(0).filter(f));
    }
    for x in it: rows
        invariant
            it.seq() == all,
            d == row_views(all),
            f == other_sub(sub@),
            row_views(out@) == d.take(it.index()).filter(f),
    {
        let ghost n = it.index();
        let ghost o = out@;
        proof {
            reveal(Seq::filter);
            assert(d.take(n + 1).drop_last() =~= d.take(n));
            assert(d.take(n + 1).last() == x@);
        }
        let same = match (&x.user, x.origin) {
            (Some(u), Origin::Public) => text::eq(u.sub.as_str(), sub),
            _ => false,
        };
        if !same {
            let ghost xv = x@;
            out.push(x);
            assert(row_views(out@) =~= row_views(o).push(xv));
        }
    }
    assert(d.take(d.len() as int) =~= d);
    out
}

/// Rows that are not of a digest, or not of an id.
pub open spec fn unlike(hash: Option<Seq<char>>, id: Seq<char>) -> spec_fn(RowView) -> bool {
    |r: RowView|
        match hash {
            Some(h) => r.hash != h,
            None => r.id() != id,
        }
}

/// The state with every session ended and every link spent.
pub open spec fn voided(a: AuthView) -> AuthView {
    AuthView {
        sessions: seq![],
        links: Map::empty(),
        spent: a.spent.union_prefer_right(a.links),
        jtis: a.jtis,
    }
}

/// The state without the sessions of an id.
pub open spec fn without_id(a: AuthView, id: Seq<char>) -> AuthView {
    AuthView { sessions: a.sessions.filter(unlike(None, id)), ..a }
}

fn drop_like(rows: Vec<Row>, hash: Option<&str>, id: &str) -> (r: Vec<Row>)
    ensures
        row_views(r@) == row_views(rows@).filter(unlike(hash.deep_view(), id@)),
        r@.len() <= rows@.len(),
{
    let ghost d = row_views(rows@);
    let ghost all = rows@;
    let ghost f = unlike(hash.deep_view(), id@);
    let mut out: Vec<Row> = Vec::new();
    proof {
        reveal(Seq::filter);
        assert(d.take(0) =~= Seq::empty());
        assert(row_views(out@) =~= d.take(0).filter(f));
    }
    for x in it: rows
        invariant
            it.seq() == all,
            d == row_views(all),
            f == unlike(hash.deep_view(), id@),
            out@.len() <= it.index(),
            row_views(out@) == d.take(it.index()).filter(f),
    {
        let ghost n = it.index();
        let ghost o = out@;
        proof {
            reveal(Seq::filter);
            assert(d.take(n + 1).drop_last() =~= d.take(n));
            assert(d.take(n + 1).last() == x@);
        }
        let like = match hash {
            Some(h) => text::eq(x.hash.as_str(), h),
            None => text::eq(x.id().as_str(), id),
        };
        if !like {
            let ghost xv = x@;
            out.push(x);
            assert(row_views(out@) =~= row_views(o).push(xv));
        }
    }
    assert(d.take(d.len() as int) =~= d);
    out
}

impl Auth {
    pub open spec fn wf(self) -> bool {
        self.links.wf() && self.spent.wf() && self.jtis.wf()
    }

    /// The state of a daemon that starts: the sessions that were saved,
    /// but for broken ones, and the used assertions. Every link is void.
    pub fn load(sessions: Vec<Row>, jtis: Vec<(String, i64)>) -> (r: Auth)
        ensures
            r.wf(),
            r@.sessions == row_views(sessions@).filter(sound_rows()),
            r@.links == Map::<Seq<char>, (Origin, i64)>::empty(),
            r@.spent == Map::<Seq<char>, (Origin, i64)>::empty(),
            forall|i: int| 0 <= i < jtis@.len() ==> r@.jtis.dom().contains((#[trigger] jtis@[i]).0@),
            forall|k: Seq<char>| #[trigger] r@.jtis.dom().contains(k) ==> exists|i: int|
                0 <= i < jtis@.len() && (#[trigger] jtis@[i]).0@ == k && r@.jtis[k].1 == jtis@[i].1,
    {
        let ghost d = row_views(sessions@);
        let ghost all = sessions@;
        let ghost f = sound_rows();
        let mut out: Vec<Row> = Vec::new();
        proof {
            reveal(Seq::filter);
            assert(d.take(0) =~= Seq::empty());
            assert(row_views(out@) =~= d.take(0).filter(f));
        }
        for x in it: sessions
            invariant
                it.seq() == all,
                d == row_views(all),
                f == sound_rows(),
                row_views(out@) == d.take(it.index()).filter(f),
        {
            let ghost n = it.index();
            let ghost o = out@;
            proof {
                reveal(Seq::filter);
                assert(d.take(n + 1).drop_last() =~= d.take(n));
                assert(d.take(n + 1).last() == x@);
            }
            if well_formed(x.hash.as_str()) {
                let ghost xv = x@;
                out.push(x);
                assert(row_views(out@) =~= row_views(o).push(xv));
            }
        }
        assert(d.take(d.len() as int) =~= d);
        let mut used = Table::empty();
        let mut i: usize = 0;
        while i < jtis.len()
            invariant
                used.wf(),
                i <= jtis@.len(),
                forall|k: int| 0 <= k < i ==> used@.dom().contains((#[trigger] jtis@[k]).0@),
                forall|k: Seq<char>| #[trigger] used@.dom().contains(k) ==> exists|j: int|
                    0 <= j < i && (#[trigger] jtis@[j]).0@ == k && used@[k].1 == jtis@[j].1,
            decreases jtis.len() - i,
        {
            let ghost before = used@;
            used.insert(jtis[i].0.as_str(), Origin::Public, jtis[i].1);
            proof {
                assert forall|k: Seq<char>| #[trigger] used@.dom().contains(k) implies exists|j: int|
                    0 <= j < i + 1 && (#[trigger] jtis@[j]).0@ == k && used@[k].1
                        == jtis@[j].1 by {
                    if k == jtis@[i as int].0@ {
                        assert(jtis@[i as int].0@ == k);
                    } else {
                        assert(before.dom().contains(k));
                        let j = choose|j: int|
                            0 <= j < i && (#[trigger] jtis@[j]).0@ == k && before[k].1
                                == jtis@[j].1;
                        assert(jtis@[j].0@ == k);
                    }
                }
            }
            i = i + 1;
        }
        Auth { sessions: out, links: Table::empty(), spent: Table::empty(), jtis: used }
    }

    fn prune(self, now: i64) -> (r: (Auth, bool))
        requires
            self.wf(),
        ensures
            r.0.wf(),
            r.0@ == pruned(self@, now),
            r.1 == (r.0@.sessions.len() != self@.sessions.len()),
    {
        let before = self.sessions.len();
        let sessions = keep_rows(self.sessions, now);
        let after = sessions.len();
        (
            Auth {
                sessions,
                links: self.links.prune(now, LINK_TTL_SECS),
                spent: self.spent.prune(now, LINK_TTL_SECS),
                jtis: self.jtis.prune(now, 0),
            },
            before != after,
        )
    }

    /// Records a link of a given nonce.
    pub fn mint_with(self, origin: Origin, nonce: &str, now: i64) -> (r: Auth)
        requires
            self.wf(),
            now + LINK_TTL_SECS <= i64::MAX,
        ensures
            r.wf(),
            r@ == (AuthView {
                links: pruned(self@, now).links.insert(
                    operator_auth::digest_of(nonce@),
                    (origin, (now + LINK_TTL_SECS) as i64),
                ),
                ..pruned(self@, now)
            }),
    {
        let (a, _changed) = self.prune(now);
        let mut a = a;
        a.links.insert(digest(nonce).as_str(), origin, now + LINK_TTL_SECS);
        a
    }

    /// Mints a single-use link for an origin; the caller has proved to be
    /// the operator. A public session is never opened by a link.
    pub fn mint(self, origin: Origin, now: i64) -> (r: (Auth, Result<String, Error>))
        requires
            self.wf(),
            now + LINK_TTL_SECS <= i64::MAX,
        ensures
            r.0.wf(),
            match r.1 {
                Ok(nonce) => !(origin is Public) && operator_auth::credential(nonce@) && r.0@ == (
                AuthView {
                    links: pruned(self@, now).links.insert(
                        operator_auth::digest_of(nonce@),
                        (origin, (now + LINK_TTL_SECS) as i64),
                    ),
                    ..pruned(self@, now)
                }),
                Err(e) => if origin is Public {
                    operator_auth::refuses(
                        e,
                        "invalid_request"@,
                        "public sessions open through a verified assertion, not a login link"@,
                    ) && r.0@ == self@
                } else {
                    e is Internal && r.0@ == self@
                },
            },
    {
        if origin == Origin::Public {
            return (
                self,
                Err(
                    Error::Invalid {
                        code: "invalid_request",
                        message: "public sessions open through a verified assertion, not a login link".to_owned(),
                    },
                ),
            );
        }
        match random_credential() {
            Ok(nonce) => {
                let a = self.mint_with(origin, nonce.as_str(), now);
                (a, Ok(nonce))
            },
            Err(e) => (self, Err(e)),
        }
    }

    /// Exchanges a nonce. A link that is named is spent by the first
    /// attempt, whatever the outcome.
    pub fn exchange_nonce(self, nonce: &str, origin: Origin, now: i64) -> (r: (
        Auth,
        Result<(), LinkRefusal>,
    ))
        requires
            self.wf(),
        ensures
            r.0.wf(),
            r.0@ == exchanged(pruned(self@, now), nonce@),
            r.1 == exchange(pruned(self@, now), nonce@, origin, now),
    {
        let (a, _changed) = self.prune(now);
        let mut a = a;
        if !well_formed(nonce) {
            return (a, Err(LinkRefusal::Malformed));
        }
        let hash = digest(nonce);
        if a.spent.get(hash.as_str()).is_some() {
            return (a, Err(LinkRefusal::AlreadyUsed));
        }
        let ghost before = a@;
        let (minted_for, expires) = match a.links.remove(hash.as_str()) {
            Some(p) => p,
            None => {
                assert(before.links.remove(hash@) =~= before.links);
                return (a, Err(LinkRefusal::Unknown));
            },
        };
        a.spent.insert(hash.as_str(), minted_for, expires);
        if now > expires {
            return (a, Err(LinkRefusal::Expired));
        }
        if minted_for != origin {
            return (a, Err(LinkRefusal::WrongOrigin));
        }
        (a, Ok(()))
    }

    /// Opens a session with given credentials.
    pub fn create_with(
        self,
        origin: Origin,
        user_agent: &str,
        token: String,
        key: String,
        now: i64,
    ) -> (r: (Auth, Opened))
        requires
            self.wf(),
            now + ABSOLUTE_SECS <= i64::MAX,
            !(origin is Public),
        ensures
            r.0.wf(),
            r.0@ == created(self@, token@, key@, origin, user_agent@, now),
            r.1.token@ == token@,
            r.1.key@ == key@,
            shows(r.1.session, r.0@.sessions.last()),
    {
        let mut a = self;
        let row = Row {
            hash: digest(token.as_str()),
            key_hash: digest(key.as_str()),
            origin,
            created: now,
            last_used: now,
            expires_at: now + ABSOLUTE_SECS,
            user_agent: clean_user_agent(user_agent),
            user: None,
        };
        let session = row.show();
        let ghost o = a.sessions@;
        let ghost rv = row@;
        a.sessions.push(row);
        assert(row_views(a.sessions@) =~= row_views(o).push(rv));
        (a, Opened { token, key, session })
    }

    /// Exchanges a nonce for a session on an origin.
    pub fn open(self, nonce: &str, origin: Origin, user_agent: &str, now: i64) -> (r: (
        Auth,
        Result<Result<Opened, Error>, LinkRefusal>,
    ))
        requires
            self.wf(),
            now + ABSOLUTE_SECS <= i64::MAX,
        ensures
            r.0.wf(),
            ({
                let p = pruned(self@, now);
                let e = exchanged(p, nonce@);
                match r.1 {
                    Err(why) => exchange(p, nonce@, origin, now) == Err::<(), LinkRefusal>(why)
                        && r.0@ == e,
                    Ok(Ok(o)) => {
                        &&& exchange(p, nonce@, origin, now) is Ok
                        &&& operator_auth::credential(o.token@)
                        &&& operator_auth::credential(o.key@)
                        &&& !(origin is Public)
                        &&& r.0@ == created(e, o.token@, o.key@, origin, user_agent@, now)
                        &&& shows(o.session, r.0@.sessions.last())
                    },
                    Ok(Err(fault)) => {
                        &&& exchange(p, nonce@, origin, now) is Ok
                        &&& r.0@ == e
                        &&& fault is Internal
                        &&& origin is Public ==> fault.text()
                            == "a link never opens a public session"@
                    },
                }
            }),
    {
        let (a, outcome) = self.exchange_nonce(nonce, origin, now);
        if let Err(why) = outcome {
            return (a, Err(why));
        }
        if origin == Origin::Public {
            return (
                a,
                Ok(
                    Err(
                        Error::Internal("a link never opens a public session".to_owned()),
                    ),
                ),
            );
        }
        let token = match random_credential() {
            Ok(t) => t,
            Err(e) => {
                return (a, Ok(Err(e)));
            },
        };
        let key = match random_credential() {
            Ok(k) => k,
            Err(e) => {
                return (a, Ok(Err(e)));
            },
        };
        let (a, o) = a.create_with(origin, user_agent, token, key, now);
        (a, Ok(Ok(o)))
    }

    /// An assertion was used before.
    pub fn is_used(&self, jti: &str) -> (r: bool)
        requires
            self.wf(),
        ensures
            r == self@.jtis.dom().contains(operator_auth::digest_of(jti@)),
    {
        self.jtis.get(digest(jti).as_str()).is_some()
    }

    /// Opens a public session with a given token.
    pub fn admit_with(
        self,
        user: BoardUser,
        jti: &str,
        jti_exp: i64,
        user_agent: &str,
        token: String,
        now: i64,
    ) -> (r: (Auth, Opened))
        requires
            self.wf(),
            now + PUBLIC_SESSION_SECS <= i64::MAX,
        ensures
            r.0.wf(),
            r.0@ == admitted(self@, user@, jti@, jti_exp, user_agent@, token@, now),
            r.1.token@ == token@,
            r.1.key@ == ""@,
            shows(r.1.session, r.0@.sessions.last()),
    {
        let ghost a0 = self@;
        let mut sessions = drop_sub(self.sessions, user.sub.as_str());
        let row = Row {
            hash: digest(token.as_str()),
            key_hash: "".to_owned(),
            origin: Origin::Public,
            created: now,
            last_used: now,
            expires_at: now + PUBLIC_SESSION_SECS,
            user_agent: clean_user_agent(user_agent),
            user: Some(user),
        };
        let session = row.show();
        let ghost o = sessions@;
        let ghost rv = row@;
        sessions.push(row);
        assert(row_views(sessions@) =~= row_views(o).push(rv));
        let mut jtis = self.jtis;
        jtis.insert(digest(jti).as_str(), Origin::Public, jti_exp);
        (
            Auth { sessions, links: self.links, spent: self.spent, jtis },
            Opened { token, key: "".to_owned(), session },
        )
    }

    /// Opens a public session for a user that a verified assertion names;
    /// nothing where the assertion was used before.
    pub fn open_public(
        self,
        user: BoardUser,
        jti: &str,
        jti_exp: i64,
        user_agent: &str,
        now: i64,
    ) -> (r: (Auth, Result<Option<Opened>, Error>))
        requires
            self.wf(),
            now + PUBLIC_SESSION_SECS <= i64::MAX,
        ensures
            r.0.wf(),
            ({
                let p = pruned(self@, now);
                let used = p.jtis.dom().contains(operator_auth::digest_of(jti@));
                match r.1 {
                    Ok(None) => used && r.0@ == p,
                    Ok(Some(o)) => {
                        &&& !used
                        &&& operator_auth::credential(o.token@)
                        &&& o.key@ == ""@
                        &&& r.0@ == admitted(p, user@, jti@, jti_exp, user_agent@, o.token@, now)
                        &&& shows(o.session, r.0@.sessions.last())
                    },
                    Err(e) => !used && e is Internal && r.0@ == p,
                }
            }),
    {
        let (a, _changed) = self.prune(now);
        if a.is_used(jti) {
            return (a, Ok(None));
        }
        match random_credential() {
            Ok(token) => {
                let (a, o) = a.admit_with(user, jti, jti_exp, user_agent, token, now);
                (a, Ok(Some(o)))
            },
            Err(e) => (a, Err(e)),
        }
    }

    fn touch(self, i: usize, now: i64, dirty: bool) -> (r: (Auth, Checked))
        requires
            self.wf(),
            i < self.sessions@.len(),
        ensures
            r.0.wf(),
            r.0@ == (AuthView {
                sessions: self@.sessions.update(i as int, touched(self@.sessions[i as int], now)),
                ..self@
            }),
            checked(r.1, Some(touched(self@.sessions[i as int], now))),
            r.1.save == (dirty || now - self@.sessions[i as int].last_used >= TOUCH_EVERY_SECS),
    {
        let mut a = self;
        let ghost o = a.sessions@;
        let x = &a.sessions[i];
        let stale = now as i128 - x.last_used as i128 >= TOUCH_EVERY_SECS as i128;
        let row = Row {
            hash: x.hash.clone(),
            key_hash: x.key_hash.clone(),
            origin: x.origin,
            created: x.created,
            last_used: if stale {
                now
            } else {
                x.last_used
            },
            expires_at: x.expires_at,
            user_agent: x.user_agent.clone(),
            user: match &x.user {
                Some(u) => Some(u.copy()),
                None => None,
            },
        };
        let session = row.show();
        let ghost rv = row@;
        a.sessions.set(i, row);
        assert(row_views(a.sessions@) =~= row_views(o).update(i as int, rv));
        (a, Checked { session: Some(session), save: dirty || stale })
    }

    /// The live public session of a token. The cookie alone is its
    /// credential.
    pub fn check_public(self, token: &str, now: i64) -> (r: (Auth, Checked))
        requires
            self.wf(),
        ensures
            r.0.wf(),
            ({
                let p = pruned(self@, now);
                let (a, row) = if operator_auth::credential(token@) {
                    found(p, by_token(token@), now)
                } else {
                    (p, None)
                };
                r.0@ == a && checked(r.1, row) && r.1.save == (a.sessions != self@.sessions)
            }),
    {
        let ghost s0 = self@.sessions;
        let (a, dirty) = self.prune(now);
        let ghost p = a@;
        proof {
            unchanged(s0, lives(now));
        }
        if !well_formed(token) {
            return (a, Checked { session: None, save: dirty });
        }
        let hash = digest(token);
        let ghost f = by_token(token@);
        let ghost d = a@.sessions;
        let mut i: usize = 0;
        let mut hit: Option<usize> = None;
        assert(d.skip(0) =~= d);
        while i < a.sessions.len() && hit.is_none()
            invariant
                d == row_views(a.sessions@),
                f == by_token(token@),
                hash@ == operator_auth::digest_of(token@),
                i <= a.sessions@.len(),
                match hit {
                    Some(k) => k < a.sessions@.len() && first_row(d, f) == Some(k as int),
                    None => match first_row(d.skip(i as int), f) {
                        Some(k) => first_row(d, f) == Some(k + i),
                        None => first_row(d, f) is None,
                    },
                },
            decreases a.sessions.len() - i,
        {
            assert(d.skip(i as int)[0] == a.sessions@[i as int]@);
            assert(d.skip(i as int).drop_first() =~= d.skip(i + 1));
            if a.sessions[i].origin == Origin::Public && same_credential(
                a.sessions[i].hash.as_str(),
                hash.as_str(),
            ) {
                hit = Some(i);
            }
            i = i + 1;
        }
        match hit {
            Some(k) => {
                let ghost t = touched(d[k as int], now);
                assert(t == d[k as int] ==> d.update(k as int, t) =~= d);
                assert(t != d[k as int] ==> d.update(k as int, t) != d) by {
                    assert(d.update(k as int, t)[k as int] == t);
                }
                proof {
                    touch_changes(s0, d, k as int, now, lives(now));
                }
                a.touch(k, now, dirty)
            },
            None => (a, Checked { session: None, save: dirty }),
        }
    }

    /// The live session of a token and a key together, on an origin.
    pub fn check(self, token: &str, key: &str, origin: Origin, now: i64) -> (r: (Auth, Checked))
        requires
            self.wf(),
        ensures
            r.0.wf(),
            ({
                let p = pruned(self@, now);
                let (a, row) = if operator_auth::credential(token@) && operator_auth::credential(
                    key@,
                ) {
                    found(p, by_key(token@, key@, origin), now)
                } else {
                    (p, None)
                };
                r.0@ == a && checked(r.1, row) && r.1.save == (a.sessions != self@.sessions)
            }),
    {
        let ghost s0 = self@.sessions;
        let (a, dirty) = self.prune(now);
        proof {
            unchanged(s0, lives(now));
        }
        if !well_formed(token) || !well_formed(key) {
            return (a, Checked { session: None, save: dirty });
        }
        let hash = digest(token);
        let key_hash = digest(key);
        let ghost f = by_key(token@, key@, origin);
        let ghost d = a@.sessions;
        let mut i: usize = 0;
        let mut hit: Option<usize> = None;
        assert(d.skip(0) =~= d);
        while i < a.sessions.len() && hit.is_none()
            invariant
                d == row_views(a.sessions@),
                f == by_key(token@, key@, origin),
                hash@ == operator_auth::digest_of(token@),
                key_hash@ == operator_auth::digest_of(key@),
                i <= a.sessions@.len(),
                match hit {
                    Some(k) => k < a.sessions@.len() && first_row(d, f) == Some(k as int),
                    None => match first_row(d.skip(i as int), f) {
                        Some(k) => first_row(d, f) == Some(k + i),
                        None => first_row(d, f) is None,
                    },
                },
            decreases a.sessions.len() - i,
        {
            assert(d.skip(i as int)[0] == a.sessions@[i as int]@);
            assert(d.skip(i as int).drop_first() =~= d.skip(i + 1));
            // both are compared in full, whatever the first says
            let token_ok = same_credential(a.sessions[i].hash.as_str(), hash.as_str());
            let key_ok = same_credential(a.sessions[i].key_hash.as_str(), key_hash.as_str());
            if token_ok && key_ok && a.sessions[i].origin == origin {
                hit = Some(i);
            }
            i = i + 1;
        }
        match hit {
            Some(k) => {
                let ghost t = touched(d[k as int], now);
                assert(t == d[k as int] ==> d.update(k as int, t) =~= d);
                assert(t != d[k as int] ==> d.update(k as int, t) != d) by {
                    assert(d.update(k as int, t)[k as int] == t);
                }
                proof {
                    touch_changes(s0, d, k as int, now, lives(now));
                }
                a.touch(k, now, dirty)
            },
            None => (a, Checked { session: None, save: dirty }),
        }
    }

    /// Ends the session of a token, on any origin. It is to be saved where
    /// there was one.
    pub fn revoke_token(self, token: &str) -> (r: (Auth, bool))
        requires
            self.wf(),
        ensures
            r.0.wf(),
            r.0@ == (if operator_auth::credential(token@) {
                AuthView {
                    sessions: self@.sessions.filter(
                        unlike(Some(operator_auth::digest_of(token@)), ""@),
                    ),
                    ..self@
                }
            } else {
                self@
            }),
            r.1 == (r.0@.sessions.len() != self@.sessions.len()),
    {
        if !well_formed(token) {
            return (self, false);
        }
        let hash = digest(token);
        let before = self.sessions.len();
        let sessions = drop_like(self.sessions, Some(hash.as_str()), "");
        let after = sessions.len();
        (
            Auth { sessions, links: self.links, spent: self.spent, jtis: self.jtis },
            before != after,
        )
    }

    /// Ends every session with an id; how many.
    pub fn revoke_id(self, id: &str) -> (r: (Auth, usize))
        requires
            self.wf(),
        ensures
            r.0.wf(),
            r.0@ == without_id(self@, id@),
            r.1 == self@.sessions.len() - r.0@.sessions.len(),
    {
        let before = self.sessions.len();
        let sessions = drop_like(self.sessions, None, id);
        let after = sessions.len();
        (
            Auth { sessions, links: self.links, spent: self.spent, jtis: self.jtis },
            before - after,
        )
    }

    /// Ends every session and voids every link; how many sessions ended.
    pub fn revoke_all(self) -> (r: (Auth, usize))
        requires
            self.wf(),
        ensures
            r.0.wf(),
            r.0@ == voided(self@),
            r.1 == self@.sessions.len(),
    {
        let gone = self.sessions.len();
        let ghost (s0, l0) = (self.spent@, self.links@);
        let mut links = self.links;
        let mut spent = self.spent;
        while links.rows.len() > 0
            invariant
                links.wf(),
                spent.wf(),
                forall|k: Seq<char>| #[trigger]
                    links@.dom().contains(k) ==> l0.dom().contains(k) && links@[k] == l0[k],
                forall|k: Seq<char>| #[trigger]
                    spent@.dom().contains(k) <==> (s0.dom().contains(k) || (l0.dom().contains(k)
                        && !links@.dom().contains(k))),
                forall|k: Seq<char>|
                    l0.dom().contains(k) && !links@.dom().contains(k) ==> #[trigger] spent@[k]
                        == l0[k],
                forall|k: Seq<char>|
                    s0.dom().contains(k) && !l0.dom().contains(k) ==> #[trigger] spent@[k]
                        == s0[k],
            decreases links.rows@.len(),
        {
            let ghost l1 = links@;
            let ghost n = links.rows@.len();
            let key = links.rows[links.rows.len() - 1].key.clone();
            proof {
                links.has_last();
            }
            match links.take_last() {
                Some((o, t)) => {
                    spent.insert(key.as_str(), o, t);
                },
                None => {},
            }
        }
        proof {
            links.empty_rows();
        }
        let sessions: Vec<Row> = Vec::new();
        assert(row_views(sessions@) =~= seq![]);
        assert(links@ =~= Map::empty());
        assert(spent@ =~= s0.union_prefer_right(l0));
        (Auth { sessions, links, spent, jtis: self.jtis }, gone)
    }

    /// The live sessions, oldest first.
    pub fn list(self, now: i64) -> (r: (Auth, Vec<SessionView>, bool))
        requires
            self.wf(),
        ensures
            r.0.wf(),
            r.0@ == pruned(self@, now),
            r.1@.len() == r.0@.sessions.len(),
            forall|i: int| 0 <= i < r.1@.len() ==> shows(#[trigger] r.1@[i], r.0@.sessions[i]),
            r.2 == (r.0@.sessions.len() != self@.sessions.len()),
    {
        let (a, changed) = self.prune(now);
        let mut out: Vec<SessionView> = Vec::new();
        let mut i: usize = 0;
        while i < a.sessions.len()
            invariant
                i <= a.sessions@.len(),
                out@.len() == i,
                forall|k: int| 0 <= k < i ==> shows(#[trigger] out@[k], a@.sessions[k]),
            decreases a.sessions.len() - i,
        {
            assert(a@.sessions[i as int] == a.sessions@[i as int]@);
            out.push(a.sessions[i].show());
            i = i + 1;
        }
        (a, out, changed)
    }
}

/// Dropping rows changes the sessions exactly where it makes them fewer.
proof fn unchanged(v: Seq<RowView>, f: spec_fn(RowView) -> bool)
    ensures
        v.filter(f).len() == v.len() <==> v.filter(f) == v,
        v.filter(f).len() <= v.len(),
    decreases v.len(),
{
    reveal(Seq::filter);
    if v.len() > 0 {
        unchanged(v.drop_last(), f);
        if v.filter(f).len() == v.len() {
            assert(v.drop_last().filter(f).len() == v.len() - 1);
            assert(v.drop_last().push(v.last()) =~= v);
        }
    } else {
        assert(v.filter(f) =~= v);
    }
}

/// What a use writes shows in the sessions.
proof fn touch_changes(
    s0: Seq<RowView>,
    d: Seq<RowView>,
    k: int,
    now: i64,
    f: spec_fn(RowView) -> bool,
)
    requires
        d == s0.filter(f),
        0 <= k < d.len(),
    ensures
        (d.update(k, touched(d[k], now)) != s0) <==> (d.len() != s0.len() || now - d[k].last_used
            >= TOUCH_EVERY_SECS),
{
    unchanged(s0, f);
    let t = touched(d[k], now);
    let u = d.update(k, t);
    if d.len() == s0.len() {
        if now - d[k].last_used >= TOUCH_EVERY_SECS {
            assert(u[k].last_used == now);
            assert(u[k] != s0[k]);
        } else {
            assert(u =~= d);
        }
    }
}

// ---------- laws ----------

/// A link is used once: after an exchange that named it, whatever its
/// outcome, no later exchange of the same nonce succeeds.
pub proof fn a_link_is_single_use(a: AuthView, nonce: Seq<char>, origin: Origin, later: i64)
    requires
        a.links.dom().contains(operator_auth::digest_of(nonce)),
        !a.spent.dom().contains(operator_auth::digest_of(nonce)),
        operator_auth::credential(nonce),
    ensures
        exchange(pruned(exchanged(a, nonce), later), nonce, origin, later) is Err,
        later <= a.links[operator_auth::digest_of(nonce)].1 + LINK_TTL_SECS ==> exchange(
            pruned(exchanged(a, nonce), later),
            nonce,
            origin,
            later,
        ) == Err::<(), LinkRefusal>(LinkRefusal::AlreadyUsed),
{
}

/// A link opens nothing after its lifetime, and nothing on another origin.
pub proof fn a_link_ends_and_keeps_its_origin(
    a: AuthView,
    nonce: Seq<char>,
    origin: Origin,
    now: i64,
)
    requires
        exchange(a, nonce, origin, now) is Ok,
    ensures
        a.links.dom().contains(operator_auth::digest_of(nonce)),
        now <= a.links[operator_auth::digest_of(nonce)].1,
        a.links[operator_auth::digest_of(nonce)].0 == origin,
{
}

/// A fresh link opens a session on its origin, up to the end of its
/// lifetime.
pub proof fn a_fresh_link_opens(a: AuthView, nonce: Seq<char>, origin: Origin, minted: i64, now: i64)
    requires
        operator_auth::credential(nonce),
        minted <= now <= minted + LINK_TTL_SECS <= i64::MAX,
        !a.spent.dom().contains(operator_auth::digest_of(nonce)),
    ensures
        ({
            let b = AuthView {
                links: pruned(a, minted).links.insert(
                    operator_auth::digest_of(nonce),
                    (origin, (minted + LINK_TTL_SECS) as i64),
                ),
                ..pruned(a, minted)
            };
            exchange(pruned(b, now), nonce, origin, now) is Ok
        }),
{
}

/// Exchanges of other nonces never spend a link: however many fail, a live
/// link still opens.
pub proof fn bogus_nonces_spend_nothing(
    a: AuthView,
    live: Seq<char>,
    bogus: Seq<char>,
    origin: Origin,
    now: i64,
)
    requires
        exchange(a, live, origin, now) is Ok,
        operator_auth::digest_of(bogus) != operator_auth::digest_of(live),
    ensures
        exchange(exchanged(a, bogus), live, origin, now) is Ok,
{
}

pub(crate) proof fn filter_keeps(v: Seq<RowView>, f: spec_fn(RowView) -> bool, i: int)
    requires
        0 <= i < v.filter(f).len(),
    ensures
        f(v.filter(f)[i]),
        v.contains(v.filter(f)[i]),
    decreases v.len(),
{
    reveal(Seq::filter);
    let rest = v.drop_last();
    if i < rest.filter(f).len() {
        filter_keeps(rest, f, i);
        let k = choose|k: int| 0 <= k < rest.len() && rest[k] == rest.filter(f)[i];
        assert(v[k] == rest.filter(f)[i]);
    } else {
        assert(v[v.len() - 1] == v.last());
    }
}

pub(crate) proof fn first_row_is(v: Seq<RowView>, f: spec_fn(RowView) -> bool)
    ensures
        match first_row(v, f) {
            Some(i) => 0 <= i < v.len() && f(v[i]),
            None => forall|i: int| 0 <= i < v.len() ==> !f(#[trigger] v[i]),
        },
    decreases v.len(),
{
    if v.len() > 0 && !f(v[0]) {
        first_row_is(v.drop_first(), f);
        if first_row(v.drop_first(), f) is None {
            assert forall|i: int| 0 <= i < v.len() implies !f(#[trigger] v[i]) by {
                if i > 0 {
                    assert(!f(v.drop_first()[i - 1]));
                }
            }
        }
    }
}

/// Whatever a check finds was live: within its absolute lifetime, and used
/// within the idle time.
pub proof fn only_live_sessions_are_found(a: AuthView, f: spec_fn(RowView) -> bool, now: i64)
    ensures
        match found(pruned(a, now), f, now).1 {
            Some(r) => now < r.expires_at && exists|i: int|
                0 <= i < a.sessions.len() && f(#[trigger] a.sessions[i]) && now
                    - a.sessions[i].last_used < IDLE_SECS && r == touched(a.sessions[i], now),
            None => true,
        },
{
    let p = pruned(a, now);
    first_row_is(p.sessions, f);
    if let Some(k) = first_row(p.sessions, f) {
        filter_keeps(a.sessions, lives(now), k);
        let i = choose|i: int| 0 <= i < a.sessions.len() && a.sessions[i] == p.sessions[k];
        assert(f(a.sessions[i]));
    }
}

/// A session is found only by both of its credentials, on its own origin;
/// so a public one is never found on another.
pub proof fn a_session_needs_both_credentials(
    a: AuthView,
    token: Seq<char>,
    key: Seq<char>,
    origin: Origin,
    now: i64,
)
    ensures
        match found(a, by_key(token, key, origin), now).1 {
            Some(r) => operator_auth::twins(r.hash, operator_auth::digest_of(token))
                && operator_auth::twins(r.key_hash, operator_auth::digest_of(key)) && r.origin
                == origin,
            None => true,
        },
{
    first_row_is(a.sessions, by_key(token, key, origin));
}

/// A session that was opened is found by its credentials on its origin.
pub proof fn an_opened_session_is_found(
    a: AuthView,
    token: Seq<char>,
    key: Seq<char>,
    origin: Origin,
    user_agent: Seq<char>,
    now: i64,
    later: i64,
)
    requires
        !(origin is Public),
        now <= later < now + IDLE_SECS,
        now + ABSOLUTE_SECS <= i64::MAX,
    ensures
        found(
            pruned(created(a, token, key, origin, user_agent, now), later),
            by_key(token, key, origin),
            later,
        ).1 is Some,
{
    let c = created(a, token, key, origin, user_agent, now);
    let p = pruned(c, later);
    let f = by_key(token, key, origin);
    let r = c.sessions.last();
    reveal(Seq::filter);
    assert(c.sessions.drop_last() =~= a.sessions);
    assert(r.live(later));
    assert(p.sessions == a.sessions.filter(lives(later)).push(r));
    first_row_is(p.sessions, f);
    assert(f(p.sessions[p.sessions.len() - 1]));
}

/// A user has one public session: a new one ends the earlier, and no other
/// session.
pub proof fn one_public_session_per_user(
    a: AuthView,
    user: UserView,
    jti: Seq<char>,
    exp: i64,
    user_agent: Seq<char>,
    token: Seq<char>,
    now: i64,
    i: int,
)
    requires
        0 <= i < admitted(a, user, jti, exp, user_agent, token, now).sessions.len() - 1,
    ensures
        ({
            let r = admitted(a, user, jti, exp, user_agent, token, now).sessions[i];
            other_sub(user.sub)(r) && a.sessions.contains(r)
        }),
{
    filter_keeps(a.sessions, other_sub(user.sub), i);
}

/// An assertion opens one session: until it ends it stays used.
pub proof fn an_assertion_is_single_use(
    a: AuthView,
    user: UserView,
    jti: Seq<char>,
    exp: i64,
    user_agent: Seq<char>,
    token: Seq<char>,
    now: i64,
    later: i64,
)
    requires
        later <= exp,
    ensures
        pruned(admitted(a, user, jti, exp, user_agent, token, now), later).jtis.dom().contains(
            operator_auth::digest_of(jti),
        ),
{
}

/// A public session lives for 60 minutes at most, however much it is used.
pub proof fn a_public_session_ends(
    token: Seq<char>,
    user_agent: Seq<char>,
    user: UserView,
    now: i64,
    used: i64,
    later: i64,
)
    requires
        now + PUBLIC_SESSION_SECS <= later,
    ensures
        !touched(
            new_row(token, ""@, Origin::Public, user_agent, Some(user), now),
            used,
        ).live(later),
{
}

} // verus!
