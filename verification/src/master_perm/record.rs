//! The record of requests and grants, the operator's rules, and whether a
//! command may run by them.
use crate::error::Error;
use crate::hash;
use crate::master_perm;
use crate::master_perm::{
    arg_ok, classify, normalize_argv, Class, ClassView, Facts, Risk, ALIAS, REASON_MAX, TTL_SECS,
};
use crate::text;
use vstd::prelude::*;

verus! {

#[derive(Clone, Copy, Debug, PartialEq, Eq, Structural)]
pub enum Scope {
    /// The exact command and directory.
    Exact,
    /// A fixed head, then argument patterns.
    Prefix,
}

#[derive(Clone, Copy, Debug, PartialEq, Eq, Structural)]
pub enum Effect {
    Allow,
    Deny,
}

#[derive(Clone, Debug)]
pub struct Request {
    pub id: String,
    pub argv: Vec<String>,
    pub cwd: String,
    pub reason: String,
    pub requested_by: String,
    pub created: i64,
    pub expires_at: i64,
    /// `pending`, `allowed`, `rejected` or `expired`.
    pub status: String,
    pub risk: Risk,
    /// How it was decided: `allow_once`, `always`, `reject`, or nothing.
    pub decision: String,
    pub decision_label: String,
}

pub struct RequestView {
    pub id: Seq<char>,
    pub argv: Seq<Seq<char>>,
    pub cwd: Seq<char>,
    pub reason: Seq<char>,
    pub requested_by: Seq<char>,
    pub created: i64,
    pub expires_at: i64,
    pub status: Seq<char>,
    pub risk: Risk,
    pub decision: Seq<char>,
    pub decision_label: Seq<char>,
}

impl View for Request {
    type V = RequestView;

    open spec fn view(&self) -> RequestView {
        RequestView {
            id: self.id@,
            argv: self.argv.deep_view(),
            cwd: self.cwd@,
            reason: self.reason@,
            requested_by: self.requested_by@,
            created: self.created,
            expires_at: self.expires_at,
            status: self.status@,
            risk: self.risk,
            decision: self.decision@,
            decision_label: self.decision_label@,
        }
    }
}

/// A grant for one use of one exact command in one directory.
#[derive(Clone, Debug)]
pub struct Grant {
    pub id: String,
    pub request_id: String,
    pub argv: Vec<String>,
    pub cwd: String,
    pub uses_left: u32,
    pub expires_at: i64,
}

pub struct GrantView {
    pub id: Seq<char>,
    pub request_id: Seq<char>,
    pub argv: Seq<Seq<char>>,
    pub cwd: Seq<char>,
    pub uses_left: u32,
    pub expires_at: i64,
}

impl View for Grant {
    type V = GrantView;

    open spec fn view(&self) -> GrantView {
        GrantView {
            id: self.id@,
            request_id: self.request_id@,
            argv: self.argv.deep_view(),
            cwd: self.cwd@,
            uses_left: self.uses_left,
            expires_at: self.expires_at,
        }
    }
}

#[derive(Clone, Debug)]
pub struct Rule {
    pub id: String,
    pub effect: Effect,
    pub scope: Scope,
    /// The exact command, or the head of a prefix rule.
    pub argv: Vec<String>,
    /// The patterns of a prefix rule.
    pub tail: Vec<String>,
    pub cwd: String,
    pub by: String,
    pub at: i64,
}

pub struct RuleView {
    pub id: Seq<char>,
    pub effect: Effect,
    pub scope: Scope,
    pub argv: Seq<Seq<char>>,
    pub tail: Seq<Seq<char>>,
    pub cwd: Seq<char>,
    pub by: Seq<char>,
    pub at: i64,
}

impl View for Rule {
    type V = RuleView;

    open spec fn view(&self) -> RuleView {
        RuleView {
            id: self.id@,
            effect: self.effect,
            scope: self.scope,
            argv: self.argv.deep_view(),
            tail: self.tail.deep_view(),
            cwd: self.cwd@,
            by: self.by@,
            at: self.at,
        }
    }
}

/// The record.
#[derive(Clone, Debug)]
pub struct Doc {
    pub requests: Vec<Request>,
    pub grants: Vec<Grant>,
}

pub struct DocView {
    pub requests: Seq<RequestView>,
    pub grants: Seq<GrantView>,
}

pub open spec fn request_views(v: Seq<Request>) -> Seq<RequestView> {
    v.map_values(|r: Request| r@)
}

pub open spec fn grant_views(v: Seq<Grant>) -> Seq<GrantView> {
    v.map_values(|g: Grant| g@)
}

pub open spec fn rule_views(v: Seq<Rule>) -> Seq<RuleView> {
    v.map_values(|r: Rule| r@)
}

impl View for Doc {
    type V = DocView;

    open spec fn view(&self) -> DocView {
        DocView {
            requests: request_views(self.requests@),
            grants: grant_views(self.grants@),
        }
    }
}

impl Doc {
    pub fn empty() -> (r: Doc)
        ensures
            r@.requests.len() == 0,
            r@.grants.len() == 0,
    {
        Doc { requests: Vec::new(), grants: Vec::new() }
    }
}

fn rejected(s: &str) -> (r: Error)
    ensures
        r is Rejected,
        r.text() == s@,
{
    Error::Rejected(s.to_owned())
}

fn copy_request(q: &Request) -> (r: Request)
    ensures
        r@ == q@,
{
    Request {
        id: q.id.clone(),
        argv: text::copy_names(&q.argv),
        cwd: q.cwd.clone(),
        reason: q.reason.clone(),
        requested_by: q.requested_by.clone(),
        created: q.created,
        expires_at: q.expires_at,
        status: q.status.clone(),
        risk: q.risk,
        decision: q.decision.clone(),
        decision_label: q.decision_label.clone(),
    }
}

// ---------- identifiers ----------

/// The form of an identifier: a prefix, a hyphen and 12 hex digits.
pub open spec fn is_id(s: Seq<char>, prefix: Seq<char>) -> bool {
    &&& s.len() == prefix.len() + 13
    &&& s.take(prefix.len() as int + 1) == prefix + "-"@
    &&& forall|i: int| prefix.len() < i < s.len() ==> hash::lower_hex(#[trigger] s[i])
}

/// A fresh identifier; its digits rest on chance.
fn fresh_id(prefix: &str) -> (r: String)
    ensures
        is_id(r@, prefix@),
{
    let n = hash::fresh_uuid();
    let v = text::chars_of(n.as_str());
    let digits = text::string_of(v.as_slice(), 0, 12);
    let r = prefix.to_owned().concat("-").concat(digits.as_str());
    proof {
        reveal_strlit("-");
        assert(r@.take(prefix@.len() as int + 1) =~= prefix@ + "-"@);
        assert forall|i: int| prefix@.len() < i < r@.len() implies hash::lower_hex(
            #[trigger] r@[i],
        ) by {
            assert(r@[i] == digits@[i - prefix@.len() - 1]);
            assert(digits@[i - prefix@.len() - 1] == n@[i - prefix@.len() - 1]);
        }
    }
    r
}

// ---------- expiry ----------

pub open spec fn aged(q: RequestView, now: i64) -> RequestView {
    if q.status == "pending"@ && q.expires_at <= now {
        RequestView { status: "expired"@, ..q }
    } else {
        q
    }
}

pub open spec fn live(now: i64) -> spec_fn(GrantView) -> bool {
    |g: GrantView| g.expires_at > now && g.uses_left > 0
}

/// The record at a time: requests that ran out are expired, and grants
/// that ran out or were used are gone.
pub open spec fn expired(d: DocView, now: i64) -> DocView {
    DocView {
        requests: d.requests.map_values(|q: RequestView| aged(q, now)),
        grants: d.grants.filter(live(now)),
    }
}

pub fn expire(doc: Doc, now: i64) -> (r: Doc)
    ensures
        r@ == expired(doc@, now),
{
    let ghost d = doc@;
    let ghost qs = request_views(doc.requests@);
    let ghost gs = grant_views(doc.grants@);
    let mut requests: Vec<Request> = Vec::new();
    let ghost want = qs.map_values(|q: RequestView| aged(q, now));
    assert(request_views(requests@) =~= want.take(0));
    let ghost all = doc.requests@;
    for q in it: doc.requests
        invariant
            it.seq() == all,
            qs == request_views(all),
            want == qs.map_values(|q: RequestView| aged(q, now)),
            request_views(requests@) == want.take(it.index()),
    {
        let ghost n = it.index();
        let ghost o = requests@;
        assert(qs[n as int] == q@);
        let mut q = q;
        if text::eq(q.status.as_str(), "pending") && q.expires_at <= now {
            q.status = "expired".to_owned();
        }
        assert(q@ == want[n as int]);
        requests.push(q);
        assert(request_views(requests@) =~= request_views(o).push(want[n as int]));
        assert(want.take(n + 1) =~= request_views(o).push(want[n as int]));
    }
    assert(want.take(want.len() as int) =~= want);
    let mut grants: Vec<Grant> = Vec::new();
    let ghost f = live(now);
    let ghost allg = doc.grants@;
    proof {
        reveal(Seq::filter);
        assert(gs.take(0) =~= Seq::empty());
        assert(grant_views(grants@) =~= gs.take(0).filter(f));
    }
    for g in it: doc.grants
        invariant
            it.seq() == allg,
            gs == grant_views(allg),
            f == live(now),
            grant_views(grants@) == gs.take(it.index()).filter(f),
    {
        let ghost n = it.index();
        let ghost o = grants@;
        proof {
            reveal(Seq::filter);
            assert(gs.take(n + 1).drop_last() =~= gs.take(n));
            assert(gs.take(n + 1).last() == g@);
        }
        if g.expires_at > now && g.uses_left > 0 {
            let ghost gv = g@;
            grants.push(g);
            assert(grant_views(grants@) =~= grant_views(o).push(gv));
        }
    }
    assert(gs.take(gs.len() as int) =~= gs);
    Doc { requests, grants }
}

// ---------- asking ----------

/// The class of a command in a directory, where the directory is there.
pub open spec fn class_at(
    argv: Seq<Seq<char>>,
    f: Option<&Facts>,
    list: Seq<Seq<char>>,
) -> Option<ClassView> {
    match f {
        Some(f) => Some(master_perm::class(master_perm::normal(argv), *f, list)),
        None => None,
    }
}

/// Why a command cannot be asked for, if it cannot. `cwd` is its directory
/// as it was written, and it has a class where that is there.
pub open spec fn ask_fault(
    reason: Seq<char>,
    by: Seq<char>,
    cwd: Seq<char>,
    class: Option<ClassView>,
) -> Option<Seq<char>> {
    let r = text::trim(reason);
    if r.len() == 0 || vstd::utf8::encode_utf8(r).len() > REASON_MAX {
        Some("a reason is 1-500 characters"@)
    } else if by != ALIAS@ {
        Some("only the master requests permission — this caller is not the master"@)
    } else {
        match class {
            None => Some(
                "cwd "@ + cwd + " does not exist — a request records a real directory"@,
            ),
            Some(ClassView::Allowlisted) => Some(
                "that command is already allowlisted — run it, do not ask"@,
            ),
            Some(ClassView::Never(why)) => Some(
                why + " — it cannot be approved and no permission rule can cover it"@,
            ),
            Some(ClassView::IllFormed(why)) => Some(why),
            Some(ClassView::Requestable(_)) => None,
        }
    }
}

/// A pending request for the same command and directory.
pub open spec fn same_ask(q: RequestView, argv: Seq<Seq<char>>, cwd: Seq<char>) -> bool {
    q.status == "pending"@ && q.argv == argv && q.cwd == cwd
}

pub open spec fn first_ask(v: Seq<RequestView>, argv: Seq<Seq<char>>, cwd: Seq<char>) -> Option<int>
    decreases v.len(),
{
    if v.len() == 0 {
        None
    } else {
        match first_ask(v.drop_last(), argv, cwd) {
            Some(i) => Some(i),
            None => if same_ask(v.last(), argv, cwd) {
                Some(v.len() - 1)
            } else {
                None
            },
        }
    }
}

pub open spec fn new_request(
    id: Seq<char>,
    argv: Seq<Seq<char>>,
    cwd: Seq<char>,
    reason: Seq<char>,
    by: Seq<char>,
    risk: Risk,
    now: i64,
) -> RequestView {
    RequestView {
        id,
        argv,
        cwd,
        reason: text::trim(reason),
        requested_by: by,
        created: now,
        expires_at: (now + TTL_SECS) as i64,
        status: "pending"@,
        risk,
        decision: seq![],
        decision_label: seq![],
    }
}

/// The request of a command: the one that is pending, else a new one.
pub open spec fn asked(
    d: DocView,
    id: Seq<char>,
    argv: Seq<Seq<char>>,
    cwd: Seq<char>,
    reason: Seq<char>,
    by: Seq<char>,
    risk: Risk,
    now: i64,
) -> (DocView, RequestView) {
    let e = expired(d, now);
    match first_ask(e.requests, argv, cwd) {
        Some(i) => (e, e.requests[i]),
        None => {
            let q = new_request(id, argv, cwd, reason, by, risk, now);
            (DocView { requests: e.requests.push(q), ..e }, q)
        },
    }
}

fn find_ask(v: &Vec<Request>, argv: &Vec<String>, cwd: &str) -> (r: Option<usize>)
    ensures
        match r {
            Some(i) => i < v@.len() && first_ask(
                request_views(v@),
                argv.deep_view(),
                cwd@,
            ) == Some(i as int),
            None => first_ask(request_views(v@), argv.deep_view(), cwd@) is None,
        },
{
    let ghost d = request_views(v@);
    let mut i: usize = 0;
    assert(d.take(0) =~= Seq::empty());
    while i < v.len()
        invariant
            d == request_views(v@),
            i <= v@.len(),
            first_ask(d.take(i as int), argv.deep_view(), cwd@) is None,
        decreases v.len() - i,
    {
        assert(d.take(i + 1).drop_last() =~= d.take(i as int));
        assert(d.take(i + 1).last() == v@[i as int]@);
        let q = &v[i];
        if text::eq(q.status.as_str(), "pending") && text::same_list(&q.argv, argv) && text::eq(
            q.cwd.as_str(),
            cwd,
        ) {
            proof {
                assert(first_ask(d.take(i + 1), argv.deep_view(), cwd@) == Some(i as int));
                ask_stays(d, i + 1, argv.deep_view(), cwd@);
            }
            return Some(i);
        }
        i = i + 1;
    }
    assert(d.take(i as int) =~= d);
    None
}

proof fn ask_stays(v: Seq<RequestView>, n: int, argv: Seq<Seq<char>>, cwd: Seq<char>)
    requires
        0 <= n <= v.len(),
        first_ask(v.take(n), argv, cwd) is Some,
    ensures
        first_ask(v, argv, cwd) == first_ask(v.take(n), argv, cwd),
    decreases v.len(),
{
    if n < v.len() {
        assert(v.drop_last().take(n) =~= v.take(n));
        ask_stays(v.drop_last(), n, argv, cwd);
    } else {
        assert(v.take(n) =~= v);
    }
}

pub open spec fn class_opt(c: Option<Class>) -> Option<ClassView> {
    match c {
        Some(c) => Some(c@),
        None => None,
    }
}

fn check_ask(reason: &str, by: &str, cwd: &str, class: &Option<Class>) -> (r: Result<Risk, Error>)
    ensures
        match r {
            Ok(k) => ask_fault(reason@, by@, cwd@, class_opt(*class)) is None && class_opt(*class)
                == Some(ClassView::Requestable(k)),
            Err(e) => e is Rejected && ask_fault(reason@, by@, cwd@, class_opt(*class)) == Some(
                e.text(),
            ),
        },
{
    let t = text::trim_of(reason);
    proof {
        reveal_strlit("");
        assert(t@.len() == 0 ==> t@ =~= ""@);
    }
    if text::eq(t.as_str(), "") || text::byte_len(t.as_str()) > REASON_MAX {
        return Err(rejected("a reason is 1-500 characters"));
    }
    if !text::eq(by, ALIAS) {
        return Err(
            rejected("only the master requests permission — this caller is not the master"),
        );
    }
    match class {
        None => Err(
            Error::Rejected(
                "cwd ".to_owned().concat(cwd).concat(
                    " does not exist — a request records a real directory",
                ),
            ),
        ),
        Some(Class::Allowlisted) => Err(
            rejected("that command is already allowlisted — run it, do not ask"),
        ),
        Some(Class::Never { why }) => Err(
            Error::Rejected(
                (*why).to_owned().concat(
                    " — it cannot be approved and no permission rule can cover it",
                ),
            ),
        ),
        Some(Class::IllFormed { why }) => Err(rejected(*why)),
        Some(Class::Requestable { risk }) => Ok(*risk),
    }
}

/// The request under a given identifier.
pub fn ask_with(
    doc: Doc,
    id: &str,
    argv: &Vec<String>,
    cwd: &str,
    reason: &str,
    by: &str,
    risk: Risk,
    now: i64,
) -> (r: (Doc, Request))
    requires
        now + TTL_SECS <= i64::MAX,
    ensures
        (r.0@, r.1@) == asked(doc@, id@, argv.deep_view(), cwd@, reason@, by@, risk, now),
{
    let mut doc = expire(doc, now);
    if let Some(i) = find_ask(&doc.requests, argv, cwd) {
        let q = copy_request(&doc.requests[i]);
        return (doc, q);
    }
    let e = String::new();
    let q = Request {
        id: id.to_owned(),
        argv: text::copy_names(argv),
        cwd: cwd.to_owned(),
        reason: text::trim_of(reason),
        requested_by: by.to_owned(),
        created: now,
        expires_at: now + TTL_SECS,
        status: "pending".to_owned(),
        risk,
        decision: String::new(),
        decision_label: e,
    };
    assert(q@.decision =~= seq![]);
    assert(q@.decision_label =~= seq![]);
    let out = copy_request(&q);
    let ghost o = doc.requests@;
    let ghost qv = q@;
    doc.requests.push(q);
    assert(request_views(doc.requests@) =~= request_views(o).push(qv));
    (doc, out)
}

/// Asks for permission to run a command in a directory. `f` holds what is
/// known of the directory, where it is there, and `list` is the static
/// allowlist.
pub fn ask(
    doc: Doc,
    argv: &Vec<String>,
    cwd: &str,
    f: Option<&Facts>,
    list: &Vec<String>,
    reason: &str,
    by: &str,
    now: i64,
) -> (r: Result<(Doc, Request), Error>)
    requires
        now + TTL_SECS <= i64::MAX,
        f is Some ==> f->0.resolved@.len() == argv@.len(),
    ensures
        ({
            let class = class_at(argv.deep_view(), f, list.deep_view());
            match r {
                Err(e) => e is Rejected && ask_fault(reason@, by@, cwd@, class) == Some(e.text()),
                Ok(p) => f is Some && ask_fault(reason@, by@, cwd@, class) is None && exists|
                    id: Seq<char>,
                |
                    is_id(id, "mp"@) && (p.0@, p.1@) == #[trigger] asked(
                        doc@,
                        id,
                        master_perm::normal(argv.deep_view()),
                        f->0.cwd@,
                        reason@,
                        by@,
                        class->0->Requestable_0,
                        now,
                    ),
            }
        }),
{
    let class = match f {
        Some(f) => Some(classify(argv, f, list)),
        None => None,
    };
    let risk = match check_ask(reason, by, cwd, &class) {
        Ok(k) => k,
        Err(e) => {
            return Err(e);
        },
    };
    let dir = match f {
        Some(f) => f.cwd.as_str(),
        None => cwd,
    };
    let argv = normalize_argv(argv);
    let id = fresh_id("mp");
    let ghost d0 = doc@;
    let p = ask_with(doc, id.as_str(), &argv, dir, reason, by, risk, now);
    assert((p.0@, p.1@) == asked(d0, id@, argv.deep_view(), dir@, reason@, by@, risk, now));
    Ok(p)
}

// ---------- deciding ----------

/// The first request with an identifier.
pub open spec fn request_at(v: Seq<RequestView>, id: Seq<char>) -> Option<int>
    decreases v.len(),
{
    if v.len() == 0 {
        None
    } else {
        match request_at(v.drop_last(), id) {
            Some(i) => Some(i),
            None => if v.last().id == id {
                Some(v.len() - 1)
            } else {
                None
            },
        }
    }
}

/// The request that can be decided, or why it cannot.
pub open spec fn decidable(d: DocView, id: Seq<char>) -> Result<int, Seq<char>> {
    match request_at(d.requests, id) {
        None => Err("no permission request '"@ + id + "'"@),
        Some(i) => if d.requests[i].status != "pending"@ {
            Err(
                "permission request '"@ + id + "' is "@ + d.requests[i].status
                    + " — it cannot be decided again"@,
            )
        } else {
            Ok(i)
        },
    }
}

fn find_request(v: &Vec<Request>, id: &str) -> (r: Option<usize>)
    ensures
        match r {
            Some(i) => i < v@.len() && request_at(request_views(v@), id@) == Some(i as int),
            None => request_at(request_views(v@), id@) is None,
        },
{
    let ghost d = request_views(v@);
    let mut i: usize = 0;
    assert(d.take(0) =~= Seq::empty());
    while i < v.len()
        invariant
            d == request_views(v@),
            i <= v@.len(),
            request_at(d.take(i as int), id@) is None,
        decreases v.len() - i,
    {
        assert(d.take(i + 1).drop_last() =~= d.take(i as int));
        assert(d.take(i + 1).last() == v@[i as int]@);
        if text::eq(v[i].id.as_str(), id) {
            proof {
                assert(request_at(d.take(i + 1), id@) == Some(i as int));
                request_stays(d, i + 1, id@);
            }
            return Some(i);
        }
        i = i + 1;
    }
    assert(d.take(i as int) =~= d);
    None
}

proof fn request_stays(v: Seq<RequestView>, n: int, id: Seq<char>)
    requires
        0 <= n <= v.len(),
        request_at(v.take(n), id) is Some,
    ensures
        request_at(v, id) == request_at(v.take(n), id),
    decreases v.len(),
{
    if n < v.len() {
        assert(v.drop_last().take(n) =~= v.take(n));
        request_stays(v.drop_last(), n, id);
    } else {
        assert(v.take(n) =~= v);
    }
}

fn pending(doc: &Doc, id: &str) -> (r: Result<usize, Error>)
    ensures
        match r {
            Ok(i) => decidable(doc@, id@) == Ok::<int, Seq<char>>(i as int) && i
                < doc.requests@.len(),
            Err(e) => e is Rejected && decidable(doc@, id@) == Err::<int, Seq<char>>(e.text()),
        },
{
    match find_request(&doc.requests, id) {
        None => Err(
            Error::Rejected("no permission request '".to_owned().concat(id).concat("'")),
        ),
        Some(i) => {
            if !text::eq(doc.requests[i].status.as_str(), "pending") {
                return Err(
                    Error::Rejected(
                        "permission request '".to_owned().concat(id).concat("' is ").concat(
                            doc.requests[i].status.as_str(),
                        ).concat(" — it cannot be decided again"),
                    ),
                );
            }
            Ok(i)
        },
    }
}

pub open spec fn two_digits(n: int) -> Seq<char> {
    seq![text::digit(n / 10), text::digit(n % 10)]
}

/// The time of day, as hours and minutes in UTC.
pub open spec fn hm(now: i64) -> Seq<char> {
    let day = now as int % 86400;
    two_digits(day / 3600) + ":"@ + two_digits((day % 3600) / 60)
}

fn two_digits_of(n: u64) -> (r: String)
    requires
        n < 100,
    ensures
        r@ == two_digits(n as int),
{
    let a = text::dec_of(n / 10);
    let b = text::dec_of(n % 10);
    assert(text::dec((n / 10) as nat) =~= seq![text::digit((n / 10) as int)]);
    assert(text::dec((n % 10) as nat) =~= seq![text::digit((n % 10) as int)]);
    let r = a.concat(b.as_str());
    assert(r@ =~= two_digits(n as int));
    r
}

fn decision_hm(now: i64) -> (r: String)
    ensures
        r@ == hm(now),
{
    let day: u64 = if now >= 0 {
        (now as u64) % 86400
    } else {
        86399 - ((-(now + 1)) as u64) % 86400
    };
    assert(day == now as int % 86400);
    two_digits_of(day / 3600).concat(":").concat(two_digits_of((day % 3600) / 60).as_str())
}

pub open spec fn decided(q: RequestView, status: Seq<char>, decision: Seq<char>, label: Seq<char>) -> RequestView {
    RequestView { status, decision, decision_label: label, ..q }
}

pub open spec fn grant_of(q: RequestView, id: Seq<char>, now: i64) -> GrantView {
    GrantView {
        id,
        request_id: q.id,
        argv: q.argv,
        cwd: q.cwd,
        uses_left: 1,
        expires_at: (now + TTL_SECS) as i64,
    }
}

/// The record and the request once it is allowed, under a given grant
/// identifier; or why it cannot be decided.
pub open spec fn allowed_once(d: DocView, id: Seq<char>, grant: Seq<char>, now: i64) -> Result<
    (DocView, RequestView),
    Seq<char>,
> {
    let e = expired(d, now);
    match decidable(e, id) {
        Err(why) => Err(why),
        Ok(i) => {
            let q = decided(
                e.requests[i],
                "allowed"@,
                "allow_once"@,
                "Allowed once by operator "@ + hm(now),
            );
            Ok(
                (
                    DocView {
                        requests: e.requests.update(i, q),
                        grants: e.grants.push(grant_of(q, grant, now)),
                    },
                    q,
                ),
            )
        },
    }
}

fn decide(doc: Doc, i: usize, status: &str, decision: &str, label: String) -> (r: (Doc, Request))
    requires
        i < doc.requests@.len(),
    ensures
        r.1@ == decided(doc@.requests[i as int], status@, decision@, label@),
        r.0@ == (DocView { requests: doc@.requests.update(i as int, r.1@), ..doc@ }),
{
    let mut doc = doc;
    let ghost o = doc.requests@;
    let ghost g = doc.grants@;
    let mut q = copy_request(&doc.requests[i]);
    q.status = status.to_owned();
    q.decision = decision.to_owned();
    q.decision_label = label;
    let out = copy_request(&q);
    let ghost qv = q@;
    doc.requests.set(i, q);
    assert(request_views(doc.requests@) =~= request_views(o).update(i as int, qv));
    (doc, out)
}

pub open spec fn same_result<T>(
    r: Result<(Doc, T), Error>,
    w: Result<(DocView, RequestView), Seq<char>>,
    f: spec_fn(T) -> RequestView,
) -> bool {
    match (r, w) {
        (Ok(p), Ok(v)) => p.0@ == v.0 && f(p.1) == v.1,
        (Err(e), Err(t)) => e is Rejected && e.text() == t,
        _ => false,
    }
}

/// Allows a request once, under a given grant identifier.
pub fn allow_with(doc: Doc, id: &str, grant: &str, now: i64) -> (r: Result<(Doc, Request), Error>)
    requires
        now + TTL_SECS <= i64::MAX,
    ensures
        same_result(r, allowed_once(doc@, id@, grant@, now), |q: Request| q@),
{
    let doc = expire(doc, now);
    let i = match pending(&doc, id) {
        Ok(i) => i,
        Err(e) => {
            return Err(e);
        },
    };
    let label = "Allowed once by operator ".to_owned().concat(decision_hm(now).as_str());
    let (mut doc, q) = decide(doc, i, "allowed", "allow_once", label);
    let g = Grant {
        id: grant.to_owned(),
        request_id: q.id.clone(),
        argv: text::copy_names(&q.argv),
        cwd: q.cwd.clone(),
        uses_left: 1,
        expires_at: now + TTL_SECS,
    };
    let ghost gv = g@;
    let ghost o = doc.grants@;
    doc.grants.push(g);
    assert(grant_views(doc.grants@) =~= grant_views(o).push(gv));
    Ok((doc, q))
}

/// Allows the exact command of a request once.
pub fn allow_once(doc: Doc, id: &str, now: i64) -> (r: Result<(Doc, Request), Error>)
    requires
        now + TTL_SECS <= i64::MAX,
    ensures
        exists|grant: Seq<char>|
            is_id(grant, "mg"@) && same_result(
                r,
                #[trigger] allowed_once(doc@, id@, grant, now),
                |q: Request| q@,
            ),
{
    let grant = fresh_id("mg");
    let ghost d = doc@;
    let r = allow_with(doc, id, grant.as_str(), now);
    assert(same_result(r, allowed_once(d, id@, grant@, now), |q: Request| q@));
    r
}

// ---------- rules ----------

pub open spec fn stars(p: Seq<char>) -> nat
    decreases p.len(),
{
    if p.len() == 0 {
        0
    } else {
        stars(p.drop_last()) + (if p.last() == '*' {
            1nat
        } else {
            0
        })
    }
}

/// What is wrong with a pattern: a wildcard is only legal as the last
/// character of an argument.
pub open spec fn pattern_fault(p: Seq<char>) -> Option<Seq<char>> {
    if stars(p) == 0 {
        if master_perm::plain_arg(p) {
            None
        } else {
            Some("pattern '"@ + p + "' has characters a permission rule cannot store"@)
        }
    } else if p.last() != '*' || stars(p) != 1 {
        Some("wildcard in '"@ + p + "' must be a single '*' at the end of the argument"@)
    } else if p.len() == 1 || master_perm::plain_arg(p.drop_last()) {
        None
    } else {
        Some("pattern '"@ + p + "' has characters a permission rule cannot store"@)
    }
}

fn count_stars(v: &Vec<char>) -> (n: usize)
    ensures
        n == stars(v@),
{
    let mut n: usize = 0;
    let mut i: usize = 0;
    assert(v@.take(0) =~= Seq::empty());
    while i < v.len()
        invariant
            i <= v@.len(),
            n <= i,
            n == stars(v@.take(i as int)),
        decreases v.len() - i,
    {
        assert(v@.take(i + 1).drop_last() =~= v@.take(i as int));
        if v[i] == '*' {
            n = n + 1;
        }
        i = i + 1;
    }
    assert(v@.take(i as int) =~= v@);
    n
}

pub fn validate_pattern(pat: &str) -> (r: Result<(), Error>)
    ensures
        match r {
            Ok(_) => pattern_fault(pat@) is None,
            Err(e) => e is Rejected && pattern_fault(pat@) == Some(e.text()),
        },
{
    let v = text::chars_of(pat);
    let n = count_stars(&v);
    let stored = if n == 0 {
        arg_ok(pat)
    } else {
        assert(v@.len() > 0);
        if v[v.len() - 1] != '*' || n != 1 {
            return Err(
                Error::Rejected(
                    "wildcard in '".to_owned().concat(pat).concat(
                        "' must be a single '*' at the end of the argument",
                    ),
                ),
            );
        }
        let stem = text::string_of(v.as_slice(), 0, v.len() - 1);
        assert(stem@ =~= pat@.drop_last());
        v.len() == 1 || arg_ok(stem.as_str())
    };
    if stored {
        Ok(())
    } else {
        Err(
            Error::Rejected(
                "pattern '".to_owned().concat(pat).concat(
                    "' has characters a permission rule cannot store",
                ),
            ),
        )
    }
}

/// A pattern covers an argument: as it is, or by what stands before its
/// wildcard.
pub open spec fn covers(pat: Seq<char>, arg: Seq<char>) -> bool {
    if pat.len() > 0 && pat.last() == '*' {
        text::begins(arg, pat.drop_last())
    } else {
        pat == arg
    }
}

fn pattern_matches(pat: &str, arg: &str) -> (r: bool)
    ensures
        r == covers(pat@, arg@),
{
    let v = text::chars_of(pat);
    if v.len() > 0 && v[v.len() - 1] == '*' {
        let stem = text::string_of(v.as_slice(), 0, v.len() - 1);
        assert(stem@ =~= pat@.drop_last());
        text::starts_with(arg, stem.as_str())
    } else {
        text::eq(pat, arg)
    }
}

pub open spec fn any_star(v: Seq<Seq<char>>) -> bool {
    exists|i: int| 0 <= i < v.len() && (#[trigger] v[i]).contains('*')
}

pub open spec fn first_fault(v: Seq<Seq<char>>) -> Option<Seq<char>>
    decreases v.len(),
{
    if v.len() == 0 {
        None
    } else if pattern_fault(v[0]) is Some {
        pattern_fault(v[0])
    } else {
        first_fault(v.drop_first())
    }
}

/// What is wrong with the shape of a rule: it must name a verb, without a
/// wildcard in it, and a prefix rule must narrow its arguments.
pub open spec fn shape_fault(head: Seq<Seq<char>>, tail: Seq<Seq<char>>, scope: Scope) -> Option<
    Seq<char>,
> {
    match scope {
        Scope::Exact => if head.len() < 2 || tail.len() > 0 {
            Some("an exact rule is the full command, with no wildcard tail"@)
        } else if any_star(head) {
            Some("an exact rule cannot contain a wildcard"@)
        } else {
            None
        },
        Scope::Prefix => if head.len() < 2 {
            Some(
                "a prefix rule keeps the verb — at least `cadence <verb>` — and cannot widen to another verb"@,
            )
        } else if any_star(head) {
            Some(
                "a wildcard in the verb would widen the rule to a different command — refused"@,
            )
        } else if tail.len() == 0 {
            Some(
                "a prefix rule needs a narrowed argument pattern — a bare verb is not a rule"@,
            )
        } else {
            first_fault(tail)
        },
    }
}

fn has_star(v: &Vec<String>) -> (r: bool)
    ensures
        r == any_star(v.deep_view()),
{
    let ghost d = v.deep_view();
    let mut i: usize = 0;
    while i < v.len()
        invariant
            d == v.deep_view(),
            i <= v@.len(),
            forall|k: int| 0 <= k < i ==> !(#[trigger] d[k]).contains('*'),
        decreases v.len() - i,
    {
        assert(d[i as int] == v@[i as int]@);
        if text::contains_char(v[i].as_str(), '*') {
            assert(d[i as int].contains('*'));
            return true;
        }
        i = i + 1;
    }
    false
}

fn check_tail(v: &Vec<String>) -> (r: Result<(), Error>)
    ensures
        match r {
            Ok(_) => first_fault(v.deep_view()) is None,
            Err(e) => e is Rejected && first_fault(v.deep_view()) == Some(e.text()),
        },
{
    let ghost d = v.deep_view();
    let mut i: usize = 0;
    assert(d.skip(0) =~= d);
    while i < v.len()
        invariant
            d == v.deep_view(),
            i <= v@.len(),
            first_fault(d) == first_fault(d.skip(i as int)),
        decreases v.len() - i,
    {
        assert(d.skip(i as int)[0] == v@[i as int]@);
        assert(d.skip(i as int).drop_first() =~= d.skip(i + 1));
        if let Err(e) = validate_pattern(v[i].as_str()) {
            return Err(e);
        }
        i = i + 1;
    }
    Ok(())
}

pub fn check_rule_shape(head: &Vec<String>, tail: &Vec<String>, scope: &Scope) -> (r: Result<
    (),
    Error,
>)
    ensures
        match r {
            Ok(_) => shape_fault(head.deep_view(), tail.deep_view(), *scope) is None,
            Err(e) => e is Rejected && shape_fault(
                head.deep_view(),
                tail.deep_view(),
                *scope,
            ) == Some(e.text()),
        },
{
    match scope {
        Scope::Exact => {
            if head.len() < 2 || tail.len() > 0 {
                return Err(
                    rejected("an exact rule is the full command, with no wildcard tail"),
                );
            }
            if has_star(head) {
                return Err(rejected("an exact rule cannot contain a wildcard"));
            }
            Ok(())
        },
        Scope::Prefix => {
            if head.len() < 2 {
                return Err(
                    rejected(
                        "a prefix rule keeps the verb — at least `cadence <verb>` — and cannot widen to another verb",
                    ),
                );
            }
            if has_star(head) {
                return Err(
                    rejected(
                        "a wildcard in the verb would widen the rule to a different command — refused",
                    ),
                );
            }
            if tail.len() == 0 {
                return Err(
                    rejected(
                        "a prefix rule needs a narrowed argument pattern — a bare verb is not a rule",
                    ),
                );
            }
            check_tail(tail)
        },
    }
}

/// A rule is of a command in a directory: the exact one; or its head, and
/// then one argument for each pattern.
pub open spec fn rule_covers(r: RuleView, argv: Seq<Seq<char>>, cwd: Seq<char>) -> bool {
    r.cwd == cwd && match r.scope {
        Scope::Exact => r.argv == argv,
        Scope::Prefix => {
            let n = r.argv.len() as int;
            &&& n < argv.len()
            &&& argv.take(n) == r.argv
            &&& argv.len() - n == r.tail.len()
            &&& forall|i: int| 0 <= i < r.tail.len() ==> covers(#[trigger] r.tail[i], argv[n + i])
        },
    }
}

fn rule_matches(rule: &Rule, argv: &Vec<String>, cwd: &str) -> (b: bool)
    ensures
        b == rule_covers(rule@, argv.deep_view(), cwd@),
{
    if !text::eq(rule.cwd.as_str(), cwd) {
        return false;
    }
    match rule.scope {
        Scope::Exact => text::same_list(&rule.argv, argv),
        Scope::Prefix => {
            let ghost d = argv.deep_view();
            let ghost h = rule.argv.deep_view();
            let ghost t = rule.tail.deep_view();
            let n = rule.argv.len();
            if n >= argv.len() || argv.len() - n != rule.tail.len() {
                return false;
            }
            let mut i: usize = 0;
            while i < n
                invariant
                    d == argv.deep_view(),
                    h == rule.argv.deep_view(),
                    rule.scope is Prefix,
                    n == rule.argv@.len(),
                    n < argv@.len(),
                    i <= n,
                    forall|k: int| 0 <= k < i ==> d[k] == h[k],
                decreases n - i,
            {
                assert(d[i as int] == argv@[i as int]@);
                assert(h[i as int] == rule.argv@[i as int]@);
                if !text::eq(argv[i].as_str(), rule.argv[i].as_str()) {
                    assert(d.take(n as int)[i as int] != h[i as int]);
                    return false;
                }
                i = i + 1;
            }
            assert(d.take(n as int) =~= h);
            let total = argv.len();
            let mut k: usize = 0;
            while k < rule.tail.len()
                invariant
                    d == argv.deep_view(),
                    t == rule.tail.deep_view(),
                    rule.scope is Prefix,
                    n == rule.argv@.len(),
                    n < argv@.len(),
                    total == argv@.len(),
                    argv@.len() - n == rule.tail@.len(),
                    k <= rule.tail@.len(),
                    forall|j: int| 0 <= j < k ==> covers(#[trigger] t[j], d[n + j]),
                decreases rule.tail.len() - k,
            {
                assert(t[k as int] == rule.tail@[k as int]@);
                assert(d[n + k] == argv@[n + k]@);
                if !pattern_matches(rule.tail[k].as_str(), argv[n + k].as_str()) {
                    assert(!covers(rule@.tail[k as int], d[n + k]));
                    return false;
                }
                k = k + 1;
            }
            true
        },
    }
}

/// The rule that a request would be allowed by from now on, under a given
/// identifier; or why there is none.
pub open spec fn drafted(
    q: RequestView,
    scope: Scope,
    tail: Seq<Seq<char>>,
    id: Seq<char>,
    now: i64,
) -> Result<RuleView, Seq<char>> {
    let n = if scope is Prefix {
        tail.len() as int
    } else {
        0
    };
    if scope is Prefix && tail.len() >= q.argv.len() {
        Err("a prefix tail must be narrower than the whole command"@)
    } else {
        let head = q.argv.take(q.argv.len() - n);
        let rest = if scope is Prefix {
            tail
        } else {
            seq![]
        };
        let rule = RuleView {
            id,
            effect: Effect::Allow,
            scope,
            argv: head,
            tail: rest,
            cwd: q.cwd,
            by: "operator"@,
            at: now,
        };
        if shape_fault(head, rest, scope) is Some {
            Err(shape_fault(head, rest, scope)->0)
        } else if !rule_covers(rule, q.argv, q.cwd) {
            Err(
                "that rule does not match the requested command — it cannot widen to a different verb"@,
            )
        } else {
            Ok(rule)
        }
    }
}

pub open spec fn rule_label(r: RuleView) -> Seq<char> {
    match r.scope {
        Scope::Exact => "Always: `"@ + text::join(r.argv, " "@) + "`"@,
        Scope::Prefix => "Always: `"@ + text::join(r.argv, " "@) + " "@ + text::join(r.tail, " "@)
            + "`"@,
    }
}

/// What an always-allow comes to: the record, the request and the rule.
pub open spec fn always(
    d: DocView,
    id: Seq<char>,
    scope: Scope,
    tail: Seq<Seq<char>>,
    rule: Seq<char>,
    now: i64,
) -> Result<(DocView, RequestView, RuleView), Seq<char>> {
    let e = expired(d, now);
    match decidable(e, id) {
        Err(why) => Err(why),
        Ok(i) => match drafted(e.requests[i], scope, tail, rule, now) {
            Err(why) => Err(why),
            Ok(r) => {
                let q = decided(e.requests[i], "allowed"@, "always"@, rule_label(r));
                Ok((DocView { requests: e.requests.update(i, q), ..e }, q, r))
            },
        },
    }
}

fn draft(q: &Request, scope: Scope, tail: &Vec<String>, id: &str, now: i64) -> (r: Result<
    Rule,
    Error,
>)
    ensures
        match (r, drafted(q@, scope, tail.deep_view(), id@, now)) {
            (Ok(x), Ok(w)) => x@ == w,
            (Err(e), Err(t)) => e is Rejected && e.text() == t,
            _ => false,
        },
{
    let ghost d = q.argv.deep_view();
    let (head, rest) = match scope {
        Scope::Exact => {
            let none: Vec<String> = Vec::new();
            assert(none.deep_view() =~= seq![]);
            assert(d.take(d.len() as int) =~= d);
            (text::copy_names(&q.argv), none)
        },
        Scope::Prefix => {
            if tail.len() >= q.argv.len() {
                return Err(rejected("a prefix tail must be narrower than the whole command"));
            }
            let n: usize = q.argv.len() - tail.len();
            let mut head = text::copy_names(&q.argv);
            head.truncate(n);
            assert(head.deep_view() =~= d.take(n as int));
            (head, text::copy_names(tail))
        },
    };
    if let Err(e) = check_rule_shape(&head, &rest, &scope) {
        return Err(e);
    }
    let rule = Rule {
        id: id.to_owned(),
        effect: Effect::Allow,
        scope,
        argv: head,
        tail: rest,
        cwd: q.cwd.clone(),
        by: "operator".to_owned(),
        at: now,
    };
    if !rule_matches(&rule, &q.argv, q.cwd.as_str()) {
        return Err(
            rejected(
                "that rule does not match the requested command — it cannot widen to a different verb",
            ),
        );
    }
    Ok(rule)
}

fn label_of(r: &Rule) -> (s: String)
    ensures
        s@ == rule_label(r@),
{
    let head = text::join_of(&r.argv, " ");
    match r.scope {
        Scope::Exact => "Always: `".to_owned().concat(head.as_str()).concat("`"),
        Scope::Prefix => "Always: `".to_owned().concat(head.as_str()).concat(" ").concat(
            text::join_of(&r.tail, " ").as_str(),
        ).concat("`"),
    }
}

pub open spec fn same_always(
    r: Result<(Doc, Request, Rule), Error>,
    w: Result<(DocView, RequestView, RuleView), Seq<char>>,
) -> bool {
    match (r, w) {
        (Ok(p), Ok(v)) => p.0@ == v.0 && p.1@ == v.1 && p.2@ == v.2,
        (Err(e), Err(t)) => e is Rejected && e.text() == t,
        _ => false,
    }
}

/// Allows the commands of a rule from now on, under a given identifier.
pub fn always_with(
    doc: Doc,
    id: &str,
    scope: Scope,
    tail: &Vec<String>,
    rule_id: &str,
    now: i64,
) -> (r: Result<(Doc, Request, Rule), Error>)
    ensures
        same_always(r, always(doc@, id@, scope, tail.deep_view(), rule_id@, now)),
{
    let doc = expire(doc, now);
    let i = match pending(&doc, id) {
        Ok(i) => i,
        Err(e) => {
            return Err(e);
        },
    };
    assert(doc@.requests[i as int] == doc.requests@[i as int]@);
    let rule = match draft(&doc.requests[i], scope, tail, rule_id, now) {
        Ok(r) => r,
        Err(e) => {
            return Err(e);
        },
    };
    let (doc, q) = decide(doc, i, "allowed", "always", label_of(&rule));
    Ok((doc, q, rule))
}

/// Saves an allow rule for a pending request, exact or by prefix. The rule
/// always covers the request it came from.
pub fn always_rule(doc: Doc, id: &str, scope: Scope, tail: &Vec<String>, now: i64) -> (r: Result<
    (Doc, Request, Rule),
    Error,
>)
    ensures
        exists|rule: Seq<char>|
            is_id(rule, "mr"@) && same_always(
                r,
                #[trigger] always(doc@, id@, scope, tail.deep_view(), rule, now),
            ),
{
    let rule = fresh_id("mr");
    let ghost d = doc@;
    let r = always_with(doc, id, scope, tail, rule.as_str(), now);
    assert(same_always(r, always(d, id@, scope, tail.deep_view(), rule@, now)));
    r
}

pub open spec fn deny_rule(q: RequestView, id: Seq<char>, now: i64) -> RuleView {
    RuleView {
        id,
        effect: Effect::Deny,
        scope: Scope::Exact,
        argv: q.argv,
        tail: seq![],
        cwd: q.cwd,
        by: "operator"@,
        at: now,
    }
}

/// What a rejection comes to: the record, the request, and a deny rule
/// where it shall not be asked again.
pub open spec fn refused(
    d: DocView,
    id: Seq<char>,
    dont_ask_again: bool,
    rule: Seq<char>,
    now: i64,
) -> Result<(DocView, RequestView, Option<RuleView>), Seq<char>> {
    let e = expired(d, now);
    match decidable(e, id) {
        Err(why) => Err(why),
        Ok(i) => {
            let q = decided(
                e.requests[i],
                "rejected"@,
                "reject"@,
                if dont_ask_again {
                    "Rejected — won't ask again"@
                } else {
                    "Rejected"@
                },
            );
            Ok(
                (
                    DocView { requests: e.requests.update(i, q), ..e },
                    q,
                    if dont_ask_again {
                        Some(deny_rule(q, rule, now))
                    } else {
                        None
                    },
                ),
            )
        },
    }
}

pub open spec fn rule_opt(r: Option<Rule>) -> Option<RuleView> {
    match r {
        Some(x) => Some(x@),
        None => None,
    }
}

pub open spec fn same_refused(
    r: Result<(Doc, Request, Option<Rule>), Error>,
    w: Result<(DocView, RequestView, Option<RuleView>), Seq<char>>,
) -> bool {
    match (r, w) {
        (Ok(p), Ok(v)) => p.0@ == v.0 && p.1@ == v.1 && rule_opt(p.2) == v.2,
        (Err(e), Err(t)) => e is Rejected && e.text() == t,
        _ => false,
    }
}

/// Rejects a request, under a given rule identifier.
pub fn reject_with(doc: Doc, id: &str, dont_ask_again: bool, rule_id: &str, now: i64) -> (r: Result<
    (Doc, Request, Option<Rule>),
    Error,
>)
    ensures
        same_refused(r, refused(doc@, id@, dont_ask_again, rule_id@, now)),
{
    let doc = expire(doc, now);
    let i = match pending(&doc, id) {
        Ok(i) => i,
        Err(e) => {
            return Err(e);
        },
    };
    let label = if dont_ask_again {
        "Rejected — won't ask again".to_owned()
    } else {
        "Rejected".to_owned()
    };
    let (doc, q) = decide(doc, i, "rejected", "reject", label);
    let rule = if dont_ask_again {
        let none: Vec<String> = Vec::new();
        assert(none.deep_view() =~= seq![]);
        Some(
            Rule {
                id: rule_id.to_owned(),
                effect: Effect::Deny,
                scope: Scope::Exact,
                argv: text::copy_names(&q.argv),
                tail: none,
                cwd: q.cwd.clone(),
                by: "operator".to_owned(),
                at: now,
            },
        )
    } else {
        None
    };
    Ok((doc, q, rule))
}

/// Rejects a pending request, with a deny rule for the exact command where
/// it shall not be asked again.
pub fn reject(doc: Doc, id: &str, dont_ask_again: bool, now: i64) -> (r: Result<
    (Doc, Request, Option<Rule>),
    Error,
>)
    ensures
        exists|rule: Seq<char>|
            is_id(rule, "mr"@) && same_refused(
                r,
                #[trigger] refused(doc@, id@, dont_ask_again, rule, now),
            ),
{
    let rule = fresh_id("mr");
    let ghost d = doc@;
    let r = reject_with(doc, id, dont_ask_again, rule.as_str(), now);
    assert(same_refused(r, refused(d, id@, dont_ask_again, rule@, now)));
    r
}

/// The record with a decided request pending again.
pub open spec fn reopened(d: DocView, id: Seq<char>, now: i64) -> DocView {
    let e = expired(d, now);
    match request_at(e.requests, id) {
        Some(i) => if e.requests[i].status == "allowed"@ || e.requests[i].status == "rejected"@ {
            DocView {
                requests: e.requests.update(
                    i,
                    decided(e.requests[i], "pending"@, ""@, ""@),
                ),
                ..e
            }
        } else {
            e
        },
        None => e,
    }
}

/// Puts a decided request back to pending, where its rule could not be
/// saved.
pub fn reopen(doc: Doc, id: &str, now: i64) -> (r: Doc)
    ensures
        r@ == reopened(doc@, id@, now),
{
    let doc = expire(doc, now);
    match find_request(&doc.requests, id) {
        Some(i) => {
            let s = doc.requests[i].status.as_str();
            if text::eq(s, "allowed") || text::eq(s, "rejected") {
                let (doc, _q) = decide(doc, i, "pending", "", "".to_owned());
                return doc;
            }
            doc
        },
        None => doc,
    }
}

/// The first rule with an identifier.
pub open spec fn rule_at(v: Seq<RuleView>, id: Seq<char>) -> Option<int>
    decreases v.len(),
{
    if v.len() == 0 {
        None
    } else if v[0].id == id {
        Some(0)
    } else {
        match rule_at(v.drop_first(), id) {
            Some(i) => Some(i + 1),
            None => None,
        }
    }
}

fn find_rule_id(rules: &Vec<Rule>, id: &str) -> (r: Option<usize>)
    ensures
        match r {
            Some(i) => i < rules@.len() && rule_at(rule_views(rules@), id@) == Some(i as int),
            None => rule_at(rule_views(rules@), id@) is None,
        },
{
    let ghost d = rule_views(rules@);
    let mut i: usize = 0;
    assert(d.skip(0) =~= d);
    while i < rules.len()
        invariant
            d == rule_views(rules@),
            i <= rules@.len(),
            match rule_at(d.skip(i as int), id@) {
                Some(k) => rule_at(d, id@) == Some(k + i),
                None => rule_at(d, id@) is None,
            },
        decreases rules.len() - i,
    {
        assert(d.skip(i as int)[0] == rules@[i as int]@);
        assert(d.skip(i as int).drop_first() =~= d.skip(i + 1));
        if text::eq(rules[i].id.as_str(), id) {
            return Some(i);
        }
        i = i + 1;
    }
    None
}

/// Drops a rule.
pub fn revoke_rule(rules: Vec<Rule>, id: &str) -> (r: Result<(Vec<Rule>, Rule), Error>)
    ensures
        match (r, rule_at(rule_views(rules@), id@)) {
            (Ok(p), Some(i)) => 0 <= i < rules@.len() && p.0@ == rules@.remove(i) && p.1
                == rules@[i],
            (Err(e), None) => e is Rejected && e.text() == "no permission rule '"@ + id@ + "'"@,
            _ => false,
        },
{
    match find_rule_id(&rules, id) {
        Some(i) => {
            let mut rest = rules;
            let rule = rest.remove(i);
            Ok((rest, rule))
        },
        None => Err(Error::Rejected("no permission rule '".to_owned().concat(id).concat("'"))),
    }
}

// ---------- using ----------

/// What a command may run by.
#[derive(Clone, Debug)]
pub enum Use {
    /// A grant for one use.
    Grant { request_id: String },
    /// An allow rule.
    Rule { id: String },
}

pub enum UseView {
    Grant(Seq<char>),
    Rule(Seq<char>),
}

impl View for Use {
    type V = UseView;

    open spec fn view(&self) -> UseView {
        match self {
            Use::Grant { request_id } => UseView::Grant(request_id@),
            Use::Rule { id } => UseView::Rule(id@),
        }
    }
}

pub open spec fn grants_it(g: GrantView, argv: Seq<Seq<char>>, cwd: Seq<char>, now: i64) -> bool {
    g.uses_left > 0 && g.expires_at > now && g.argv == argv && g.cwd == cwd
}

pub open spec fn first_grant(
    v: Seq<GrantView>,
    argv: Seq<Seq<char>>,
    cwd: Seq<char>,
    now: i64,
) -> Option<int>
    decreases v.len(),
{
    if v.len() == 0 {
        None
    } else if grants_it(v[0], argv, cwd, now) {
        Some(0)
    } else {
        match first_grant(v.drop_first(), argv, cwd, now) {
            Some(i) => Some(i + 1),
            None => None,
        }
    }
}

/// The first rule of an effect that covers a command.
pub open spec fn first_rule(
    v: Seq<RuleView>,
    effect: Effect,
    argv: Seq<Seq<char>>,
    cwd: Seq<char>,
) -> Option<int>
    decreases v.len(),
{
    if v.len() == 0 {
        None
    } else if v[0].effect == effect && rule_covers(v[0], argv, cwd) {
        Some(0)
    } else {
        match first_rule(v.drop_first(), effect, argv, cwd) {
            Some(i) => Some(i + 1),
            None => None,
        }
    }
}

/// Whether a command may run now, and by what. The never-list comes first,
/// then a deny rule, then a grant, then an allow rule.
pub open spec fn usable(
    d: DocView,
    rules: Seq<RuleView>,
    argv: Seq<Seq<char>>,
    cwd: Seq<char>,
    class: ClassView,
    now: i64,
) -> Result<Option<UseView>, Seq<char>> {
    match class {
        ClassView::Never(why) => Err(why + " — a grant or a rule cannot allow it"@),
        _ => if first_rule(rules, Effect::Deny, argv, cwd) is Some {
            Err("a deny rule covers this command — it wins over an allow rule"@)
        } else {
            match first_grant(d.grants, argv, cwd, now) {
                Some(i) => Ok(Some(UseView::Grant(d.grants[i].request_id))),
                None => match first_rule(rules, Effect::Allow, argv, cwd) {
                    Some(i) => Ok(Some(UseView::Rule(rules[i].id))),
                    None => Ok(None),
                },
            }
        },
    }
}

/// Whether a command, as it was written, may run now in a directory.
pub open spec fn permitted(
    d: DocView,
    rules: Seq<RuleView>,
    argv: Seq<Seq<char>>,
    f: Option<&Facts>,
    list: Seq<Seq<char>>,
    now: i64,
) -> Result<Option<UseView>, Seq<char>> {
    match f {
        Some(f) => usable(
            d,
            rules,
            master_perm::normal(argv),
            f.cwd@,
            master_perm::class(master_perm::normal(argv), *f, list),
            now,
        ),
        None => Ok(None),
    }
}

/// The record with the grant used up.
pub open spec fn spent(d: DocView, argv: Seq<Seq<char>>, cwd: Seq<char>, now: i64) -> DocView {
    match first_grant(d.grants, argv, cwd, now) {
        Some(i) => DocView {
            grants: d.grants.update(i, GrantView { uses_left: 0, ..d.grants[i] }),
            ..d
        },
        None => d,
    }
}

fn find_grant(v: &Vec<Grant>, argv: &Vec<String>, cwd: &str, now: i64) -> (r: Option<usize>)
    ensures
        match r {
            Some(i) => i < v@.len() && first_grant(
                grant_views(v@),
                argv.deep_view(),
                cwd@,
                now,
            ) == Some(i as int),
            None => first_grant(grant_views(v@), argv.deep_view(), cwd@, now) is None,
        },
{
    let ghost d = grant_views(v@);
    let mut i: usize = 0;
    assert(d.skip(0) =~= d);
    while i < v.len()
        invariant
            d == grant_views(v@),
            i <= v@.len(),
            match first_grant(d.skip(i as int), argv.deep_view(), cwd@, now) {
                Some(k) => first_grant(d, argv.deep_view(), cwd@, now) == Some(k + i),
                None => first_grant(d, argv.deep_view(), cwd@, now) is None,
            },
        decreases v.len() - i,
    {
        assert(d.skip(i as int)[0] == v@[i as int]@);
        assert(d.skip(i as int).drop_first() =~= d.skip(i + 1));
        let g = &v[i];
        if g.uses_left > 0 && g.expires_at > now && text::same_list(&g.argv, argv) && text::eq(
            g.cwd.as_str(),
            cwd,
        ) {
            return Some(i);
        }
        i = i + 1;
    }
    None
}

fn find_rule(v: &Vec<Rule>, effect: Effect, argv: &Vec<String>, cwd: &str) -> (r: Option<usize>)
    ensures
        match r {
            Some(i) => i < v@.len() && first_rule(
                rule_views(v@),
                effect,
                argv.deep_view(),
                cwd@,
            ) == Some(i as int),
            None => first_rule(rule_views(v@), effect, argv.deep_view(), cwd@) is None,
        },
{
    let ghost d = rule_views(v@);
    let mut i: usize = 0;
    assert(d.skip(0) =~= d);
    while i < v.len()
        invariant
            d == rule_views(v@),
            i <= v@.len(),
            match first_rule(d.skip(i as int), effect, argv.deep_view(), cwd@) {
                Some(k) => first_rule(d, effect, argv.deep_view(), cwd@) == Some(k + i),
                None => first_rule(d, effect, argv.deep_view(), cwd@) is None,
            },
        decreases v.len() - i,
    {
        assert(d.skip(i as int)[0] == v@[i as int]@);
        assert(d.skip(i as int).drop_first() =~= d.skip(i + 1));
        if v[i].effect == effect && rule_matches(&v[i], argv, cwd) {
            return Some(i);
        }
        i = i + 1;
    }
    None
}

pub open spec fn use_opt(u: Option<Use>) -> Option<UseView> {
    match u {
        Some(x) => Some(x@),
        None => None,
    }
}

/// Decides on a record that is up to date, for a command in its normal
/// form.
fn decide_use(
    doc: &Doc,
    rules: &Vec<Rule>,
    argv: &Vec<String>,
    cwd: &str,
    class: &Class,
    now: i64,
) -> (r: Result<Option<Use>, Error>)
    ensures
        match (r, usable(doc@, rule_views(rules@), argv.deep_view(), cwd@, class@, now)) {
            (Ok(u), Ok(w)) => use_opt(u) == w,
            (Err(e), Err(t)) => e is Rejected && e.text() == t,
            _ => false,
        },
{
    if let Class::Never { why } = class {
        return Err(
            Error::Rejected(
                (*why).to_owned().concat(" — a grant or a rule cannot allow it"),
            ),
        );
    }
    if find_rule(rules, Effect::Deny, argv, cwd).is_some() {
        return Err(rejected("a deny rule covers this command — it wins over an allow rule"));
    }
    if let Some(i) = find_grant(&doc.grants, argv, cwd, now) {
        assert(doc@.grants[i as int] == doc.grants@[i as int]@);
        return Ok(Some(Use::Grant { request_id: doc.grants[i].request_id.clone() }));
    }
    match find_rule(rules, Effect::Allow, argv, cwd) {
        Some(i) => {
            assert(rule_views(rules@)[i as int] == rules@[i as int]@);
            Ok(Some(Use::Rule { id: rules[i].id.clone() }))
        },
        None => Ok(None),
    }
}

/// Whether a command may run now. Nothing is consumed. `f` holds what is
/// known of its directory, where that is there.
pub fn peek(
    doc: Doc,
    rules: &Vec<Rule>,
    argv: &Vec<String>,
    f: Option<&Facts>,
    list: &Vec<String>,
    now: i64,
) -> (r: Result<bool, Error>)
    requires
        f is Some ==> f->0.resolved@.len() == argv@.len(),
    ensures
        match (
            r,
            permitted(
                expired(doc@, now),
                rule_views(rules@),
                argv.deep_view(),
                f,
                list.deep_view(),
                now,
            ),
        ) {
            (Ok(b), Ok(w)) => b == (w is Some),
            (Err(e), Err(t)) => e is Rejected && e.text() == t,
            _ => false,
        },
{
    let f = match f {
        Some(f) => f,
        None => {
            return Ok(false);
        },
    };
    let class = classify(argv, f, list);
    let argv = normalize_argv(argv);
    let doc = expire(doc, now);
    match decide_use(&doc, rules, &argv, f.cwd.as_str(), &class, now) {
        Ok(u) => Ok(u.is_some()),
        Err(e) => Err(e),
    }
}

/// What taking a permission comes to: the record where it is to be saved,
/// and what the command runs by.
#[derive(Debug)]
pub struct Taken {
    pub save: Option<Doc>,
    pub outcome: Result<Use, Error>,
}

/// Takes a permission: a grant is used up, an allow rule is not. The
/// never-list and a deny rule refuse before either is looked at. `f` holds
/// what is known of the command's directory, where that is there.
pub fn take(
    doc: Doc,
    rules: &Vec<Rule>,
    argv: &Vec<String>,
    f: Option<&Facts>,
    list: &Vec<String>,
    now: i64,
) -> (r: Taken)
    requires
        f is Some ==> f->0.resolved@.len() == argv@.len(),
    ensures
        ({
            let e = expired(doc@, now);
            match permitted(e, rule_views(rules@), argv.deep_view(), f, list.deep_view(), now) {
                Err(t) => r.save is None && r.outcome is Err && r.outcome->Err_0 is Rejected
                    && r.outcome->Err_0.text() == t,
                Ok(None) => {
                    &&& r.outcome is Err
                    &&& r.outcome->Err_0 is Rejected
                    &&& r.outcome->Err_0.text()
                        == "no live permission for that exact command and directory"@
                    &&& match f {
                        None => r.save is None,
                        Some(_) => r.save is Some && r.save->0@ == e,
                    }
                },
                Ok(Some(u)) => r.outcome is Ok && r.outcome->Ok_0@ == u && r.save is Some
                    && r.save->0@ == spent(
                    e,
                    master_perm::normal(argv.deep_view()),
                    f->0.cwd@,
                    now,
                ),
            }
        }),
{
    let f = match f {
        Some(f) => f,
        None => {
            return Taken {
                save: None,
                outcome: Err(
                    rejected("no live permission for that exact command and directory"),
                ),
            };
        },
    };
    let class = classify(argv, f, list);
    let argv = normalize_argv(argv);
    let dir = f.cwd.as_str();
    let mut doc = expire(doc, now);
    let u = match decide_use(&doc, rules, &argv, dir, &class, now) {
        Err(e) => {
            return Taken { save: None, outcome: Err(e) };
        },
        Ok(u) => u,
    };
    if let Some(i) = find_grant(&doc.grants, &argv, dir, now) {
        let ghost o = doc.grants@;
        let g = Grant {
            id: doc.grants[i].id.clone(),
            request_id: doc.grants[i].request_id.clone(),
            argv: text::copy_names(&doc.grants[i].argv),
            cwd: doc.grants[i].cwd.clone(),
            uses_left: 0,
            expires_at: doc.grants[i].expires_at,
        };
        let ghost gv = g@;
        doc.grants.set(i, g);
        assert(grant_views(doc.grants@) =~= grant_views(o).update(i as int, gv));
    }
    match u {
        Some(u) => Taken { save: Some(doc), outcome: Ok(u) },
        None => Taken {
            save: Some(doc),
            outcome: Err(rejected("no live permission for that exact command and directory")),
        },
    }
}

// ---------- listings ----------

pub open spec fn is_pending() -> spec_fn(RequestView) -> bool {
    |q: RequestView| q.status == "pending"@
}

/// What the board shows at a time: pending and decided requests, until
/// they run out.
pub open spec fn on_board(now: i64) -> spec_fn(RequestView) -> bool {
    |q: RequestView|
        q.expires_at > now && (q.status == "pending"@ || q.status == "allowed"@ || q.status
            == "rejected"@)
}

fn kept(doc: &Doc, board: Option<i64>) -> (r: Vec<Request>)
    ensures
        request_views(r@) == doc@.requests.filter(
            if let Some(now) = board {
                on_board(now)
            } else {
                is_pending()
            },
        ),
{
    let ghost d = doc@.requests;
    let ghost f = if let Some(now) = board {
        on_board(now)
    } else {
        is_pending()
    };
    let mut out: Vec<Request> = Vec::new();
    let mut i: usize = 0;
    proof {
        reveal(Seq::filter);
        assert(d.take(0) =~= Seq::empty());
        assert(request_views(out@) =~= d.take(0).filter(f));
    }
    while i < doc.requests.len()
        invariant
            d == request_views(doc.requests@),
            d == doc@.requests,
            f == (if let Some(now) = board {
                on_board(now)
            } else {
                is_pending()
            }),
            i <= doc.requests@.len(),
            request_views(out@) == d.take(i as int).filter(f),
        decreases doc.requests.len() - i,
    {
        proof {
            reveal(Seq::filter);
            assert(d.take(i + 1).drop_last() =~= d.take(i as int));
            assert(d.take(i + 1).last() == doc.requests@[i as int]@);
        }
        let s = doc.requests[i].status.as_str();
        let shown = match board {
            Some(now) => doc.requests[i].expires_at > now && (text::eq(s, "pending") || text::eq(
                s,
                "allowed",
            ) || text::eq(s, "rejected")),
            None => text::eq(s, "pending"),
        };
        if shown {
            let ghost o = out@;
            let q = copy_request(&doc.requests[i]);
            let ghost qv = q@;
            out.push(q);
            assert(request_views(out@) =~= request_views(o).push(qv));
        }
        i = i + 1;
    }
    assert(d.take(i as int) =~= d);
    out
}

/// The requests that can still be decided, with the record to save.
pub fn pending_requests(doc: Doc, now: i64) -> (r: (Doc, Vec<Request>))
    ensures
        r.0@ == expired(doc@, now),
        request_views(r.1@) == expired(doc@, now).requests.filter(is_pending()),
{
    let doc = expire(doc, now);
    let v = kept(&doc, None);
    (doc, v)
}

/// The requests that the board shows: pending ones, and decided ones that
/// have not run out.
pub fn board_requests(doc: Doc, now: i64) -> (r: (Doc, Vec<Request>))
    ensures
        r.0@ == expired(doc@, now),
        request_views(r.1@) == expired(doc@, now).requests.filter(on_board(now)),
{
    let doc = expire(doc, now);
    let v = kept(&doc, Some(now));
    (doc, v)
}

// ---------- suggestions ----------

/// Without the slashes and the `.` parts at the end.
pub open spec fn trim_path(s: Seq<char>) -> Seq<char>
    decreases s.len(),
{
    if s.len() > 1 && (s.last() == '/' || (s.last() == '.' && s[s.len() - 2] == '/')) {
        trim_path(s.drop_last())
    } else {
        s
    }
}

/// What stands before the last part of a path, with its slash.
pub open spec fn upto_slash(s: Seq<char>) -> Seq<char>
    decreases s.len(),
{
    if s.len() == 0 || s.last() == '/' {
        s
    } else {
        upto_slash(s.drop_last())
    }
}

/// The directory of a path; empty where there is none.
pub open spec fn parent(s: Seq<char>) -> Seq<char> {
    trim_path(upto_slash(trim_path(s)))
}

/// A narrowed pattern that the board can offer: the directory of the last
/// path, and anything in it.
pub open spec fn suggestion(argv: Seq<Seq<char>>) -> Option<Seq<char>> {
    if argv.len() < 3 {
        None
    } else {
        let last = argv.last();
        if (last.len() > 0 && last[0] == '-') || last.contains('*') || !last.contains('/') || parent(
            last,
        ).len() == 0 || parent(last) == "/"@ {
            None
        } else {
            Some(parent(last) + "/*"@)
        }
    }
}

fn trim_len(v: &Vec<char>, n: usize) -> (r: usize)
    requires
        n <= v@.len(),
    ensures
        r <= n,
        trim_path(v@.take(n as int)) == v@.take(r as int),
{
    let mut k: usize = n;
    while k > 1 && (v[k - 1] == '/' || (v[k - 1] == '.' && v[k - 2] == '/'))
        invariant
            k <= n <= v@.len(),
            trim_path(v@.take(n as int)) == trim_path(v@.take(k as int)),
        ensures
            k <= n <= v@.len(),
            trim_path(v@.take(n as int)) == v@.take(k as int),
        decreases k,
    {
        assert(v@.take(k as int).drop_last() =~= v@.take(k - 1));
        k = k - 1;
    }
    k
}

fn parent_of(s: &str) -> (r: String)
    ensures
        r@ == parent(s@),
{
    let v = text::chars_of(s);
    assert(v@.take(v@.len() as int) =~= s@);
    let n = trim_len(&v, v.len());
    let mut k: usize = n;
    while k > 0 && v[k - 1] != '/'
        invariant
            k <= n <= v@.len(),
            upto_slash(v@.take(n as int)) == upto_slash(v@.take(k as int)),
        ensures
            k <= n <= v@.len(),
            upto_slash(v@.take(n as int)) == v@.take(k as int),
        decreases k,
    {
        assert(v@.take(k as int).drop_last() =~= v@.take(k - 1));
        k = k - 1;
    }
    let m = trim_len(&v, k);
    let r = text::string_of(v.as_slice(), 0, m);
    assert(r@ =~= v@.take(m as int));
    r
}

pub fn suggest_tail(argv: &Vec<String>) -> (r: Option<Vec<String>>)
    ensures
        match (r, suggestion(argv.deep_view())) {
            (Some(v), Some(p)) => v.deep_view() == seq![p],
            (None, None) => true,
            _ => false,
        },
{
    if argv.len() < 3 {
        return None;
    }
    let ghost d = argv.deep_view();
    let last = argv[argv.len() - 1].as_str();
    assert(d.last() == last@);
    let v = text::chars_of(last);
    if (v.len() > 0 && v[0] == '-') || text::contains_char(last, '*') || !text::contains_char(
        last,
        '/',
    ) {
        return None;
    }
    let p = parent_of(last);
    proof {
        reveal_strlit("");
        assert(p@.len() == 0 ==> p@ =~= ""@);
    }
    if text::eq(p.as_str(), "") || text::eq(p.as_str(), "/") {
        return None;
    }
    let mut out: Vec<String> = Vec::new();
    let t = p.concat("/*");
    out.push(t);
    assert(out.deep_view() =~= seq![t@]);
    Some(out)
}

// ---------- laws ----------

/// Nothing in the record or the rules lets a plain command of the
/// never-list run, not even a grant that was planted there.
pub proof fn no_grant_covers_the_never_list(
    d: DocView,
    rules: Seq<RuleView>,
    argv: Seq<Seq<char>>,
    f: Facts,
    list: Seq<Seq<char>>,
    now: i64,
)
    requires
        master_perm::form_fault(master_perm::normal(argv)) is None,
        master_perm::never(master_perm::normal(argv), f) is Some,
    ensures
        permitted(d, rules, argv, Some(&f), list, now) == Err::<Option<UseView>, Seq<char>>(
            master_perm::never(master_perm::normal(argv), f)->0
                + " — a grant or a rule cannot allow it"@,
        ),
{
}

/// No command of the never-list becomes a request, whatever the reason.
pub proof fn the_never_list_is_not_requestable(
    reason: Seq<char>,
    by: Seq<char>,
    cwd: Seq<char>,
    argv: Seq<Seq<char>>,
    f: Facts,
    list: Seq<Seq<char>>,
)
    requires
        master_perm::never(master_perm::normal(argv), f) is Some,
    ensures
        ask_fault(reason, by, cwd, class_at(argv, Some(&f), list)) is Some,
{
}

proof fn rule_found(v: Seq<RuleView>, effect: Effect, argv: Seq<Seq<char>>, cwd: Seq<char>, i: int)
    requires
        0 <= i < v.len(),
        v[i].effect == effect,
        rule_covers(v[i], argv, cwd),
    ensures
        first_rule(v, effect, argv, cwd) is Some,
    decreases v.len(),
{
    if i > 0 && !(v[0].effect == effect && rule_covers(v[0], argv, cwd)) {
        assert(v.drop_first()[i - 1] == v[i]);
        rule_found(v.drop_first(), effect, argv, cwd, i - 1);
    }
}

/// A deny rule wins over every allow rule and every grant.
pub proof fn deny_beats_allow(
    d: DocView,
    rules: Seq<RuleView>,
    argv: Seq<Seq<char>>,
    cwd: Seq<char>,
    class: ClassView,
    now: i64,
    i: int,
)
    requires
        0 <= i < rules.len(),
        rules[i].effect is Deny,
        rule_covers(rules[i], argv, cwd),
    ensures
        usable(d, rules, argv, cwd, class, now) is Err,
{
    rule_found(rules, Effect::Deny, argv, cwd, i);
}

/// A grant is of one exact command in one directory.
pub proof fn a_grant_is_exact(g: GrantView, argv: Seq<Seq<char>>, cwd: Seq<char>, now: i64)
    requires
        grants_it(g, argv, cwd, now),
    ensures
        g.argv == argv && g.cwd == cwd && g.expires_at > now,
{
}

pub(crate) proof fn grant_index(v: Seq<GrantView>, argv: Seq<Seq<char>>, cwd: Seq<char>, now: i64)
    ensures
        match first_grant(v, argv, cwd, now) {
            Some(i) => 0 <= i < v.len() && grants_it(v[i], argv, cwd, now),
            None => forall|i: int|
                0 <= i < v.len() ==> !grants_it(#[trigger] v[i], argv, cwd, now),
        },
    decreases v.len(),
{
    if v.len() > 0 && !grants_it(v[0], argv, cwd, now) {
        grant_index(v.drop_first(), argv, cwd, now);
        assert forall|i: int| 0 < i < v.len() implies v.drop_first()[i - 1] == v[i] by {}
        if first_grant(v.drop_first(), argv, cwd, now) is None {
            assert forall|i: int| 0 <= i < v.len() implies !grants_it(
                #[trigger] v[i],
                argv,
                cwd,
                now,
            ) by {
                if i > 0 {
                    assert(!grants_it(v.drop_first()[i - 1], argv, cwd, now));
                }
            }
        }
    }
}

/// A grant is used once: after it was taken, the same grant takes nothing.
pub proof fn a_grant_is_used_once(
    d: DocView,
    argv: Seq<Seq<char>>,
    cwd: Seq<char>,
    now: i64,
    later: i64,
)
    requires
        first_grant(d.grants, argv, cwd, now) is Some,
    ensures
        ({
            let i = first_grant(d.grants, argv, cwd, now)->0;
            &&& 0 <= i < d.grants.len()
            &&& !grants_it(spent(d, argv, cwd, now).grants[i], argv, cwd, later)
        }),
{
    grant_index(d.grants, argv, cwd, now);
}

/// With one grant for a command and no rule, a second use finds no
/// permission.
pub proof fn a_single_grant_permits_one_run(
    d: DocView,
    argv: Seq<Seq<char>>,
    cwd: Seq<char>,
    class: ClassView,
    now: i64,
    later: i64,
)
    requires
        d.grants.len() == 1,
        grants_it(d.grants[0], argv, cwd, now),
        !(class is Never),
    ensures
        usable(d, seq![], argv, cwd, class, now) == Ok::<Option<UseView>, Seq<char>>(
            Some(UseView::Grant(d.grants[0].request_id)),
        ),
        usable(spent(d, argv, cwd, now), seq![], argv, cwd, class, later) == Ok::<
            Option<UseView>,
            Seq<char>,
        >(None),
{
    grant_index(d.grants, argv, cwd, now);
    let s = spent(d, argv, cwd, now);
    grant_index(s.grants, argv, cwd, later);
}

/// What has run out lets nothing run.
pub proof fn an_expired_grant_permits_nothing(
    g: GrantView,
    argv: Seq<Seq<char>>,
    cwd: Seq<char>,
    now: i64,
)
    requires
        g.expires_at <= now,
    ensures
        !grants_it(g, argv, cwd, now),
        !live(now)(g),
{
}

/// A request that was decided, or that ran out, cannot be decided again.
pub proof fn a_request_is_decided_once(d: DocView, id: Seq<char>, grant: Seq<char>, now: i64, again: Seq<char>, later: i64)
    requires
        allowed_once(d, id, grant, now) is Ok,
    ensures
        allowed_once(allowed_once(d, id, grant, now)->Ok_0.0, id, again, later) is Err,
{
    reveal_strlit("pending");
    reveal_strlit("allowed");
    assert("pending"@[0] != "allowed"@[0]);
    let e = expired(d, now);
    let n = allowed_once(d, id, grant, now)->Ok_0.0;
    let i = request_at(e.requests, id)->0;
    request_index(e.requests, id);
    request_index(n.requests, id);
    let f = expired(n, later);
    same_place(e.requests, n.requests, id);
    same_place(n.requests, f.requests, id);
    assert(f.requests[i] == aged(n.requests[i], later));
}

pub(crate) proof fn request_index(v: Seq<RequestView>, id: Seq<char>)
    ensures
        match request_at(v, id) {
            Some(i) => 0 <= i < v.len() && v[i].id == id,
            None => true,
        },
    decreases v.len(),
{
    if v.len() > 0 {
        request_index(v.drop_last(), id);
    }
}

pub(crate) proof fn same_place(v: Seq<RequestView>, w: Seq<RequestView>, id: Seq<char>)
    requires
        v.len() == w.len(),
        forall|i: int| 0 <= i < v.len() ==> (#[trigger] v[i]).id == w[i].id,
    ensures
        request_at(v, id) == request_at(w, id),
    decreases v.len(),
{
    if v.len() > 0 {
        same_place(v.drop_last(), w.drop_last(), id);
        assert(v[v.len() - 1].id == w[v.len() - 1].id);
    }
}

/// A rule that an operator saves covers the request it came from, and never
/// a command with another head.
pub proof fn a_rule_keeps_its_verb(
    q: RequestView,
    scope: Scope,
    tail: Seq<Seq<char>>,
    id: Seq<char>,
    now: i64,
    argv: Seq<Seq<char>>,
    cwd: Seq<char>,
)
    requires
        drafted(q, scope, tail, id, now) is Ok,
    ensures
        ({
            let r = drafted(q, scope, tail, id, now)->Ok_0;
            &&& rule_covers(r, q.argv, q.cwd)
            &&& r.argv.len() >= 2
            &&& rule_covers(r, argv, cwd) ==> cwd == q.cwd && argv.len() == q.argv.len()
                && argv[0] == q.argv[0] && argv[1] == q.argv[1]
        }),
{
    let r = drafted(q, scope, tail, id, now)->Ok_0;
    assert(r.argv[0] == q.argv[0]);
    assert(r.argv[1] == q.argv[1]);
    if rule_covers(r, argv, cwd) && scope is Prefix {
        let n = r.argv.len() as int;
        assert(argv.take(n)[0] == argv[0]);
        assert(argv.take(n)[1] == argv[1]);
    }
}

} // verus!
