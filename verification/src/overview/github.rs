//! What GitHub says: pull requests with their checks and verdict, the CI
//! of the default branch, and the cache between two reads.
use crate::json::{self, Json, JsonView};
use crate::order;
use crate::overview::agents;
use crate::overview::needs::{item, Item, ItemView};
use crate::overview::needs;
use crate::overview::GH_CACHE_SECS;
use crate::text;
use crate::time;
use vstd::prelude::*;

verus! {

/// The workflow whose push runs are the default branch's CI verdict.
pub const CI_WORKFLOW: &'static str = "ci.yml";

/// The SHAs of the default branch that are classified.
pub const MAIN_CI_SHAS: usize = 20;

// ---------- checks and verdict of a PR head ----------

/// The items of an array; none of any other value.
pub open spec fn items_of(j: Option<JsonView>) -> Seq<JsonView> {
    match j {
        Some(JsonView::Arr(a)) => a,
        _ => seq![],
    }
}

/// The name of a check or status.
pub open spec fn check_name(e: JsonView) -> Seq<char> {
    match json::field_str(e, "context"@) {
        Some(c) => c,
        None => match json::field_str(e, "name"@) {
            Some(n) => n,
            None => seq![],
        },
    }
}

pub open spec fn is_verdict(e: JsonView) -> bool {
    text::smalls(check_name(e)) == text::smalls("qa-verdict"@)
}

pub open spec fn absent(j: Option<JsonView>) -> bool {
    j is None || j->0 is Null
}

/// One entry does not stand against a merge: the verdict itself, a check
/// run that completed well, or a status that succeeded.
pub open spec fn entry_green(e: JsonView) -> bool {
    if is_verdict(e) {
        true
    } else if json::field_str(e, "__typename"@) == Some("CheckRun"@) || json::field_str(
        e,
        "conclusion"@,
    ) is Some {
        let conclusion = json::field_str(e, "conclusion"@);
        (json::field_str(e, "status"@) == Some("COMPLETED"@) || absent(json::field(e, "status"@)))
            && (conclusion == Some("SUCCESS"@) || conclusion == Some("SKIPPED"@) || conclusion
            == Some("NEUTRAL"@))
    } else {
        json::field_str(e, "state"@) == Some("SUCCESS"@)
    }
}

fn str_is(s: Option<&str>, want: &str) -> (r: bool)
    ensures
        r == (s.deep_view() == Some(want@)),
{
    match s {
        Some(x) => text::eq(x, want),
        None => false,
    }
}

fn check_name_of<'a>(e: &'a Json, empty: &'a str) -> (r: &'a str)
    requires
        empty@ == Seq::<char>::empty(),
    ensures
        r@ == check_name(e@),
{
    match e.get_str("context") {
        Some(c) => c,
        None => match e.get_str("name") {
            Some(n) => n,
            None => empty,
        },
    }
}

fn is_verdict_of(e: &Json) -> (r: bool)
    ensures
        r == is_verdict(e@),
{
    let empty = String::new();
    text::eq_ascii_case(check_name_of(e, empty.as_str()), "qa-verdict")
}

fn entry_green_of(e: &Json) -> (r: bool)
    ensures
        r == entry_green(e@),
{
    if is_verdict_of(e) {
        return true;
    }
    let conclusion = e.get_str("conclusion");
    if str_is(e.get_str("__typename"), "CheckRun") || conclusion.is_some() {
        let unset = match e.get("status") {
            Some(s) => s.is_null(),
            None => true,
        };
        let done = str_is(e.get_str("status"), "COMPLETED") || unset;
        let ok = str_is(conclusion, "SUCCESS") || str_is(conclusion, "SKIPPED") || str_is(
            conclusion,
            "NEUTRAL",
        );
        return done && ok;
    }
    str_is(e.get_str("state"), "SUCCESS")
}

/// The values of a list of items.
pub open spec fn values(v: Seq<Json>) -> Seq<JsonView> {
    v.map_values(|j: Json| j@)
}

pub open spec fn green(rollup: Seq<JsonView>) -> bool {
    forall|i: int| 0 <= i < rollup.len() ==> entry_green(#[trigger] rollup[i])
}

/// Whether every entry of a rollup but the verdict passed. An empty
/// rollup is green: the human gate is the verdict.
pub fn checks_green(rollup: &Vec<Json>) -> (r: bool)
    ensures
        r == green(values(rollup@)),
{
    let ghost d = values(rollup@);
    let mut i: usize = 0;
    while i < rollup.len()
        invariant
            d == values(rollup@),
            i <= rollup@.len(),
            forall|j: int| 0 <= j < i ==> entry_green(#[trigger] d[j]),
        decreases rollup.len() - i,
    {
        assert(d[i as int] == rollup@[i as int]@);
        if !entry_green_of(&rollup[i]) {
            assert(!entry_green(d[i as int]));
            return false;
        }
        i = i + 1;
    }
    true
}

/// What the first verdict on a rollup says.
pub open spec fn verdict(rollup: Seq<JsonView>) -> Option<Seq<char>>
    decreases rollup.len(),
{
    if rollup.len() == 0 {
        None
    } else if is_verdict(rollup[0]) {
        match json::field_str(rollup[0], "state"@) {
            Some(s) => Some(s),
            None => json::field_str(rollup[0], "conclusion"@),
        }
    } else {
        verdict(rollup.drop_first())
    }
}

/// The state of the `qa-verdict` status on a rollup; `None` when nobody
/// posted one.
pub fn verdict_state(rollup: &Vec<Json>) -> (r: Option<String>)
    ensures
        r.deep_view() == verdict(values(rollup@)),
{
    let ghost d = values(rollup@);
    let mut i: usize = 0;
    assert(d.skip(0) =~= d);
    while i < rollup.len()
        invariant
            d == values(rollup@),
            i <= rollup@.len(),
            verdict(d) == verdict(d.skip(i as int)),
        decreases rollup.len() - i,
    {
        assert(d.skip(i as int)[0] == rollup@[i as int]@);
        assert(d.skip(i as int).drop_first() =~= d.skip(i + 1));
        let e = &rollup[i];
        if is_verdict_of(e) {
            return match e.get_str("state") {
                Some(s) => Some(s.to_owned()),
                None => text::opt_own(e.get_str("conclusion")),
            };
        }
        i = i + 1;
    }
    None
}

/// The time under a key; one before the epoch means "not started".
pub open spec fn time_at(e: JsonView, k: Seq<char>) -> Option<int> {
    match json::field_str(e, k) {
        Some(s) => match time::iso(s) {
            Some(t) if t > 0 => Some(t),
            _ => None,
        },
        None => None,
    }
}

fn time_at_of(e: &Json, k: &str) -> (r: Option<i64>)
    ensures
        match r {
            Some(t) => time_at(e@, k@) == Some(t as int),
            None => time_at(e@, k@) is None,
        },
{
    match e.get_str(k) {
        Some(s) => match time::parse_iso(s) {
            Some(t) => if t > 0 {
                Some(t)
            } else {
                None
            },
            None => None,
        },
        None => None,
    }
}

pub open spec fn least(a: Option<int>, b: Option<int>) -> Option<int> {
    match (a, b) {
        (Some(x), Some(y)) => if x <= y {
            a
        } else {
            b
        },
        (None, _) => b,
        _ => a,
    }
}

pub open spec fn greatest(a: Option<int>, b: Option<int>) -> Option<int> {
    match (a, b) {
        (Some(x), Some(y)) => if x >= y {
            a
        } else {
            b
        },
        (None, _) => b,
        _ => a,
    }
}

/// When an entry ended: its completion, or when a status was posted.
pub open spec fn end_of(e: JsonView) -> Option<int> {
    let done = time_at(e, "completedAt"@);
    if done is Some {
        done
    } else {
        time_at(e, "startedAt"@)
    }
}

/// The earliest start and the latest end of a rollup.
pub open spec fn span(rollup: Seq<JsonView>) -> (Option<int>, Option<int>)
    decreases rollup.len(),
{
    if rollup.len() == 0 {
        (None, None)
    } else {
        let before = span(rollup.drop_last());
        let e = rollup.last();
        (least(before.0, time_at(e, "startedAt"@)), greatest(before.1, end_of(e)))
    }
}

pub open spec fn opt_int(o: Option<i64>) -> Option<int> {
    match o {
        Some(x) => Some(x as int),
        None => None,
    }
}

/// The earliest start and the latest end of a PR head's checks.
pub fn rollup_span(rollup: &Vec<Json>) -> (r: (Option<i64>, Option<i64>))
    ensures
        (opt_int(r.0), opt_int(r.1)) == span(values(rollup@)),
{
    let ghost d = values(rollup@);
    let mut first: Option<i64> = None;
    let mut last: Option<i64> = None;
    let mut i: usize = 0;
    assert(d.take(0) =~= Seq::empty());
    while i < rollup.len()
        invariant
            d == values(rollup@),
            i <= rollup@.len(),
            (opt_int(first), opt_int(last)) == span(d.take(i as int)),
        decreases rollup.len() - i,
    {
        assert(d.take(i + 1).drop_last() =~= d.take(i as int));
        assert(d.take(i + 1).last() == rollup@[i as int]@);
        let start = time_at_of(&rollup[i], "startedAt");
        let end = match time_at_of(&rollup[i], "completedAt") {
            Some(t) => Some(t),
            None => start,
        };
        first =
        match (first, start) {
            (Some(x), Some(y)) => if x <= y {
                first
            } else {
                start
            },
            (None, _) => start,
            _ => first,
        };
        last =
        match (last, end) {
            (Some(x), Some(y)) => if x >= y {
                last
            } else {
                end
            },
            (None, _) => end,
            _ => last,
        };
        i = i + 1;
    }
    assert(d.take(i as int) =~= d);
    (first, last)
}

// ---------- the default branch's CI ----------

pub open spec fn plain_char(c: char) -> bool {
    text::ascii_alnum(c) || c == '.' || c == '_' || c == '/' || c == '-'
}

/// A branch name that needs no quoting.
pub open spec fn plain_ref(b: Seq<char>) -> bool {
    b.len() > 0 && b[0] != '-' && forall|i: int| 0 <= i < b.len() ==> plain_char(#[trigger] b[i])
}

/// Whether a branch name is safe in a query string and a git revision,
/// unquoted.
pub fn is_plain_ref(b: &str) -> (r: bool)
    ensures
        r == plain_ref(b@),
{
    let v = text::chars_of(b);
    if v.len() == 0 || v[0] == '-' {
        return false;
    }
    let mut i: usize = 0;
    while i < v.len()
        invariant
            v@ == b@,
            i <= v@.len(),
            forall|j: int| 0 <= j < i ==> plain_char(#[trigger] b@[j]),
        decreases v.len() - i,
    {
        let c = v[i];
        if !(text::is_ascii_alnum(c) || c == '.' || c == '_' || c == '/' || c == '-') {
            assert(!plain_char(b@[i as int]));
            return false;
        }
        i = i + 1;
    }
    true
}

/// One SHA's own CI verdict. Only its own successful push run makes it
/// `Passed`: never absence, another workflow, or a later SHA.
#[derive(Clone, Copy, Debug, PartialEq, Eq, Structural)]
pub enum CiState {
    Passed,
    Failed,
    /// The run exists and has not completed.
    Pending,
    /// The run completed without a verdict.
    Cancelled,
    /// No push run for this SHA at all.
    Missing,
}

impl CiState {
    pub open spec fn name(self) -> Seq<char> {
        match self {
            CiState::Passed => "passed"@,
            CiState::Failed => "failed"@,
            CiState::Pending => "pending"@,
            CiState::Cancelled => "cancelled"@,
            CiState::Missing => "missing"@,
        }
    }

    pub fn as_str(self) -> (r: &'static str)
        ensures
            r@ == self.name(),
    {
        match self {
            CiState::Passed => "passed",
            CiState::Failed => "failed",
            CiState::Pending => "pending",
            CiState::Cancelled => "cancelled",
            CiState::Missing => "missing",
        }
    }
}

/// A classified SHA of the default branch.
#[derive(Debug)]
pub struct ShaCi {
    pub sha: String,
    pub state: CiState,
    /// Cancelled or missing only: the nearest later SHA whose own run
    /// passed. The SHA itself stays unverified: covered, not passed.
    pub covered_by: Option<String>,
    /// The run that decided `state`.
    pub run_id: Option<u64>,
    pub run_url: Option<String>,
    pub conclusion: Option<String>,
    pub created_at: Option<String>,
}

pub struct ShaCiView {
    pub sha: Seq<char>,
    pub state: CiState,
    pub covered_by: Option<Seq<char>>,
    pub run_id: Option<nat>,
    pub run_url: Option<Seq<char>>,
    pub conclusion: Option<Seq<char>>,
    pub created_at: Option<Seq<char>>,
}

impl View for ShaCi {
    type V = ShaCiView;

    open spec fn view(&self) -> ShaCiView {
        ShaCiView {
            sha: self.sha@,
            state: self.state,
            covered_by: self.covered_by.deep_view(),
            run_id: match self.run_id {
                Some(n) => Some(n as nat),
                None => None,
            },
            run_url: self.run_url.deep_view(),
            conclusion: self.conclusion.deep_view(),
            created_at: self.created_at.deep_view(),
        }
    }
}

pub open spec fn sha_views(v: Seq<ShaCi>) -> Seq<ShaCiView> {
    v.map_values(|s: ShaCi| s@)
}

/// A push run of the CI workflow.
pub open spec fn ci_run(r: JsonView) -> bool {
    let path = match json::field_str(r, "path"@) {
        Some(p) => p,
        None => seq![],
    };
    let file = text::before_first(path, '@');
    json::field_str(r, "event"@) == Some("push"@) && (file == CI_WORKFLOW@ || text::ends(
        file,
        "/"@ + CI_WORKFLOW@,
    ))
}

/// Whether a run is a push run of the CI workflow.
pub fn is_ci_run(r: &Json) -> (b: bool)
    ensures
        b == ci_run(r@),
{
    let path = match r.get_str("path") {
        Some(p) => p.to_owned(),
        None => String::new(),
    };
    let file = match text::split_once(path.as_str(), '@') {
        Some((a, b)) => {
            proof {
                text::first_found(path@, a@, b@, '@');
            }
            a
        },
        None => {
            proof {
                text::first_missing(path@, '@');
            }
            path
        },
    };
    let suffix = "/".to_owned().concat(CI_WORKFLOW);
    str_is(r.get_str("event"), "push") && (text::eq(file.as_str(), CI_WORKFLOW) || text::ends_with(
        file.as_str(),
        suffix.as_str(),
    ))
}

/// What one run says of its SHA.
pub open spec fn state_of(r: JsonView) -> CiState {
    let conclusion = json::field_str(r, "conclusion"@);
    if json::field_str(r, "status"@) != Some("completed"@) {
        CiState::Pending
    } else if conclusion == Some("success"@) {
        CiState::Passed
    } else if conclusion == Some("failure"@) || conclusion == Some("timed_out"@) || conclusion
        == Some("startup_failure"@) {
        CiState::Failed
    } else {
        CiState::Cancelled
    }
}

/// What one run says of its SHA.
pub fn run_state(r: &Json) -> (s: CiState)
    ensures
        s == state_of(r@),
{
    if !str_is(r.get_str("status"), "completed") {
        return CiState::Pending;
    }
    let c = r.get_str("conclusion");
    if str_is(c, "success") {
        CiState::Passed
    } else if str_is(c, "failure") || str_is(c, "timed_out") || str_is(c, "startup_failure") {
        CiState::Failed
    } else {
        CiState::Cancelled
    }
}

pub open spec fn run_id(r: JsonView) -> nat {
    match json::field(r, "id"@) {
        Some(i) => match json::whole(i) {
            Some(n) => n,
            None => 0,
        },
        None => 0,
    }
}

fn run_number(r: &Json) -> (n: Option<u64>)
    ensures
        match n {
            Some(v) => json::field(r@, "id"@) is Some && json::whole(json::field(r@, "id"@)->0)
                == Some(v as nat) && run_id(r@) == v,
            None => (json::field(r@, "id"@) is None || json::whole(json::field(r@, "id"@)->0)
                is None) && run_id(r@) == 0,
        },
{
    match r.get("id") {
        Some(i) => i.as_u64(),
        None => None,
    }
}

/// The SHA that a run counts for: of a CI push run, and not empty.
pub open spec fn run_sha(r: JsonView) -> Option<Seq<char>> {
    if ci_run(r) {
        match json::field_str(r, "head_sha"@) {
            Some(s) if s.len() > 0 => Some(s),
            _ => None,
        }
    } else {
        None
    }
}

fn run_sha_of<'a>(r: &'a Json) -> (s: Option<&'a str>)
    ensures
        s.deep_view() == run_sha(r@),
{
    if !is_ci_run(r) {
        return None;
    }
    match r.get_str("head_sha") {
        Some(s) => if s.is_empty() {
            None
        } else {
            Some(s)
        },
        None => None,
    }
}

/// The place of a SHA's own run: the one with the highest id, the first
/// of equals.
pub open spec fn own_run(runs: Seq<JsonView>, sha: Seq<char>) -> Option<int>
    decreases runs.len(),
{
    if runs.len() == 0 {
        None
    } else {
        let before = own_run(runs.drop_last(), sha);
        let r = runs.last();
        if run_sha(r) == Some(sha) {
            match before {
                Some(p) if run_id(runs[p]) >= run_id(r) => before,
                _ => Some(runs.len() - 1),
            }
        } else {
            before
        }
    }
}

proof fn own_run_bound(runs: Seq<JsonView>, sha: Seq<char>)
    ensures
        own_run(runs, sha) is Some ==> 0 <= own_run(runs, sha)->0 < runs.len() && run_sha(
            runs[own_run(runs, sha)->0],
        ) == Some(sha),
    decreases runs.len(),
{
    if runs.len() > 0 {
        own_run_bound(runs.drop_last(), sha);
    }
}

fn own_run_of(runs: &Vec<Json>, sha: &str) -> (r: Option<usize>)
    ensures
        match r {
            Some(i) => own_run(values(runs@), sha@) == Some(i as int) && i < runs@.len() && run_sha(
                runs@[i as int]@,
            ) == Some(sha@),
            None => own_run(values(runs@), sha@) is None,
        },
{
    let ghost d = values(runs@);
    let mut best: Option<usize> = None;
    let mut i: usize = 0;
    assert(d.take(0) =~= Seq::empty());
    while i < runs.len()
        invariant
            d == values(runs@),
            i <= runs@.len(),
            match best {
                Some(b) => own_run(d.take(i as int), sha@) == Some(b as int) && b < i && run_sha(
                    runs@[b as int]@,
                ) == Some(sha@),
                None => own_run(d.take(i as int), sha@) is None,
            },
        decreases runs.len() - i,
    {
        let ghost cut = d.take(i + 1);
        assert(cut.drop_last() =~= d.take(i as int));
        assert(cut.last() == runs@[i as int]@);
        if str_is(run_sha_of(&runs[i]), sha) {
            let newer = match best {
                Some(b) => {
                    assert(cut[b as int] == runs@[b as int]@);
                    or_zero(run_number(&runs[b])) < or_zero(run_number(&runs[i]))
                },
                None => true,
            };
            if newer {
                best = Some(i);
            }
        }
        i = i + 1;
    }
    assert(d.take(i as int) =~= d);
    best
}

fn or_zero(n: Option<u64>) -> (r: u64)
    ensures
        r == match n {
            Some(v) => v,
            None => 0,
        },
{
    match n {
        Some(v) => v,
        None => 0,
    }
}

/// When a SHA's own run was created; empty without one.
pub open spec fn created(runs: Seq<JsonView>, sha: Seq<char>) -> Seq<char> {
    match own_run(runs, sha) {
        Some(i) => match json::field_str(runs[i], "created_at"@) {
            Some(c) => c,
            None => seq![],
        },
        None => seq![],
    }
}

fn created_of(runs: &Vec<Json>, sha: &str) -> (r: String)
    ensures
        r@ == created(values(runs@), sha@),
{
    match own_run_of(runs, sha) {
        Some(i) => {
            assert(values(runs@)[i as int] == runs@[i as int]@);
            match runs[i].get_str("created_at") {
                Some(c) => c.to_owned(),
                None => String::new(),
            }
        },
        None => String::new(),
    }
}

/// The latest creation among the runs of listed SHAs.
pub open spec fn newest_listed(runs: Seq<JsonView>, listed: Seq<Seq<char>>) -> Seq<char>
    decreases listed.len(),
{
    if listed.len() == 0 {
        seq![]
    } else {
        let before = newest_listed(runs, listed.drop_last());
        let c = created(runs, listed.last());
        if text::lt(before, c) {
            c
        } else {
            before
        }
    }
}

/// A run SHA that the branch's log does not list but whose run is newer
/// than every listed one's: pushed after the clone's last fetch.
pub open spec fn is_ahead(runs: Seq<JsonView>, listed: Seq<Seq<char>>, sha: Seq<char>) -> bool {
    !listed.contains(sha) && text::lt(newest_listed(runs, listed), created(runs, sha))
}

/// `a` may stand before `b`: its run is not older, by time and then id.
pub open spec fn later(runs: Seq<JsonView>) -> spec_fn(Seq<char>, Seq<char>) -> bool {
    |a: Seq<char>, b: Seq<char>|
        text::lt(created(runs, b), created(runs, a)) || (created(runs, b) == created(runs, a)
            && own_id(runs, b) <= own_id(runs, a))
}

pub open spec fn own_id(runs: Seq<JsonView>, sha: Seq<char>) -> nat {
    match own_run(runs, sha) {
        Some(i) => run_id(runs[i]),
        None => 0,
    }
}

fn own_id_of(runs: &Vec<Json>, sha: &str) -> (r: u64)
    ensures
        r == own_id(values(runs@), sha@),
{
    match own_run_of(runs, sha) {
        Some(i) => {
            assert(values(runs@)[i as int] == runs@[i as int]@);
            or_zero(run_number(&runs[i]))
        },
        None => 0,
    }
}

/// The SHAs of the runs that are ahead of the log, newest run first.
pub open spec fn ahead(runs: Seq<JsonView>, listed: Seq<Seq<char>>, n: int) -> Seq<Seq<char>>
    decreases n,
{
    if n <= 0 {
        seq![]
    } else {
        let before = ahead(runs, listed, n - 1);
        match run_sha(runs[n - 1]) {
            Some(s) if is_ahead(runs, listed, s) && !before.contains(s) => order::insert(
                before,
                s,
                later(runs),
            ),
            _ => before,
        }
    }
}

/// One SHA by its own run, before covering.
pub open spec fn sha_ci(runs: Seq<JsonView>, sha: Seq<char>) -> ShaCiView {
    match own_run(runs, sha) {
        None => ShaCiView {
            sha,
            state: CiState::Missing,
            covered_by: None,
            run_id: None,
            run_url: None,
            conclusion: None,
            created_at: None,
        },
        Some(i) => ShaCiView {
            sha,
            state: state_of(runs[i]),
            covered_by: None,
            run_id: match json::field(runs[i], "id"@) {
                Some(x) => json::whole(x),
                None => None,
            },
            run_url: json::field_str(runs[i], "html_url"@),
            conclusion: json::field_str(runs[i], "conclusion"@),
            created_at: json::field_str(runs[i], "created_at"@),
        },
    }
}

pub open spec fn unverified(s: CiState) -> bool {
    s is Cancelled || s is Missing
}

/// The last SHA before position `i` whose own run passed. The list is
/// newest first, so it is the nearest later one.
pub open spec fn nearest_pass(runs: Seq<JsonView>, shas: Seq<Seq<char>>, i: int) -> Option<Seq<char>>
    decreases i,
{
    if i <= 0 {
        None
    } else if sha_ci(runs, shas[i - 1]).state is Passed {
        Some(shas[i - 1])
    } else {
        nearest_pass(runs, shas, i - 1)
    }
}

/// The classification of the SHA at position `i` of the list.
pub open spec fn covered(runs: Seq<JsonView>, shas: Seq<Seq<char>>, i: int) -> ShaCiView {
    let own = sha_ci(runs, shas[i]);
    ShaCiView {
        covered_by: if unverified(own.state) {
            nearest_pass(runs, shas, i)
        } else {
            None
        },
        ..own
    }
}

/// The SHAs that are classified: those ahead of the log, then the log.
pub open spec fn ci_shas(runs: Seq<JsonView>, listed: Seq<Seq<char>>) -> Seq<Seq<char>> {
    ahead(runs, listed, runs.len() as int) + listed
}

/// The default branch's recent SHAs by their own push run, newest first,
/// at most [`MAIN_CI_SHAS`].
pub open spec fn main_ci(runs: Seq<JsonView>, listed: Seq<Seq<char>>) -> Seq<ShaCiView> {
    let shas = ci_shas(runs, listed);
    let n = if shas.len() > MAIN_CI_SHAS {
        MAIN_CI_SHAS as nat
    } else {
        shas.len()
    };
    Seq::new(n, |i: int| covered(runs, shas, i))
}

fn newest_listed_of(runs: &Vec<Json>, listed: &Vec<String>) -> (r: String)
    ensures
        r@ == newest_listed(values(runs@), listed.deep_view()),
{
    let ghost d = listed.deep_view();
    let mut best = String::new();
    let mut i: usize = 0;
    assert(d.take(0) =~= Seq::empty());
    while i < listed.len()
        invariant
            d == listed.deep_view(),
            i <= listed@.len(),
            best@ == newest_listed(values(runs@), d.take(i as int)),
        decreases listed.len() - i,
    {
        assert(d.take(i + 1).drop_last() =~= d.take(i as int));
        assert(d.take(i + 1).last() == listed@[i as int]@);
        let c = created_of(runs, listed[i].as_str());
        if text::less(best.as_str(), c.as_str()) {
            best = c;
        }
        i = i + 1;
    }
    assert(d.take(i as int) =~= d);
    best
}

fn is_later(runs: &Vec<Json>, a: &str, b: &str) -> (r: bool)
    ensures
        r == later(values(runs@))(a@, b@),
{
    let x = created_of(runs, a);
    let y = created_of(runs, b);
    text::less(y.as_str(), x.as_str()) || (text::eq(y.as_str(), x.as_str()) && own_id_of(runs, b)
        <= own_id_of(runs, a))
}

fn ahead_of(runs: &Vec<Json>, listed: &Vec<String>) -> (r: Vec<String>)
    ensures
        r.deep_view() == ahead(values(runs@), listed.deep_view(), runs@.len() as int),
{
    let ghost d = values(runs@);
    let ghost le = later(d);
    let newest = newest_listed_of(runs, listed);
    let mut out: Vec<String> = Vec::new();
    let mut i: usize = 0;
    assert(out.deep_view() =~= ahead(d, listed.deep_view(), 0));
    while i < runs.len()
        invariant
            d == values(runs@),
            le == later(d),
            newest@ == newest_listed(d, listed.deep_view()),
            i <= runs@.len(),
            out.deep_view() == ahead(d, listed.deep_view(), i as int),
        decreases runs.len() - i,
    {
        assert(d[i as int] == runs@[i as int]@);
        if let Some(s) = run_sha_of(&runs[i]) {
            if !text::has_name(listed, s) && text::less(
                newest.as_str(),
                created_of(runs, s).as_str(),
            ) && !text::has_name(&out, s) {
                let ghost o = out.deep_view();
                let mut k: usize = out.len();
                while k > 0 && !is_later(runs, out[k - 1].as_str(), s)
                    invariant
                        d == values(runs@),
                        le == later(d),
                        o == out.deep_view(),
                        k <= out@.len(),
                        forall|j: int| k <= j < o.len() ==> !le(#[trigger] o[j], s@),
                    decreases k,
                {
                    assert(o[k - 1] == out@[k - 1]@);
                    k = k - 1;
                }
                proof {
                    if k > 0 {
                        assert(o[k - 1] == out@[k - 1]@);
                    }
                    order::insert_at(o, s@, le, k as int);
                }
                out.insert(k, s.to_owned());
                assert(out.deep_view() =~= o.insert(k as int, s@));
            }
        }
        i = i + 1;
    }
    out
}

fn sha_ci_of(runs: &Vec<Json>, sha: &str) -> (r: ShaCi)
    ensures
        r@ == sha_ci(values(runs@), sha@),
{
    match own_run_of(runs, sha) {
        None => ShaCi {
            sha: sha.to_owned(),
            state: CiState::Missing,
            covered_by: None,
            run_id: None,
            run_url: None,
            conclusion: None,
            created_at: None,
        },
        Some(i) => {
            assert(values(runs@)[i as int] == runs@[i as int]@);
            let r = &runs[i];
            ShaCi {
                sha: sha.to_owned(),
                state: run_state(r),
                covered_by: None,
                run_id: run_number(r),
                run_url: text::opt_own(r.get_str("html_url")),
                conclusion: text::opt_own(r.get_str("conclusion")),
                created_at: text::opt_own(r.get_str("created_at")),
            }
        },
    }
}

/// Classifies the default branch's recent SHAs. `first_parent` is its
/// log, newest first; without a clone the runs alone give the order.
pub fn classify_main_ci(runs: &Vec<Json>, first_parent: &Vec<String>) -> (r: Vec<ShaCi>)
    ensures
        sha_views(r@) == main_ci(values(runs@), first_parent.deep_view()),
{
    let ghost d = values(runs@);
    let ghost shas = ci_shas(d, first_parent.deep_view());
    let mut list = ahead_of(runs, first_parent);
    let ghost front = list.deep_view();
    let mut k: usize = 0;
    assert(front + first_parent.deep_view().take(0) =~= front);
    while k < first_parent.len()
        invariant
            k <= first_parent@.len(),
            list.deep_view() == front + first_parent.deep_view().take(k as int),
        decreases first_parent.len() - k,
    {
        let ghost before = list.deep_view();
        list.push(first_parent[k].clone());
        assert(list.deep_view() =~= before.push(first_parent.deep_view()[k as int]));
        assert(front + first_parent.deep_view().take(k + 1) =~= before.push(
            first_parent.deep_view()[k as int],
        ));
        k = k + 1;
    }
    assert(first_parent.deep_view().take(k as int) =~= first_parent.deep_view());
    assert(list.deep_view() == shas);
    assert(list@.len() == shas.len());
    let mut out: Vec<ShaCi> = Vec::new();
    let mut near: Option<String> = None;
    let mut i: usize = 0;
    while i < list.len() && i < MAIN_CI_SHAS
        invariant
            d == values(runs@),
            shas == list.deep_view(),
            i <= list@.len(),
            i <= MAIN_CI_SHAS,
            out@.len() == i,
            forall|j: int| 0 <= j < i ==> (#[trigger] out@[j])@ == covered(d, shas, j),
            near.deep_view() == nearest_pass(d, shas, i as int),
        decreases list.len() - i,
    {
        assert(shas[i as int] == list@[i as int]@);
        let mut s = sha_ci_of(runs, list[i].as_str());
        match s.state {
            CiState::Cancelled | CiState::Missing => {
                s.covered_by = text::opt_copy(&near);
            },
            CiState::Passed => {
                near = Some(list[i].clone());
            },
            _ => {},
        }
        out.push(s);
        i = i + 1;
    }
    assert(sha_views(out@) =~= main_ci(d, first_parent.deep_view()));
    out
}

/// What the classification alerts on.
#[derive(Debug)]
pub struct MainCiAlerts<'a> {
    /// The newest SHA with a verdict, when it failed.
    pub red: Option<&'a ShaCi>,
    /// Cancelled or missing SHAs that no later pass covers, newest first.
    pub unverified: Vec<&'a ShaCi>,
}

/// The newest SHA that passed or failed.
pub open spec fn first_verdict(shas: Seq<ShaCiView>) -> Option<ShaCiView>
    decreases shas.len(),
{
    if shas.len() == 0 {
        None
    } else if shas[0].state is Passed || shas[0].state is Failed {
        Some(shas[0])
    } else {
        first_verdict(shas.drop_first())
    }
}

/// The newest SHA with a verdict, when it failed.
pub open spec fn red_of(shas: Seq<ShaCiView>) -> Option<ShaCiView> {
    match first_verdict(shas) {
        Some(s) if s.state is Failed => Some(s),
        _ => None,
    }
}

pub open spec fn uncovered() -> spec_fn(ShaCiView) -> bool {
    |s: ShaCiView| unverified(s.state) && s.covered_by is None
}

pub open spec fn ref_views(v: Seq<&ShaCi>) -> Seq<ShaCiView> {
    v.map_values(|s: &ShaCi| s@)
}

/// What the classification alerts on. Pending and cancelled SHAs carry no
/// verdict, so they neither raise nor clear a red branch.
pub fn main_ci_alerts(shas: &Vec<ShaCi>) -> (r: MainCiAlerts<'_>)
    ensures
        match r.red {
            Some(s) => red_of(sha_views(shas@)) == Some(s@),
            None => red_of(sha_views(shas@)) is None,
        },
        ref_views(r.unverified@) == sha_views(shas@).filter(uncovered()),
{
    let ghost f = uncovered();
    let ghost d = sha_views(shas@);
    let mut red: Option<&ShaCi> = None;
    let mut decided = false;
    let mut open: Vec<&ShaCi> = Vec::new();
    let mut i: usize = 0;
    assert(d.skip(0) =~= d);
    assert(ref_views(open@) =~= d.take(0).filter(f)) by {
        reveal(Seq::filter);
    }
    while i < shas.len()
        invariant
            f == uncovered(),
            d == sha_views(shas@),
            i <= shas@.len(),
            !decided ==> red is None && first_verdict(d) == first_verdict(d.skip(i as int)),
            decided ==> match red {
                Some(s) => red_of(d) == Some(s@),
                None => red_of(d) is None,
            },
            ref_views(open@) == d.take(i as int).filter(f),
        decreases shas.len() - i,
    {
        let ghost cut = d.take(i + 1);
        assert(cut.drop_last() =~= d.take(i as int));
        assert(d.skip(i as int)[0] == shas@[i as int]@);
        assert(d.skip(i as int).drop_first() =~= d.skip(i + 1));
        let ghost o = ref_views(open@);
        let s = &shas[i];
        match s.state {
            CiState::Failed => {
                if !decided {
                    red = Some(s);
                }
                decided = true;
            },
            CiState::Passed => {
                decided = true;
            },
            CiState::Cancelled | CiState::Missing => {
                if s.covered_by.is_none() {
                    open.push(s);
                    assert(ref_views(open@) =~= o.push(s@));
                }
            },
            CiState::Pending => {},
        }
        assert(ref_views(open@) == cut.filter(f)) by {
            reveal(Seq::filter);
        }
        i = i + 1;
    }
    assert(d.take(i as int) =~= d);
    MainCiAlerts { red, unverified: open }
}

/// The short form of a SHA: its first seven bytes.
pub open spec fn short_of(sha: Seq<char>) -> Seq<char> {
    if vstd::utf8::is_char_boundary(vstd::utf8::encode_utf8(sha), 7) {
        vstd::utf8::decode_utf8(vstd::utf8::encode_utf8(sha).subrange(0, 7))
    } else {
        sha
    }
}

fn short(sha: &str) -> (r: String)
    ensures
        r@ == short_of(sha@),
{
    if sha.is_char_boundary(7) {
        let (a, b) = sha.split_at(7);
        proof {
            vstd::utf8::encode_utf8_decode_utf8(a@);
        }
        a.to_owned()
    } else {
        sha.to_owned()
    }
}

pub open spec fn run_at(s: ShaCiView) -> Option<int> {
    match s.created_at {
        Some(c) => time::iso(c),
        None => None,
    }
}

fn run_at_of(s: &ShaCi) -> (r: Option<i64>)
    ensures
        opt_int(r) == run_at(s@),
{
    match &s.created_at {
        Some(c) => time::parse_iso(c.as_str()),
        None => None,
    }
}

/// How long ago something was, zero when its time is unknown.
pub open spec fn age_since(t: Option<int>, now: i64) -> i64 {
    match t {
        Some(t) => time::clamp(now - t),
        None => 0,
    }
}

fn age_since_of(t: Option<i64>, now: i64) -> (r: i64)
    ensures
        r == age_since(opt_int(t), now),
{
    match t {
        Some(t) => time::minus(now, t),
        None => 0,
    }
}

pub open spec fn int_opt(t: Option<int>) -> Option<i64> {
    match t {
        Some(t) => Some(t as i64),
        None => None,
    }
}

pub open spec fn list_command(slug: Seq<char>, branch: Seq<char>) -> Seq<char> {
    "gh run list --repo "@ + slug + " --workflow ci.yml --branch "@ + branch
}

pub open spec fn run_command(verb: Seq<char>, id: nat, slug: Seq<char>) -> Seq<char> {
    "gh run "@ + verb + " "@ + text::dec(id) + " --repo "@ + slug
}

pub open spec fn ci_row(
    slug: Seq<char>,
    project: Seq<char>,
    branch: Seq<char>,
    s: ShaCiView,
    rank: u8,
    kind: Seq<char>,
    title: Seq<char>,
    command: Seq<char>,
    now: i64,
) -> ItemView {
    needs::new_row(rank, kind, title, age_since(run_at(s), now), project, s.run_url, command).about(
        "ci"@,
        slug + "@"@ + branch,
    ).since(int_opt(run_at(s)))
}

/// The row of a red default branch.
pub open spec fn red_row(
    slug: Seq<char>,
    project: Seq<char>,
    branch: Seq<char>,
    s: ShaCiView,
    now: i64,
) -> ItemView {
    ci_row(
        slug,
        project,
        branch,
        s,
        90,
        "ci_red"@,
        branch + " CI failed at "@ + short_of(s.sha) + " — "@ + slug,
        match s.run_id {
            Some(id) => run_command("view"@, id, slug),
            None => list_command(slug, branch),
        },
        now,
    )
}

/// The row of SHAs that nothing verified: re-running the newest cancelled
/// one covers every older one once it passes.
pub open spec fn unverified_row(
    slug: Seq<char>,
    project: Seq<char>,
    branch: Seq<char>,
    s: ShaCiView,
    n: nat,
    now: i64,
) -> ItemView {
    let what = short_of(s.sha) + " "@ + s.state.name();
    ci_row(
        slug,
        project,
        branch,
        s,
        92,
        "ci_unverified"@,
        branch + " CI unverified: "@ + (if n == 1 {
            what
        } else {
            text::dec(n) + " SHAs, newest "@ + what
        }) + ", no later SHA passed yet — "@ + slug,
        if s.state is Cancelled && s.run_id is Some {
            run_command("rerun"@, s.run_id->0, slug)
        } else {
            list_command(slug, branch)
        },
        now,
    )
}

/// The rows that a classification raises.
pub open spec fn ci_rows(
    slug: Seq<char>,
    project: Seq<char>,
    branch: Seq<char>,
    shas: Seq<ShaCiView>,
    now: i64,
) -> Seq<ItemView> {
    let open = shas.filter(uncovered());
    agents::opt_row(
        match red_of(shas) {
            Some(s) => Some(red_row(slug, project, branch, s, now)),
            None => None,
        },
    ) + agents::opt_row(
        if open.len() > 0 {
            Some(unverified_row(slug, project, branch, open[0], open.len(), now))
        } else {
            None
        },
    )
}

fn ci_item(
    slug: &str,
    project: &str,
    branch: &str,
    s: &ShaCi,
    rank: u8,
    kind: &str,
    title: &str,
    command: &str,
    now: i64,
) -> (r: Item)
    ensures
        r@ == ci_row(slug@, project@, branch@, s@, rank, kind@, title@, command@, now),
{
    let at = run_at_of(s);
    let subject = slug.to_owned().concat("@").concat(branch);
    item(
        rank,
        kind,
        title,
        age_since_of(at, now),
        project,
        text::opt_str(&s.run_url),
        command,
    ).about("ci", subject.as_str()).since(at)
}

fn run_command_of(verb: &str, id: u64, slug: &str) -> (r: String)
    ensures
        r@ == run_command(verb@, id as nat, slug@),
{
    "gh run ".to_owned().concat(verb).concat(" ").concat(text::dec_of(id).as_str()).concat(
        " --repo ",
    ).concat(slug)
}

fn list_command_of(slug: &str, branch: &str) -> (r: String)
    ensures
        r@ == list_command(slug@, branch@),
{
    "gh run list --repo ".to_owned().concat(slug).concat(" --workflow ci.yml --branch ").concat(
        branch,
    )
}

/// The rows that a classification raises.
pub fn ci_items(slug: &str, project: &str, branch: &str, shas: &Vec<ShaCi>, now: i64) -> (r: Vec<
    Item,
>)
    ensures
        needs::views(r@) == ci_rows(slug@, project@, branch@, sha_views(shas@), now),
{
    let alerts = main_ci_alerts(shas);
    let ghost d = sha_views(shas@);
    let mut rows: Vec<Item> = Vec::new();
    assert(needs::views(rows@) =~= Seq::empty());
    if let Some(s) = alerts.red {
        let command = match s.run_id {
            Some(id) => run_command_of("view", id, slug),
            None => list_command_of(slug, branch),
        };
        let title = branch.to_owned().concat(" CI failed at ").concat(
            short(s.sha.as_str()).as_str(),
        ).concat(" — ").concat(slug);
        rows.push(
            ci_item(slug, project, branch, s, 90, "ci_red", title.as_str(), command.as_str(), now),
        );
    }
    let ghost first = needs::views(rows@);
    assert(first =~= agents::opt_row(
        match red_of(d) {
            Some(s) => Some(red_row(slug@, project@, branch@, s, now)),
            None => None,
        },
    ));
    assert(ref_views(alerts.unverified@).len() == alerts.unverified@.len());
    if alerts.unverified.len() > 0 {
        let s = alerts.unverified[0];
        let n = alerts.unverified.len();
        assert(ref_views(alerts.unverified@)[0] == s@);
        let what = short(s.sha.as_str()).concat(" ").concat(s.state.as_str());
        let desc = if n == 1 {
            what
        } else {
            text::dec_of(n as u64).concat(" SHAs, newest ").concat(what.as_str())
        };
        let again = match (s.state, s.run_id) {
            (CiState::Cancelled, Some(id)) => run_command_of("rerun", id, slug),
            _ => list_command_of(slug, branch),
        };
        let title = branch.to_owned().concat(" CI unverified: ").concat(desc.as_str()).concat(
            ", no later SHA passed yet — ",
        ).concat(slug);
        rows.push(
            ci_item(
                slug,
                project,
                branch,
                s,
                92,
                "ci_unverified",
                title.as_str(),
                again.as_str(),
                now,
            ),
        );
    }
    assert(needs::views(rows@) =~= ci_rows(slug@, project@, branch@, d, now));
    rows
}

/// What the screen shows of one repo's default branch.
#[derive(Debug)]
pub enum MainCiView {
    /// No CI to read, or a cache without it.
    Nothing,
    /// It could not be read.
    Fault { branch: Option<String>, error: Json },
    Shas {
        branch: String,
        /// The log of a clone gave the order, not the runs alone.
        by_log: bool,
        log_error: Option<String>,
        shas: Vec<ShaCi>,
    },
}

/// What a repo's data says of its CI.
pub enum CiBlock {
    Nothing,
    Fault { branch: Option<Seq<char>>, error: JsonView },
    Runs { branch: Seq<char>, runs: Seq<JsonView> },
}

/// What stands under a key, or null.
pub open spec fn field_or_null(j: JsonView, k: Seq<char>) -> JsonView {
    match json::field(j, k) {
        Some(v) => v,
        None => JsonView::Null,
    }
}

pub open spec fn ci_block(data: JsonView) -> CiBlock {
    match json::field(data, "main_ci"@) {
        None => CiBlock::Nothing,
        Some(JsonView::Null) => CiBlock::Nothing,
        Some(block) => match json::field_str(block, "branch"@) {
            None => CiBlock::Fault { branch: None, error: field_or_null(block, "error"@) },
            Some(branch) => if json::field(block, "absent"@) == Some(JsonView::Bool(true)) {
                CiBlock::Nothing
            } else {
                match json::field(block, "runs"@) {
                    Some(JsonView::Arr(runs)) => CiBlock::Runs { branch, runs },
                    _ => CiBlock::Fault {
                        branch: Some(branch),
                        error: field_or_null(block, "error"@),
                    },
                }
            },
        },
    }
}

/// The branch whose log a repo's CI is placed by, when there are runs.
pub fn ci_branch(data: &Json) -> (r: Option<String>)
    ensures
        r.deep_view() == match ci_block(data@) {
            CiBlock::Runs { branch, runs } => Some(branch),
            _ => None,
        },
{
    let block = match data.get("main_ci") {
        None => {
            return None;
        },
        Some(b) => b,
    };
    if block.is_null() {
        return None;
    }
    let branch = match block.get_str("branch") {
        None => {
            return None;
        },
        Some(b) => b,
    };
    if is_true(block.get("absent")) {
        return None;
    }
    match block.get("runs") {
        Some(runs) => match runs.as_arr() {
            Some(_) => Some(branch.to_owned()),
            None => None,
        },
        None => None,
    }
}

fn is_true(j: Option<&Json>) -> (r: bool)
    ensures
        r == match j {
            Some(x) => x@ == JsonView::Bool(true),
            None => false,
        },
{
    match j {
        Some(x) => match x.as_bool() {
            Some(b) => b,
            None => false,
        },
        None => false,
    }
}

pub open spec fn log_of(log: Option<Result<Vec<String>, String>>) -> Seq<Seq<char>> {
    match log {
        Some(Ok(l)) => l.deep_view(),
        _ => seq![],
    }
}

pub open spec fn log_error_of(log: Option<Result<Vec<String>, String>>) -> Option<Seq<char>> {
    match log {
        Some(Ok(_)) => None,
        Some(Err(e)) => Some(e@),
        None => Some("no local clone declared"@),
    }
}

/// The CI block of one repo and the rows that it raises. `log` is the
/// first-parent log of the branch in the repo's clone, when it has one.
pub fn main_ci_view(
    slug: &str,
    project: &str,
    data: &Json,
    log: Option<Result<Vec<String>, String>>,
    now: i64,
) -> (r: (MainCiView, Vec<Item>))
    ensures
        match ci_block(data@) {
            CiBlock::Nothing => r.0 is Nothing && r.1@.len() == 0,
            CiBlock::Fault { branch, error } => r.1@.len() == 0 && match r.0 {
                MainCiView::Fault { branch: b, error: e } => b.deep_view() == branch
                    && e@ == error,
                _ => false,
            },
            CiBlock::Runs { branch, runs } => {
                let shas = main_ci(runs, log_of(log));
                &&& needs::views(r.1@) == ci_rows(slug@, project@, branch, shas, now)
                &&& match r.0 {
                    MainCiView::Shas { branch: b, by_log, log_error, shas: s } => {
                        &&& b@ == branch
                        &&& by_log == (log_of(log).len() > 0)
                        &&& log_error.deep_view() == log_error_of(log)
                        &&& sha_views(s@) == shas
                    },
                    _ => false,
                }
            },
        },
{
    let block = match data.get("main_ci") {
        None => {
            return (MainCiView::Nothing, Vec::new());
        },
        Some(b) => b,
    };
    if block.is_null() {
        return (MainCiView::Nothing, Vec::new());
    }
    let error = match block.get("error") {
        Some(e) => json::copy(e),
        None => Json::Null,
    };
    let branch = match block.get_str("branch") {
        None => {
            return (MainCiView::Fault { branch: None, error }, Vec::new());
        },
        Some(b) => b,
    };
    if is_true(block.get("absent")) {
        return (MainCiView::Nothing, Vec::new());
    }
    let runs = match block.get("runs") {
        Some(x) => x.as_arr(),
        None => None,
    };
    let runs = match runs {
        None => {
            return (MainCiView::Fault { branch: Some(branch.to_owned()), error }, Vec::new());
        },
        Some(v) => v,
    };
    assert(ci_block(data@) is Runs);
    assert(ci_block(data@)->runs =~= values(runs@));
    let ghost listed = log_of(log);
    let ghost fault = log_error_of(log);
    let (first_parent, log_error) = match log {
        Some(Ok(l)) => (l, None),
        Some(Err(e)) => (Vec::new(), Some(e)),
        None => (Vec::new(), Some("no local clone declared".to_owned())),
    };
    assert(first_parent.deep_view() =~= listed);
    let shas = classify_main_ci(runs, &first_parent);
    let rows = ci_items(slug, project, branch, &shas, now);
    (
        MainCiView::Shas {
            branch: branch.to_owned(),
            by_log: first_parent.len() > 0,
            log_error,
            shas,
        },
        rows,
    )
}

// ---------- pull request rows ----------

/// The branch prefix of an issue and who owns it.
#[derive(Debug)]
pub struct BranchIssue {
    pub prefix: String,
    pub owner: Option<String>,
}

/// The owner of the issue that a branch belongs to; empty when nobody.
pub open spec fn branch_owner(head: Seq<char>, issues: Seq<BranchIssue>) -> Seq<char>
    decreases issues.len(),
{
    if issues.len() == 0 {
        seq![]
    } else if text::begins(head, issues[0].prefix@) {
        match issues[0].owner {
            Some(o) => o@,
            None => seq![],
        }
    } else {
        branch_owner(head, issues.drop_first())
    }
}

fn branch_owner_of(head: &str, issues: &Vec<BranchIssue>) -> (r: String)
    ensures
        r@ == branch_owner(head@, issues@),
{
    let mut i: usize = 0;
    assert(issues@.skip(0) =~= issues@);
    while i < issues.len()
        invariant
            i <= issues@.len(),
            branch_owner(head@, issues@) == branch_owner(head@, issues@.skip(i as int)),
        decreases issues.len() - i,
    {
        assert(issues@.skip(i as int).drop_first() =~= issues@.skip(i + 1));
        if text::starts_with(head, issues[i].prefix.as_str()) {
            return match &issues[i].owner {
                Some(o) => o.clone(),
                None => String::new(),
            };
        }
        i = i + 1;
    }
    String::new()
}

pub open spec fn text_field(j: JsonView, k: Seq<char>) -> Seq<char> {
    match json::field_str(j, k) {
        Some(s) => s,
        None => seq![],
    }
}

fn text_field_of(j: &Json, k: &str) -> (r: String)
    ensures
        r@ == text_field(j@, k@),
{
    match j.get_str(k) {
        Some(s) => s.to_owned(),
        None => String::new(),
    }
}

pub open spec fn pr_number_of(pr: JsonView) -> int {
    match json::field(pr, "number"@) {
        Some(n) => match json::integer(n) {
            Some(i) => i,
            None => 0,
        },
        None => 0,
    }
}

/// A row about a pull request, for its issue's owner.
pub open spec fn pr_item_row(
    slug: Seq<char>,
    project: Seq<char>,
    pr: JsonView,
    issues: Seq<BranchIssue>,
    rank: u8,
    kind: Seq<char>,
    note: Seq<char>,
    command: Seq<char>,
    since: Option<int>,
    now: i64,
) -> ItemView {
    let n = text::dec_int(pr_number_of(pr));
    let owner = branch_owner(text::lowercase(text_field(pr, "headRefName"@)), issues);
    needs::new_row(
        rank,
        kind,
        "PR #"@ + n + " "@ + text_field(pr, "title"@) + note,
        age_since(
            match json::field_str(pr, "updatedAt"@) {
                Some(u) => time::iso(u),
                None => None,
            },
            now,
        ),
        project,
        json::field_str(pr, "url"@),
        command,
    ).about("pr"@, slug + "#"@ + n).for_agent(owner).owned_by(Some(owner)).since(int_opt(since))
}

/// The row of one open PR: ready to merge at this very head, or without a
/// verdict. A verdict that failed, or one that checks contradict, is no
/// row.
pub open spec fn pr_row(
    slug: Seq<char>,
    project: Seq<char>,
    pr: JsonView,
    issues: Seq<BranchIssue>,
    now: i64,
) -> Option<ItemView> {
    let rollup = items_of(json::field(pr, "statusCheckRollup"@));
    let n = text::dec_int(pr_number_of(pr));
    let said = verdict(rollup);
    if said == Some("SUCCESS"@) && green(rollup) {
        Some(
            pr_item_row(
                slug,
                project,
                pr,
                issues,
                10,
                "merge"@,
                " — verdict pass, checks green"@,
                "gh pr merge "@ + n + " --repo "@ + slug
                    + " --squash --admin --match-head-commit "@ + text_field(pr, "headRefOid"@),
                span(rollup).1,
                now,
            ),
        )
    } else if said == Some("SUCCESS"@) || said == Some("FAILURE"@) || said == Some("ERROR"@) {
        None
    } else {
        Some(
            pr_item_row(
                slug,
                project,
                pr,
                issues,
                60,
                "pr_no_verdict"@,
                " — no verdict"@,
                "gh pr view "@ + n + " --repo "@ + slug,
                span(rollup).0,
                now,
            ),
        )
    }
}

fn pr_row_item(
    slug: &str,
    project: &str,
    pr: &Json,
    issues: &Vec<BranchIssue>,
    rank: u8,
    kind: &str,
    note: &str,
    command: &str,
    since: Option<i64>,
    n: &str,
    now: i64,
) -> (r: Item)
    requires
        n@ == text::dec_int(pr_number_of(pr@)),
    ensures
        r@ == pr_item_row(
            slug@,
            project@,
            pr@,
            issues@,
            rank,
            kind@,
            note@,
            command@,
            opt_int(since),
            now,
        ),
{
    let head = text::to_lowercase(text_field_of(pr, "headRefName").as_str());
    let owner = branch_owner_of(head.as_str(), issues);
    let title = "PR #".to_owned().concat(n).concat(" ").concat(
        text_field_of(pr, "title").as_str(),
    ).concat(note);
    let updated = match pr.get_str("updatedAt") {
        Some(u) => time::parse_iso(u),
        None => None,
    };
    let subject = slug.to_owned().concat("#").concat(n);
    item(
        rank,
        kind,
        title.as_str(),
        age_since_of(updated, now),
        project,
        pr.get_str("url"),
        command,
    ).about("pr", subject.as_str()).for_agent(owner.as_str()).owned_by(
        Some(owner.as_str()),
    ).since(since)
}

/// The row of one open PR.
pub fn pr_item(slug: &str, project: &str, pr: &Json, issues: &Vec<BranchIssue>, now: i64) -> (r:
    Option<Item>)
    ensures
        agents::item_opt(r) == pr_row(slug@, project@, pr@, issues@, now),
{
    let number: i64 = match pr.get("number") {
        Some(x) => match x.as_i64() {
            Some(i) => i,
            None => 0,
        },
        None => 0,
    };
    let n = text::dec_int_of(number);
    let none: Vec<Json> = Vec::new();
    let rollup = match pr.get("statusCheckRollup") {
        Some(x) => match x.as_arr() {
            Some(v) => v,
            None => &none,
        },
        None => &none,
    };
    assert(values(rollup@) =~= items_of(json::field(pr@, "statusCheckRollup"@)));
    let (first, last) = rollup_span(rollup);
    let said = verdict_state(rollup);
    if text::opt_is(&said, "SUCCESS") && checks_green(rollup) {
        let command = "gh pr merge ".to_owned().concat(n.as_str()).concat(" --repo ").concat(
            slug,
        ).concat(" --squash --admin --match-head-commit ").concat(
            text_field_of(pr, "headRefOid").as_str(),
        );
        return Some(
            pr_row_item(
                slug,
                project,
                pr,
                issues,
                10,
                "merge",
                " — verdict pass, checks green",
                command.as_str(),
                last,
                n.as_str(),
                now,
            ),
        );
    }
    if text::opt_is(&said, "SUCCESS") || text::opt_is(&said, "FAILURE") || text::opt_is(
        &said,
        "ERROR",
    ) {
        return None;
    }
    let command = "gh pr view ".to_owned().concat(n.as_str()).concat(" --repo ").concat(slug);
    Some(
        pr_row_item(
            slug,
            project,
            pr,
            issues,
            60,
            "pr_no_verdict",
            " — no verdict",
            command.as_str(),
            first,
            n.as_str(),
            now,
        ),
    )
}


// ---------- reading GitHub ----------

/// The open PRs of a repo, as `gh pr list` printed them.
pub fn gh_prs(reply: Result<String, String>) -> (r: Result<Json, String>)
    ensures
        match reply {
            Err(e) => r == Err::<Json, String>(e),
            Ok(t) => match json::parsed(t@) {
                Ok(j) => r is Ok && r->Ok_0@ == j,
                Err(e) => r is Err && r->Err_0@ == "gh pr list: unreadable ("@ + e + ")"@,
            },
        },
{
    match reply {
        Err(e) => Err(e),
        Ok(t) => match json::parse(t.as_str()) {
            Ok(j) => Ok(j),
            Err(e) => Err("gh pr list: unreadable (".to_owned().concat(e.as_str()).concat(")")),
        },
    }
}

/// The default branch that a repo's description names: one that needs no
/// quoting.
pub open spec fn branch_of(repo: JsonView) -> Option<Seq<char>> {
    match json::field_str(repo, "default_branch"@) {
        Some(b) if plain_ref(b) => Some(b),
        _ => None,
    }
}

/// The default branch in what the repo endpoint answered.
pub fn default_branch(slug: &str, reply: Result<String, String>) -> (r: Result<String, String>)
    ensures
        match reply {
            Err(e) => r == Err::<String, String>(e),
            Ok(t) => match json::parsed(t@) {
                Err(e) => r is Err && r->Err_0@ == "unreadable ("@ + e + ")"@,
                Ok(j) => match branch_of(j) {
                    Some(b) => r is Ok && r->Ok_0@ == b,
                    None => r is Err && r->Err_0@ == "repos/"@ + slug@
                        + ": no readable default_branch"@,
                },
            },
        },
{
    let repo = match reply {
        Err(e) => {
            return Err(e);
        },
        Ok(t) => match json::parse(t.as_str()) {
            Err(e) => {
                return Err("unreadable (".to_owned().concat(e.as_str()).concat(")"));
            },
            Ok(j) => j,
        },
    };
    if let Some(b) = repo.get_str("default_branch") {
        if is_plain_ref(b) {
            return Ok(b.to_owned());
        }
    }
    Err("repos/".to_owned().concat(slug).concat(": no readable default_branch"))
}

/// The query for the newest push runs of the CI workflow on a branch.
pub fn runs_query(slug: &str, branch: &str) -> (r: String)
    ensures
        r@ == "repos/"@ + slug@ + "/actions/workflows/ci.yml/runs?branch="@ + branch@
            + "&event=push&per_page=30"@,
{
    "repos/".to_owned().concat(slug).concat("/actions/workflows/ci.yml/runs?branch=").concat(
        branch,
    ).concat("&event=push&per_page=30")
}

/// A value, or null where there is none.
pub open spec fn or_null(j: Option<JsonView>) -> JsonView {
    match j {
        Some(x) => x,
        None => JsonView::Null,
    }
}

/// A run with only the fields that are read.
pub open spec fn trimmed(r: JsonView) -> JsonView {
    JsonView::Obj(keep_fields(r, seq!["id"@, "head_sha"@, "status"@, "conclusion"@, "event"@, "path"@, "head_branch"@, "html_url"@, "created_at"@]))
}

pub open spec fn keep_fields(r: JsonView, names: Seq<Seq<char>>) -> Seq<json::MemberView>
    decreases names.len(),
{
    if names.len() == 0 {
        seq![]
    } else {
        json::with(
            keep_fields(r, names.drop_last()),
            names.last(),
            or_null(json::field(r, names.last())),
        )
    }
}

fn run_fields() -> (r: Vec<&'static str>)
    ensures
        r@.len() == 9,
        r@.map_values(|s: &'static str| s@) == seq!["id"@, "head_sha"@, "status"@, "conclusion"@, "event"@, "path"@, "head_branch"@, "html_url"@, "created_at"@],
{
    let mut r: Vec<&'static str> = Vec::new();
    r.push("id");
    r.push("head_sha");
    r.push("status");
    r.push("conclusion");
    r.push("event");
    r.push("path");
    r.push("head_branch");
    r.push("html_url");
    r.push("created_at");
    assert(r@.map_values(|s: &'static str| s@) =~= seq!["id"@, "head_sha"@, "status"@, "conclusion"@, "event"@, "path"@, "head_branch"@, "html_url"@, "created_at"@]);
    r
}

fn trim_run(run: &Json) -> (r: Json)
    ensures
        r@ == trimmed(run@),
{
    let names = run_fields();
    let ghost d = names@.map_values(|s: &'static str| s@);
    let mut m: Vec<json::Member> = Vec::new();
    let mut i: usize = 0;
    assert(json::members(m@) =~= keep_fields(run@, d.take(0)));
    while i < names.len()
        invariant
            d == names@.map_values(|s: &'static str| s@),
            i <= names@.len(),
            json::members(m@) == keep_fields(run@, d.take(i as int)),
        decreases names.len() - i,
    {
        assert(d.take(i + 1).drop_last() =~= d.take(i as int));
        assert(d.take(i + 1).last() == names@[i as int]@);
        let v = match run.get(names[i]) {
            Some(x) => json::copy(x),
            None => Json::Null,
        };
        m = json::set_key(m, names[i], v);
        i = i + 1;
    }
    assert(d.take(i as int) =~= d);
    let r = Json::Obj(m);
    proof {
        json::members_view(r, m);
    }
    r
}

/// The CI block of a repo, `{branch, runs}`, from what the runs endpoint
/// answered. A repo without the workflow has no CI to read, which is no
/// error.
pub open spec fn runs_block(branch: Seq<char>, reply: Result<String, String>) -> JsonView {
    let head = json::with(seq![], "branch"@, JsonView::Str(branch));
    let fault = |e: Seq<char>| JsonView::Obj(json::with(head, "error"@, JsonView::Str(e)));
    match reply {
        Err(e) => if text::holds(e@, "HTTP 404"@) {
            JsonView::Obj(json::with(head, "absent"@, JsonView::Bool(true)))
        } else {
            fault(e@)
        },
        Ok(t) => match json::parsed(t@) {
            Err(e) => fault("ci runs: unreadable ("@ + e + ")"@),
            Ok(j) => match json::field(j, "workflow_runs"@) {
                Some(JsonView::Arr(runs)) => JsonView::Obj(
                    json::with(
                        head,
                        "runs"@,
                        JsonView::Arr(runs.map_values(|r: JsonView| trimmed(r))),
                    ),
                ),
                _ => fault("ci runs: no workflow_runs array"@),
            },
        },
    }
}

fn block_with(branch: &str, k: &str, v: Json) -> (r: Json)
    ensures
        r@ == JsonView::Obj(
            json::with(json::with(seq![], "branch"@, JsonView::Str(branch@)), k@, v@),
        ),
{
    let none: Vec<json::Member> = Vec::new();
    assert(json::members(none@) =~= seq![]);
    let m = json::set_key(none, "branch", Json::Str(branch.to_owned()));
    let m = json::set_key(m, k, v);
    let r = Json::Obj(m);
    proof {
        json::members_view(r, m);
    }
    r
}

/// The CI block of a repo.
pub fn main_ci_block(branch: &str, reply: Result<String, String>) -> (r: Json)
    ensures
        r@ == runs_block(branch@, reply),
{
    let parsed = match reply {
        Err(e) => {
            if text::contains(e.as_str(), "HTTP 404") {
                return block_with(branch, "absent", Json::Bool(true));
            }
            return block_with(branch, "error", Json::Str(e));
        },
        Ok(t) => match json::parse(t.as_str()) {
            Err(e) => {
                return block_with(
                    branch,
                    "error",
                    Json::Str("ci runs: unreadable (".to_owned().concat(e.as_str()).concat(")")),
                );
            },
            Ok(j) => j,
        },
    };
    let runs = match parsed.get("workflow_runs") {
        Some(x) => x.as_arr(),
        None => None,
    };
    let runs = match runs {
        None => {
            return block_with(
                branch,
                "error",
                Json::Str("ci runs: no workflow_runs array".to_owned()),
            );
        },
        Some(v) => v,
    };
    let mut out: Vec<Json> = Vec::new();
    let mut i: usize = 0;
    while i < runs.len()
        invariant
            i <= runs@.len(),
            out@.len() == i,
            forall|k: int| 0 <= k < i ==> (#[trigger] out@[k])@ == trimmed(runs@[k]@),
        decreases runs.len() - i,
    {
        out.push(trim_run(&runs[i]));
        i = i + 1;
    }
    let list = Json::Arr(out);
    proof {
        json::items_view(list, out);
        let all = json::field(parsed@, "workflow_runs"@)->0->Arr_0;
        assert(all.map_values(|r: JsonView| trimmed(r)) =~= out@.map_values(|x: Json| x@));
    }
    block_with(branch, "runs", list)
}

// ---------- the cache ----------

/// The cache on disk: the repos that it was fetched for, and their data.
/// It serves only a request for the same repos.
#[derive(Debug)]
pub struct GhCache {
    pub at: i64,
    pub slugs: Vec<String>,
    pub repos: Vec<(String, Json)>,
}

pub open spec fn repo_views(v: Seq<(String, Json)>) -> Seq<(Seq<char>, JsonView)> {
    v.map_values(|r: (String, Json)| (r.0@, r.1@))
}

/// The strings of a list.
pub open spec fn strings(v: Seq<JsonView>) -> Seq<Seq<char>>
    decreases v.len(),
{
    if v.len() == 0 {
        seq![]
    } else {
        match v.last() {
            JsonView::Str(s) => strings(v.drop_last()).push(s),
            _ => strings(v.drop_last()),
        }
    }
}

pub open spec fn entries(j: Option<JsonView>) -> Seq<(Seq<char>, JsonView)> {
    match j {
        Some(JsonView::Obj(m)) => m.map_values(|x: json::MemberView| (x.key, x.value)),
        _ => seq![],
    }
}

/// The cache that a JSON value holds; it is one where it says when it was
/// made.
pub open spec fn is_cache(cached: JsonView, c: Option<GhCache>) -> bool {
    match c {
        Some(c) => {
            &&& json::field(cached, "at"@) is Some
            &&& json::integer(json::field(cached, "at"@)->0) == Some(c.at as int)
            &&& c.slugs.deep_view() == strings(items_of(json::field(cached, "slugs"@)))
            &&& repo_views(c.repos@) == entries(json::field(cached, "repos"@))
        },
        None => json::field(cached, "at"@) is None || json::integer(
            json::field(cached, "at"@)->0,
        ) is None,
    }
}

/// Reads the text of the cache; `None` where it is not one.
pub fn load_cache(text: &str) -> (r: Option<GhCache>)
    ensures
        match json::parsed(text@) {
            Ok(cached) => is_cache(cached, r),
            Err(_) => r is None,
        },
{
    match json::parse(text) {
        Ok(cached) => read_cache(&cached),
        Err(_) => None,
    }
}

/// Reads the cache; `None` where it is not one.
pub fn read_cache(cached: &Json) -> (r: Option<GhCache>)
    ensures
        is_cache(cached@, r),
{
    let at: i64 = match cached.get("at") {
        None => {
            return None;
        },
        Some(x) => match x.as_i64() {
            None => {
                return None;
            },
            Some(n) => n,
        },
    };
    let mut slugs: Vec<String> = Vec::new();
    let ghost all = items_of(json::field(cached@, "slugs"@));
    assert(slugs.deep_view() =~= strings(all.take(0)));
    let list = match cached.get("slugs") {
        Some(x) => x.as_arr(),
        None => None,
    };
    match list {
        None => {
            assert(all =~= all.take(0));
        },
        Some(v) => {
            let mut i: usize = 0;
            while i < v.len()
                invariant
                    all.len() == v@.len(),
                    forall|k: int| 0 <= k < v@.len() ==> #[trigger] all[k] == v@[k]@,
                    i <= v@.len(),
                    slugs.deep_view() == strings(all.take(i as int)),
                decreases v.len() - i,
            {
                assert(all.take(i + 1).drop_last() =~= all.take(i as int));
                assert(all.take(i + 1).last() == v@[i as int]@);
                let ghost before = slugs.deep_view();
                if let Some(s) = v[i].as_str() {
                    slugs.push(s.to_owned());
                    assert(slugs.deep_view() =~= before.push(s@));
                }
                i = i + 1;
            }
            assert(all.take(i as int) =~= all);
        },
    }
    let mut repos: Vec<(String, Json)> = Vec::new();
    if let Some(x) = cached.get("repos") {
        if let Json::Obj(m) = x {
            proof {
                json::members_view(*x, *m);
            }
            let mut i: usize = 0;
            while i < m.len()
                invariant
                    i <= m@.len(),
                    repos@.len() == i,
                    forall|k: int|
                        0 <= k < i ==> (#[trigger] repos@[k]).0@ == m@[k].key@ && repos@[k].1@
                            == m@[k].value@,
                decreases m.len() - i,
            {
                repos.push((m[i].key.clone(), json::copy(&m[i].value)));
                i = i + 1;
            }
            assert(repo_views(repos@) =~= entries(Some(x@)));
        } else {
            assert(repo_views(repos@) =~= entries(Some(x@)));
        }
    } else {
        assert(repo_views(repos@) =~= entries(None));
    }
    Some(GhCache { at, slugs, repos })
}

/// What the screen says of GitHub.
#[derive(Debug)]
pub struct GhState {
    /// `ok`, `cached`, `stale` or `unavailable`.
    pub state: &'static str,
    /// When the rows were fetched.
    pub as_of: Option<i64>,
    pub error: Option<String>,
    /// A fetch was called for, so that its error shows, or that there was
    /// none.
    pub tried: bool,
}

/// The state of a cache that answers.
pub fn cached_state(c: &GhCache) -> (r: GhState)
    ensures
        r.state@ == "cached"@,
        r.as_of == Some(c.at),
        r.error is None,
        !r.tried,
{
    GhState { state: "cached", as_of: Some(c.at), error: None, tried: false }
}

/// The state where there is nothing to fetch.
pub fn empty_state(now: i64) -> (r: GhState)
    ensures
        r.state@ == "ok"@,
        r.as_of == Some(now),
        r.error is None,
        !r.tried,
{
    GhState { state: "ok", as_of: Some(now), error: None, tried: false }
}

/// The cache alone, however old: nothing is fetched and nothing written.
/// A cache of other repos is none.
pub fn cached_only(cached: Option<GhCache>, slugs: &Vec<String>) -> (r: (
    Vec<(String, Json)>,
    GhState,
))
    ensures
        r.1.error is None,
        !r.1.tried,
        if cached is Some && cached->0.slugs.deep_view() == slugs.deep_view() {
            &&& repo_views(r.0@) == repo_views(cached->0.repos@)
            &&& r.1.state@ == "cached"@
            &&& r.1.as_of == Some(cached->0.at)
        } else {
            &&& r.0@.len() == 0
            &&& r.1.state@ == "unavailable"@
            &&& r.1.as_of is None
        },
{
    if let Some(c) = cached {
        if text::same_list(&c.slugs, slugs) {
            let state = cached_state(&c);
            return (c.repos, state);
        }
    }
    (Vec::new(), GhState { state: "unavailable", as_of: None, error: None, tried: false })
}

/// What a request for repos is answered with before anything is fetched.
#[derive(Debug)]
pub enum CacheAnswer {
    /// The cache is fresh and of these repos.
    Cached,
    /// Nothing to fetch, and nothing to write over a good cache.
    Empty,
    Fetch,
}

/// A cache answers for a while, and only a request for the same repos.
pub fn cache_answer(cached: &Option<GhCache>, slugs: &Vec<String>, now: i64) -> (r: CacheAnswer)
    ensures
        ({
            let fresh = cached is Some && time::clamp(now - cached->0.at) < GH_CACHE_SECS
                && cached->0.slugs.deep_view() == slugs.deep_view();
            match r {
                CacheAnswer::Cached => fresh,
                CacheAnswer::Empty => !fresh && slugs@.len() == 0,
                CacheAnswer::Fetch => !fresh && slugs@.len() > 0,
            }
        }),
{
    if let Some(c) = cached {
        if time::minus(now, c.at) < GH_CACHE_SECS && text::same_list(&c.slugs, slugs) {
            return CacheAnswer::Cached;
        }
    }
    if slugs.len() == 0 {
        CacheAnswer::Empty
    } else {
        CacheAnswer::Fetch
    }
}

/// The entries of the repos asked for.
pub open spec fn wanted(v: Seq<(Seq<char>, JsonView)>, slugs: Seq<Seq<char>>) -> Seq<
    (Seq<char>, JsonView),
>
    decreases v.len(),
{
    if v.len() == 0 {
        seq![]
    } else if slugs.contains(v.last().0) {
        wanted(v.drop_last(), slugs).push(v.last())
    } else {
        wanted(v.drop_last(), slugs)
    }
}

pub open spec fn cached_repos(cached: Option<GhCache>) -> Seq<(Seq<char>, JsonView)> {
    match cached {
        Some(c) => repo_views(c.repos@),
        None => seq![],
    }
}

/// The last good data of these repos, however old: better stale rows than
/// blank ones. It is `unavailable` when the cache covers none of them.
pub fn stale_github(cached: &Option<GhCache>, slugs: &Vec<String>, error: Option<String>) -> (r: (
    Vec<(String, Json)>,
    GhState,
))
    ensures
        ({
            let kept = wanted(cached_repos(*cached), slugs.deep_view());
            &&& repo_views(r.0@) == kept
            &&& r.1.error == error
            &&& r.1.tried
            &&& if kept.len() == 0 {
                r.1.state@ == "unavailable"@ && r.1.as_of is None
            } else {
                r.1.state@ == "stale"@ && cached is Some && r.1.as_of == Some(cached->0.at)
            }
        }),
{
    let mut out: Vec<(String, Json)> = Vec::new();
    let ghost all = cached_repos(*cached);
    let ghost want = slugs.deep_view();
    assert(repo_views(out@) =~= wanted(all.take(0), want));
    let mut at: Option<i64> = None;
    if let Some(c) = cached {
        at = Some(c.at);
        let mut i: usize = 0;
        while i < c.repos.len()
            invariant
                all == repo_views(c.repos@),
                want == slugs.deep_view(),
                i <= c.repos@.len(),
                repo_views(out@) == wanted(all.take(i as int), want),
            decreases c.repos.len() - i,
        {
            assert(all.take(i + 1).drop_last() =~= all.take(i as int));
            let ghost before = repo_views(out@);
            if text::has_name(slugs, c.repos[i].0.as_str()) {
                out.push((c.repos[i].0.clone(), json::copy(&c.repos[i].1)));
                assert(repo_views(out@) =~= before.push(all[i as int]));
            }
            i = i + 1;
        }
    }
    assert(all.take(all.len() as int) =~= all);
    assert(repo_views(out@).len() == out@.len());
    if out.len() == 0 {
        (out, GhState { state: "unavailable", as_of: None, error, tried: true })
    } else {
        (out, GhState { state: "stale", as_of: at, error, tried: true })
    }
}

pub open spec fn repo_in(v: Seq<(Seq<char>, JsonView)>, slug: Seq<char>) -> Option<JsonView>
    decreases v.len(),
{
    if v.len() == 0 {
        None
    } else if v[0].0 == slug {
        Some(v[0].1)
    } else {
        repo_in(v.drop_first(), slug)
    }
}

fn repo_of<'a>(v: &'a Vec<(String, Json)>, slug: &str) -> (r: Option<&'a Json>)
    ensures
        match r {
            Some(j) => repo_in(repo_views(v@), slug@) == Some(j@),
            None => repo_in(repo_views(v@), slug@) is None,
        },
{
    let ghost d = repo_views(v@);
    let mut i: usize = 0;
    assert(d.skip(0) =~= d);
    while i < v.len()
        invariant
            d == repo_views(v@),
            i <= v@.len(),
            repo_in(d, slug@) == repo_in(d.skip(i as int), slug@),
        decreases v.len() - i,
    {
        assert(d.skip(i as int).drop_first() =~= d.skip(i + 1));
        assert(d.skip(i as int)[0] == d[i as int]);
        if text::eq(v[i].0.as_str(), slug) {
            return Some(&v[i].1);
        }
        i = i + 1;
    }
    None
}

/// What was fetched, in the order of the repos.
pub open spec fn fetched(slugs: Seq<Seq<char>>, results: Seq<Result<Json, String>>) -> Seq<
    (Seq<char>, JsonView),
>
    decreases results.len(),
{
    if results.len() == 0 || slugs.len() != results.len() {
        seq![]
    } else {
        let before = fetched(slugs.drop_last(), results.drop_last());
        match results.last() {
            Ok(j) => before.push((slugs.last(), j@)),
            Err(_) => before,
        }
    }
}

pub open spec fn first_error(results: Seq<Result<Json, String>>) -> Option<Seq<char>>
    decreases results.len(),
{
    if results.len() == 0 {
        None
    } else {
        match first_error(results.drop_last()) {
            Some(e) => Some(e),
            None => match results.last() {
                Ok(_) => None,
                Err(e) => Some(e@),
            },
        }
    }
}

/// What was fetched, with the cache's data for each of the first `n`
/// repos that was not.
pub open spec fn filled(
    got: Seq<(Seq<char>, JsonView)>,
    slugs: Seq<Seq<char>>,
    cached: Seq<(Seq<char>, JsonView)>,
    n: int,
) -> Seq<(Seq<char>, JsonView)>
    decreases n,
{
    if n <= 0 {
        got
    } else {
        let before = filled(got, slugs, cached, n - 1);
        let slug = slugs[n - 1];
        match repo_in(cached, slug) {
            Some(j) if repo_in(before, slug) is None => before.push((slug, j)),
            _ => before,
        }
    }
}

/// Puts a refresh together: what was fetched, stale data for the repos
/// that failed, and the first error. Where every repo failed, the last
/// good data stands and nothing is to be written; else the cache is.
pub fn refresh_github(
    slugs: &Vec<String>,
    results: Vec<Result<Json, String>>,
    cached: &Option<GhCache>,
    now: i64,
) -> (r: (Vec<(String, Json)>, GhState, bool))
    requires
        slugs@.len() == results@.len(),
    ensures
        r.1.tried,
        ({
            let got = fetched(slugs.deep_view(), results@);
            let error = first_error(results@);
            if got.len() == 0 {
                let kept = wanted(cached_repos(*cached), slugs.deep_view());
                &&& !r.2
                &&& repo_views(r.0@) == kept
                &&& r.1.error.deep_view() == error
                &&& r.1.state@ == if kept.len() == 0 {
                    "unavailable"@
                } else {
                    "stale"@
                }
                &&& r.1.as_of == if kept.len() == 0 {
                    None
                } else {
                    Some(cached->0.at)
                }
            } else {
                &&& r.2
                &&& repo_views(r.0@) == filled(
                    got,
                    slugs.deep_view(),
                    cached_repos(*cached),
                    slugs@.len() as int,
                )
                &&& r.1.state@ == "ok"@
                &&& r.1.error.deep_view() == error
                &&& r.1.as_of == Some(now)
            }
        }),
{
    let ghost want = slugs.deep_view();
    let mut repos: Vec<(String, Json)> = Vec::new();
    let mut error: Option<String> = None;
    let mut i: usize = 0;
    assert(repo_views(repos@) =~= fetched(want.take(0), results@.take(0)));
    assert(first_error(results@.take(0)) is None);
    for x in it: results
        invariant
            it.seq() == results@,
            want == slugs.deep_view(),
            slugs@.len() == results@.len(),
            i == it.index(),
            repo_views(repos@) == fetched(want.take(i as int), results@.take(i as int)),
            error.deep_view() == first_error(results@.take(i as int)),
    {
        assert(want.take(i + 1).drop_last() =~= want.take(i as int));
        assert(results@.take(i + 1).drop_last() =~= results@.take(i as int));
        assert(want.take(i + 1).last() == slugs@[i as int]@);
        let ghost before = repo_views(repos@);
        match x {
            Ok(j) => {
                let ghost jv = j@;
                repos.push((slugs[i].clone(), j));
                assert(repo_views(repos@) =~= before.push((want[i as int], jv)));
            },
            Err(e) => {
                if error.is_none() {
                    error = Some(e);
                }
            },
        }
        assert(i < slugs.len());
        i = i + 1;
    }
    assert(want.take(i as int) =~= want);
    assert(results@.take(i as int) =~= results@);
    let ghost got = repo_views(repos@);
    assert(got.len() == repos@.len());
    if repos.len() == 0 {
        let (stale, state) = stale_github(cached, slugs, error);
        return (stale, state, false);
    }
    let ghost old_repos = cached_repos(*cached);
    let mut k: usize = 0;
    if let Some(c) = cached {
        while k < slugs.len()
            invariant
                want == slugs.deep_view(),
                old_repos == repo_views(c.repos@),
                k <= slugs@.len(),
                repo_views(repos@) == filled(got, want, old_repos, k as int),
            decreases slugs.len() - k,
        {
            assert(want[k as int] == slugs@[k as int]@);
            let ghost before = repo_views(repos@);
            if repo_of(&repos, slugs[k].as_str()).is_none() {
                if let Some(j) = repo_of(&c.repos, slugs[k].as_str()) {
                    repos.push((slugs[k].clone(), json::copy(j)));
                    assert(repo_views(repos@) =~= before.push((want[k as int], j@)));
                }
            }
            k = k + 1;
        }
    } else {
        proof {
            filled_nothing(got, want, want.len() as int);
        }
    }
    (repos, GhState { state: "ok", as_of: Some(now), error, tried: true }, true)
}

proof fn filled_nothing(got: Seq<(Seq<char>, JsonView)>, slugs: Seq<Seq<char>>, n: int)
    ensures
        filled(got, slugs, seq![], n) == got,
    decreases n,
{
    if n > 0 {
        filled_nothing(got, slugs, n - 1);
    }
}

// ---------- laws ----------

/// A SHA passes only by its own successful push run: never by absence,
/// another workflow, or a later SHA.
pub proof fn only_an_own_run_passes(runs: Seq<JsonView>, shas: Seq<Seq<char>>, i: int)
    requires
        0 <= i < shas.len(),
        covered(runs, shas, i).state is Passed,
    ensures
        exists|k: int|
            0 <= k < runs.len() && run_sha(#[trigger] runs[k]) == Some(shas[i]) && json::field_str(
                runs[k],
                "conclusion"@,
            ) == Some("success"@),
{
    own_run_bound(runs, shas[i]);
}

/// A covered SHA stays unverified, and what covers it is a later SHA
/// whose own run passed, the nearest one.
pub proof fn covered_is_not_passed(runs: Seq<JsonView>, shas: Seq<Seq<char>>, i: int)
    requires
        0 <= i < shas.len(),
        covered(runs, shas, i).covered_by is Some,
    ensures
        unverified(covered(runs, shas, i).state),
        exists|j: int|
            0 <= j < i && #[trigger] shas[j] == covered(runs, shas, i).covered_by->0 && sha_ci(
                runs,
                shas[j],
            ).state is Passed && forall|k: int|
                j < k < i ==> !(sha_ci(runs, #[trigger] shas[k]).state is Passed),
{
    let j = nearest_pass_at(runs, shas, i);
    assert(shas[j] == covered(runs, shas, i).covered_by->0);
}

proof fn nearest_pass_at(runs: Seq<JsonView>, shas: Seq<Seq<char>>, i: int) -> (j: int)
    requires
        0 <= i <= shas.len(),
        nearest_pass(runs, shas, i) is Some,
    ensures
        0 <= j < i,
        shas[j] == nearest_pass(runs, shas, i)->0,
        sha_ci(runs, shas[j]).state is Passed,
        forall|k: int| j < k < i ==> !(sha_ci(runs, #[trigger] shas[k]).state is Passed),
    decreases i,
{
    if sha_ci(runs, shas[i - 1]).state is Passed {
        i - 1
    } else {
        nearest_pass_at(runs, shas, i - 1)
    }
}

/// A merge row is bound to the head that was reviewed: its command names
/// it.
pub proof fn merge_names_the_reviewed_head(
    slug: Seq<char>,
    project: Seq<char>,
    pr: JsonView,
    issues: Seq<BranchIssue>,
    now: i64,
)
    requires
        pr_row(slug, project, pr, issues, now) is Some,
        pr_row(slug, project, pr, issues, now)->0.rank == 10,
    ensures
        verdict(items_of(json::field(pr, "statusCheckRollup"@))) == Some("SUCCESS"@),
        green(items_of(json::field(pr, "statusCheckRollup"@))),
        text::ends(
            pr_row(slug, project, pr, issues, now)->0.command,
            text_field(pr, "headRefOid"@),
        ),
{
    let head = text_field(pr, "headRefOid"@);
    let command = pr_row(slug, project, pr, issues, now)->0.command;
    assert(command.subrange(command.len() - head.len(), command.len() as int) =~= head);
}

} // verus!
