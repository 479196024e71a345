//! The monitors and their durable alerts, as the board shows them.
//!
//! What the daemon answers is checked whole before anything is shown: a
//! partly readable answer is not a healthy subset. A successful scan, a
//! check and the next scheduled check are separate evidence.
use crate::json::{self, Json, JsonView};
use crate::order;
use crate::overview::github;
use crate::text;
use crate::time;
use vstd::prelude::*;

verus! {

// ---------- checking the daemon's answers ----------

/// A string under a key, not empty.
pub open spec fn named(row: JsonView, k: Seq<char>) -> bool {
    json::field_str(row, k) is Some && json::field_str(row, k)->0.len() > 0
}

/// An integer under a key, at least `least`.
pub open spec fn counted(row: JsonView, k: Seq<char>, least: int) -> bool {
    match json::field(row, k) {
        Some(v) => json::integer(v) is Some && json::integer(v)->0 >= least,
        None => false,
    }
}

pub open spec fn row_text(what: Seq<char>, index: nat, fault: Seq<char>) -> Seq<char> {
    what + " row "@ + text::dec(index) + fault
}

fn is_named(row: &Json, k: &str) -> (r: bool)
    ensures
        r == named(row@, k@),
{
    match row.get_str(k) {
        Some(s) => !s.is_empty(),
        None => false,
    }
}

fn is_counted(row: &Json, k: &str, least: i64) -> (r: bool)
    ensures
        r == counted(row@, k@, least as int),
{
    match row.get(k) {
        Some(v) => match v.as_i64() {
            Some(n) => n >= least,
            None => false,
        },
        None => false,
    }
}

fn row_text_of(what: &str, index: usize, fault: &str) -> (r: String)
    ensures
        r@ == row_text(what@, index as nat, fault@),
{
    what.to_owned().concat(" row ").concat(text::dec_of(index as u64).as_str()).concat(fault)
}

/// What is wrong with a listed monitor.
pub open spec fn monitor_fault(row: JsonView) -> Option<Seq<char>> {
    let state = json::field_str(row, "monitoring"@);
    let delivery = json::field(row, "delivery"@);
    if !(row is Obj) {
        Some(" is not an object"@)
    } else if !named(row, "id"@) {
        Some(" missing id"@)
    } else if !named(row, "project"@) {
        Some(" missing project"@)
    } else if !named(row, "owner"@) {
        Some(" missing owner"@)
    } else if !named(row, "monitoring"@) {
        Some(" missing monitoring"@)
    } else if state != Some("active"@) && state != Some("degraded"@) && state != Some("off"@) {
        Some(" has unsupported monitoring state"@)
    } else if !counted(row, "interval_secs"@, 1) {
        Some(" missing interval_secs"@)
    } else if !(json::field(row, "coverage"@) is Some && json::field(row, "coverage"@)->0 is Arr) {
        Some(" missing coverage"@)
    } else if !(delivery is Some && delivery->0 is Obj) {
        Some(" missing delivery"@)
    } else if !(json::field(delivery->0, "configured"@) is Some && json::field(
        delivery->0,
        "configured"@,
    )->0 is Bool) || json::field_str(delivery->0, "state"@) is None {
        Some(" has malformed delivery"@)
    } else if !counted(row, "open_alerts"@, i64::MIN as int) {
        Some(" missing open_alerts"@)
    } else if !counted(row, "total_alerts"@, i64::MIN as int) {
        Some(" missing total_alerts"@)
    } else {
        None
    }
}

fn monitor_fault_of(row: &Json) -> (r: Option<&'static str>)
    ensures
        r.deep_view() == monitor_fault(row@),
{
    if !row.is_obj() {
        return Some(" is not an object");
    }
    if !is_named(row, "id") {
        return Some(" missing id");
    }
    if !is_named(row, "project") {
        return Some(" missing project");
    }
    if !is_named(row, "owner") {
        return Some(" missing owner");
    }
    if !is_named(row, "monitoring") {
        return Some(" missing monitoring");
    }
    let known = match row.get_str("monitoring") {
        Some(s) => text::eq(s, "active") || text::eq(s, "degraded") || text::eq(s, "off"),
        None => false,
    };
    if !known {
        return Some(" has unsupported monitoring state");
    }
    if !is_counted(row, "interval_secs", 1) {
        return Some(" missing interval_secs");
    }
    let coverage = match row.get("coverage") {
        Some(c) => c.as_arr().is_some(),
        None => false,
    };
    if !coverage {
        return Some(" missing coverage");
    }
    let delivery = match row.get("delivery") {
        Some(d) => d,
        None => {
            return Some(" missing delivery");
        },
    };
    if !delivery.is_obj() {
        return Some(" missing delivery");
    }
    let configured = match delivery.get("configured") {
        Some(c) => c.as_bool().is_some(),
        None => false,
    };
    if !configured || delivery.get_str("state").is_none() {
        return Some(" has malformed delivery");
    }
    if !is_counted(row, "open_alerts", i64::MIN) {
        return Some(" missing open_alerts");
    }
    if !is_counted(row, "total_alerts", i64::MIN) {
        return Some(" missing total_alerts");
    }
    None
}

/// The first fault among listed monitors, with its row.
pub open spec fn monitors_fault(rows: Seq<JsonView>) -> Option<Seq<char>>
    decreases rows.len(),
{
    if rows.len() == 0 {
        None
    } else {
        match monitors_fault(rows.drop_last()) {
            Some(e) => Some(e),
            None => match monitor_fault(rows.last()) {
                Some(f) => Some(row_text("monitor_list"@, (rows.len() - 1) as nat, f)),
                None => None,
            },
        }
    }
}

proof fn monitors_fault_stop(rows: Seq<JsonView>, n: int)
    requires
        0 <= n <= rows.len(),
        monitors_fault(rows.take(n)) is Some,
    ensures
        monitors_fault(rows) == monitors_fault(rows.take(n)),
    decreases rows.len() - n,
{
    if n == rows.len() {
        assert(rows.take(n) =~= rows);
    } else {
        assert(rows.take(n + 1).drop_last() =~= rows.take(n));
        monitors_fault_stop(rows, n + 1);
    }
}

/// Checks the monitors that the daemon lists before any is shown.
pub fn validate_monitor_rows(rows: &Vec<Json>) -> (r: Result<(), String>)
    ensures
        match r {
            Ok(()) => monitors_fault(github::values(rows@)) is None,
            Err(e) => monitors_fault(github::values(rows@)) == Some(e@),
        },
{
    let ghost d = github::values(rows@);
    let mut i: usize = 0;
    assert(d.take(0) =~= Seq::empty());
    while i < rows.len()
        invariant
            d == github::values(rows@),
            i <= rows@.len(),
            monitors_fault(d.take(i as int)) is None,
        decreases rows.len() - i,
    {
        assert(d.take(i + 1).drop_last() =~= d.take(i as int));
        assert(d.take(i + 1).last() == rows@[i as int]@);
        if let Some(f) = monitor_fault_of(&rows[i]) {
            proof {
                monitors_fault_stop(d, i + 1);
            }
            return Err(row_text_of("monitor_list", i, f));
        }
        i = i + 1;
    }
    assert(d.take(i as int) =~= d);
    Ok(())
}

/// What is wrong with an alert of a monitor.
pub open spec fn alert_fault(monitor: Seq<char>, row: JsonView) -> Option<Seq<char>> {
    let state = json::field_str(row, "state"@);
    let last_error = json::field(row, "last_error"@);
    if !(row is Obj) {
        Some(" is not an object"@)
    } else if !counted(row, "seq"@, 1) {
        Some(" missing seq"@)
    } else if !named(row, "monitor"@) {
        Some(" missing monitor"@)
    } else if json::field_str(row, "monitor"@) != Some(monitor) {
        Some(" belongs to a different monitor"@)
    } else if !named(row, "task"@) {
        Some(" missing task"@)
    } else if !counted(row, "event_seq"@, 1) {
        Some(" missing event_seq"@)
    } else if !named(row, "fingerprint"@) {
        Some(" missing fingerprint"@)
    } else if !named(row, "kind"@) {
        Some(" missing kind"@)
    } else if json::field(row, "payload"@) is None {
        Some(" missing payload"@)
    } else if state != Some("open"@) && state != Some("acknowledged"@) && state != Some(
        "resolved"@,
    ) {
        Some(" has unsupported state"@)
    } else if !counted(row, "attempts"@, 0) {
        Some(" missing attempts"@)
    } else if !(last_error is Some && (last_error->0 is Null || last_error->0 is Str)) {
        Some(" has malformed last_error"@)
    } else if !(json::field(row, "created"@) is Some && json::field(row, "created"@)->0 is Num) {
        Some(" missing created"@)
    } else if !(json::field(row, "updated"@) is Some && json::field(row, "updated"@)->0 is Num) {
        Some(" missing updated"@)
    } else {
        None
    }
}

fn has_number(row: &Json, k: &str) -> (r: bool)
    ensures
        r == (json::field(row@, k@) is Some && json::field(row@, k@)->0 is Num),
{
    match row.get(k) {
        Some(v) => v.is_num(),
        None => false,
    }
}

fn alert_fault_of(monitor: &str, row: &Json) -> (r: Option<&'static str>)
    ensures
        r.deep_view() == alert_fault(monitor@, row@),
{
    if !row.is_obj() {
        return Some(" is not an object");
    }
    if !is_counted(row, "seq", 1) {
        return Some(" missing seq");
    }
    if !is_named(row, "monitor") {
        return Some(" missing monitor");
    }
    let own = match row.get_str("monitor") {
        Some(m) => text::eq(m, monitor),
        None => false,
    };
    if !own {
        return Some(" belongs to a different monitor");
    }
    if !is_named(row, "task") {
        return Some(" missing task");
    }
    if !is_counted(row, "event_seq", 1) {
        return Some(" missing event_seq");
    }
    if !is_named(row, "fingerprint") {
        return Some(" missing fingerprint");
    }
    if !is_named(row, "kind") {
        return Some(" missing kind");
    }
    if row.get("payload").is_none() {
        return Some(" missing payload");
    }
    let known = match row.get_str("state") {
        Some(s) => text::eq(s, "open") || text::eq(s, "acknowledged") || text::eq(s, "resolved"),
        None => false,
    };
    if !known {
        return Some(" has unsupported state");
    }
    if !is_counted(row, "attempts", 0) {
        return Some(" missing attempts");
    }
    let readable = match row.get("last_error") {
        Some(e) => e.is_null() || e.is_str(),
        None => false,
    };
    if !readable {
        return Some(" has malformed last_error");
    }
    if !has_number(row, "created") {
        return Some(" missing created");
    }
    if !has_number(row, "updated") {
        return Some(" missing updated");
    }
    None
}

pub open spec fn alerts_fault(monitor: Seq<char>, rows: Seq<JsonView>) -> Option<Seq<char>>
    decreases rows.len(),
{
    if rows.len() == 0 {
        None
    } else {
        match alerts_fault(monitor, rows.drop_last()) {
            Some(e) => Some(e),
            None => match alert_fault(monitor, rows.last()) {
                Some(f) => Some(row_text("monitor_alerts"@, (rows.len() - 1) as nat, f)),
                None => None,
            },
        }
    }
}

proof fn alerts_fault_stop(monitor: Seq<char>, rows: Seq<JsonView>, n: int)
    requires
        0 <= n <= rows.len(),
        alerts_fault(monitor, rows.take(n)) is Some,
    ensures
        alerts_fault(monitor, rows) == alerts_fault(monitor, rows.take(n)),
    decreases rows.len() - n,
{
    if n == rows.len() {
        assert(rows.take(n) =~= rows);
    } else {
        assert(rows.take(n + 1).drop_last() =~= rows.take(n));
        alerts_fault_stop(monitor, rows, n + 1);
    }
}

/// What is wrong with the alerts that the daemon answered.
pub open spec fn response_fault(monitor: Seq<char>, response: JsonView) -> Option<Seq<char>> {
    let said = json::field_str(response, "monitor"@);
    if !(response is Obj) {
        Some("monitor_alerts response is not an object"@)
    } else if said != Some(monitor) || monitor.len() == 0 {
        Some("monitor_alerts response has the wrong monitor"@)
    } else if !counted(response, "cursor"@, 0) {
        Some("monitor_alerts response has malformed cursor"@)
    } else {
        match json::field(response, "alerts"@) {
            Some(JsonView::Arr(rows)) => alerts_fault(monitor, rows),
            _ => Some("monitor_alerts response missing alerts"@),
        }
    }
}

/// Checks all that the daemon answered about a monitor's alerts before
/// any is shown. No alerts is a valid answer; a partial one is not.
pub fn validate_monitor_alert_response<'a>(monitor_id: &str, response: &'a Json) -> (r: Result<
    &'a Vec<Json>,
    String,
>)
    ensures
        match r {
            Ok(rows) => {
                &&& response_fault(monitor_id@, response@) is None
                &&& json::field(response@, "alerts"@) == Some(
                    JsonView::Arr(github::values(rows@)),
                )
            },
            Err(e) => response_fault(monitor_id@, response@) == Some(e@),
        },
{
    if !response.is_obj() {
        return Err("monitor_alerts response is not an object".to_owned());
    }
    let own = match response.get_str("monitor") {
        Some(m) => text::eq(m, monitor_id) && !m.is_empty(),
        None => false,
    };
    if !own {
        return Err("monitor_alerts response has the wrong monitor".to_owned());
    }
    if !is_counted(response, "cursor", 0) {
        return Err("monitor_alerts response has malformed cursor".to_owned());
    }
    let rows = match response.get("alerts") {
        Some(a) => a.as_arr(),
        None => None,
    };
    let rows = match rows {
        None => {
            return Err("monitor_alerts response missing alerts".to_owned());
        },
        Some(v) => v,
    };
    let ghost d = github::values(rows@);
    assert(json::field(response@, "alerts"@)->0->Arr_0 =~= d);
    let mut i: usize = 0;
    assert(d.take(0) =~= Seq::empty());
    while i < rows.len()
        invariant
            d == github::values(rows@),
            response@ is Obj,
            json::field_str(response@, "monitor"@) == Some(monitor_id@),
            monitor_id@.len() > 0,
            counted(response@, "cursor"@, 0),
            json::field(response@, "alerts"@) == Some(JsonView::Arr(d)),
            i <= rows@.len(),
            alerts_fault(monitor_id@, d.take(i as int)) is None,
        decreases rows.len() - i,
    {
        assert(d.take(i + 1).drop_last() =~= d.take(i as int));
        assert(d.take(i + 1).last() == rows@[i as int]@);
        if let Some(f) = alert_fault_of(monitor_id, &rows[i]) {
            proof {
                alerts_fault_stop(monitor_id@, d, i + 1);
            }
            return Err(row_text_of("monitor_alerts", i, f));
        }
        i = i + 1;
    }
    assert(d.take(i as int) =~= d);
    Ok(rows)
}

// ---------- what an alert asks for ----------

/// What to do about a kind of alert, who does it, and by what authority.
pub open spec fn action_of(kind: Seq<char>, owner: Seq<char>) -> (Seq<char>, Seq<char>, Seq<char>) {
    if kind == "approval_menu"@ {
        ("Review the approval request"@, "operator"@, "operator approval required"@)
    } else if kind == "attention"@ {
        (
            "Resolve the worker attention request"@,
            "operator"@,
            "operator reconciliation required"@,
        )
    } else if kind == "turn_silent_end"@ {
        ("Reconcile the silent turn outcome"@, "operator"@, "operator reconciliation required"@)
    } else if kind == "turn_unknown"@ {
        (
            "Inspect the uncertain turn and reconcile its worker"@,
            "operator"@,
            "operator reconciliation required"@,
        )
    } else if kind == "draft_pending"@ {
        (
            "Route the draft to an independent review"@,
            "review"@,
            "independent review required"@,
        )
    } else if kind == "delivery_parked"@ {
        (
            "Inspect the parked delivery before retrying"@,
            owner,
            "monitor owner may retry; delivery is not automatic"@,
        )
    } else if kind == "paste_not_rendered"@ {
        (
            "Inspect the PTY render miss and recover the worker"@,
            owner,
            "monitor owner may recover the worker"@,
        )
    } else if kind == "turn_stalled"@ {
        (
            "Inspect the stalled turn and reconcile its worker"@,
            owner,
            "monitor owner may reconcile the worker"@,
        )
    } else if kind == "dispatch_blocked"@ {
        (
            "Resolve the guarded dispatch prerequisite, then retry the task"@,
            owner,
            "operator decision required; coordinator cannot bypass the guard"@,
        )
    } else {
        (
            "Inspect the monitor evidence and choose the next owner"@,
            owner,
            "operator decision required"@,
        )
    }
}

/// What to do about a kind of alert, who does it, and by what authority.
pub fn monitor_alert_action(kind: &str, monitor_owner: &str) -> (r: (
    &'static str,
    String,
    &'static str,
))
    ensures
        (r.0@, r.1@, r.2@) == action_of(kind@, monitor_owner@),
{
    if text::eq(kind, "approval_menu") {
        ("Review the approval request", "operator".to_owned(), "operator approval required")
    } else if text::eq(kind, "attention") {
        (
            "Resolve the worker attention request",
            "operator".to_owned(),
            "operator reconciliation required",
        )
    } else if text::eq(kind, "turn_silent_end") {
        (
            "Reconcile the silent turn outcome",
            "operator".to_owned(),
            "operator reconciliation required",
        )
    } else if text::eq(kind, "turn_unknown") {
        (
            "Inspect the uncertain turn and reconcile its worker",
            "operator".to_owned(),
            "operator reconciliation required",
        )
    } else if text::eq(kind, "draft_pending") {
        (
            "Route the draft to an independent review",
            "review".to_owned(),
            "independent review required",
        )
    } else if text::eq(kind, "delivery_parked") {
        (
            "Inspect the parked delivery before retrying",
            monitor_owner.to_owned(),
            "monitor owner may retry; delivery is not automatic",
        )
    } else if text::eq(kind, "paste_not_rendered") {
        (
            "Inspect the PTY render miss and recover the worker",
            monitor_owner.to_owned(),
            "monitor owner may recover the worker",
        )
    } else if text::eq(kind, "turn_stalled") {
        (
            "Inspect the stalled turn and reconcile its worker",
            monitor_owner.to_owned(),
            "monitor owner may reconcile the worker",
        )
    } else if text::eq(kind, "dispatch_blocked") {
        (
            "Resolve the guarded dispatch prerequisite, then retry the task",
            monitor_owner.to_owned(),
            "operator decision required; coordinator cannot bypass the guard",
        )
    } else {
        (
            "Inspect the monitor evidence and choose the next owner",
            monitor_owner.to_owned(),
            "operator decision required",
        )
    }
}

// ---------- the projection ----------

/// A point in time: whole seconds since the epoch, rounded down, and the
/// nanoseconds above them.
#[derive(Clone, Copy, Debug, PartialEq, Eq, Structural)]
pub struct Stamp {
    pub secs: i64,
    pub nanos: u32,
}

impl Stamp {
    pub open spec fn before(self, other: Stamp) -> bool {
        self.secs < other.secs || (self.secs == other.secs && self.nanos < other.nanos)
    }

    fn is_before(self, other: Stamp) -> (r: bool)
        ensures
            r == self.before(other),
    {
        self.secs < other.secs || (self.secs == other.secs && self.nanos < other.nanos)
    }

    /// The whole seconds, towards the epoch.
    pub open spec fn truncated(self) -> i64 {
        if self.secs < 0 && self.nanos > 0 {
            (self.secs + 1) as i64
        } else {
            self.secs
        }
    }

    fn truncate(self) -> (r: i64)
        ensures
            r == self.truncated(),
    {
        if self.secs < 0 && self.nanos > 0 {
            self.secs + 1
        } else {
            self.secs
        }
    }
}

/// A time field: missing or null, a time, or something else.
#[derive(Clone, Copy, Debug, PartialEq, Eq, Structural)]
pub enum When {
    Null,
    At(Stamp),
    Other,
}

/// An alert as the daemon lists it.
#[derive(Debug)]
pub struct AlertIn {
    pub seq: Option<i64>,
    pub kind: Option<String>,
    pub open: bool,
    pub created: Option<Stamp>,
}

/// A monitor as the daemon lists it, with its alerts.
#[derive(Debug)]
pub struct MonitorIn {
    pub id: String,
    pub owner: Option<String>,
    pub monitoring: Option<String>,
    pub last_success_at: When,
    pub last_check_at: When,
    pub next_check_at: When,
    pub error: Json,
    pub alerts_error: Option<String>,
    pub alerts: Vec<AlertIn>,
}

/// An alert with what it asks for. `monitor` and `alert` say which one.
#[derive(Debug)]
pub struct AlertOut {
    pub monitor: usize,
    pub alert: usize,
    pub seq: i64,
    pub open: bool,
    pub age_secs: i64,
    pub next_action: &'static str,
    pub next_owner: String,
    pub authority: &'static str,
}

pub struct AlertView {
    pub monitor: int,
    pub alert: int,
    pub seq: i64,
    pub open: bool,
    pub age_secs: i64,
    pub next_action: Seq<char>,
    pub next_owner: Seq<char>,
    pub authority: Seq<char>,
}

impl View for AlertOut {
    type V = AlertView;

    open spec fn view(&self) -> AlertView {
        AlertView {
            monitor: self.monitor as int,
            alert: self.alert as int,
            seq: self.seq,
            open: self.open,
            age_secs: self.age_secs,
            next_action: self.next_action@,
            next_owner: self.next_owner@,
            authority: self.authority@,
        }
    }
}

pub open spec fn alert_views(v: Seq<AlertOut>) -> Seq<AlertView> {
    v.map_values(|a: AlertOut| a@)
}

/// What the projection makes of a monitor.
#[derive(Debug)]
pub struct MonitorOut {
    /// Its schedule is overdue: it is shown as stale.
    pub overdue: bool,
    /// The error it is shown with.
    pub error: Json,
}

/// The board's view of the monitors.
#[derive(Debug)]
pub struct MonitoringView {
    /// `stopped`, `degraded`, `stale` or `active`.
    pub state: &'static str,
    pub last_success_at: Option<i64>,
    pub last_check_at: Option<i64>,
    pub next_check_at: Option<i64>,
    pub open_alerts: usize,
    /// The errors, each with the monitor's id.
    pub errors: Vec<(String, Json)>,
    /// One for each monitor.
    pub monitors: Vec<MonitorOut>,
    /// The alerts of all monitors, by sequence number.
    pub alerts: Vec<AlertOut>,
}

pub open spec fn raw_state(m: MonitorIn) -> Seq<char> {
    match m.monitoring {
        Some(s) => s@,
        None => "off"@,
    }
}

/// `active` claims a completed pass. Once the schedule has passed, or
/// with no proof of a success, the monitor is stale even if the daemon
/// stopped before it could say so.
pub open spec fn is_overdue(m: MonitorIn, now: i64) -> bool {
    let late = match m.next_check_at {
        When::At(t) => t.secs < now || (t.secs == now && t.nanos == 0),
        _ => true,
    };
    &&& raw_state(m) == "active"@ || raw_state(m) == "degraded"@
    &&& late || (raw_state(m) == "active"@ && m.last_success_at is Null)
}

fn overdue(m: &MonitorIn, now: i64) -> (r: bool)
    ensures
        r == is_overdue(*m, now),
{
    let active = text::opt_is(&m.monitoring, "active");
    let none = m.monitoring.is_none();
    proof {
        reveal_strlit("off");
        reveal_strlit("active");
        reveal_strlit("degraded");
        assert("off"@.len() == 3);
        assert("active"@.len() == 6);
        assert("degraded"@.len() == 8);
    }
    if !active && !text::opt_is(&m.monitoring, "degraded") {
        return false;
    }
    let late = match m.next_check_at {
        When::At(t) => t.secs < now || (t.secs == now && t.nanos == 0),
        _ => true,
    };
    late || (active && matches!(m.last_success_at, When::Null))
}

/// The error that a monitor is shown with.
pub open spec fn shown_error(m: MonitorIn, now: i64) -> JsonView {
    if is_overdue(m, now) && m.error@ is Null {
        JsonView::Str(
            if m.last_success_at is Null {
                "active monitor has no successful scan evidence"@
            } else {
                "scheduled monitor reconciliation is overdue"@
            },
        )
    } else {
        m.error@
    }
}

/// The errors that a monitor adds to the view.
pub open spec fn errors_of(m: MonitorIn, now: i64) -> Seq<(Seq<char>, JsonView)> {
    (if is_overdue(m, now) {
        seq![(m.id@, shown_error(m, now))]
    } else {
        match m.error@ {
            JsonView::Str(s) if s.len() > 0 => seq![(m.id@, m.error@)],
            _ => seq![],
        }
    }) + (match m.alerts_error {
        Some(e) => seq![(m.id@, JsonView::Str(e@))],
        None => seq![],
    })
}

pub open spec fn all_errors(ms: Seq<MonitorIn>, now: i64) -> Seq<(Seq<char>, JsonView)>
    decreases ms.len(),
{
    if ms.len() == 0 {
        seq![]
    } else {
        all_errors(ms.drop_last(), now) + errors_of(ms.last(), now)
    }
}

/// The age of an alert in seconds, rounded to the nearest; one from the
/// future has none.
pub open spec fn alert_age(created: Option<Stamp>, now: i64) -> i64 {
    match created {
        None => 0,
        Some(t) => {
            let d = time::clamp(
                now - t.secs - (if t.nanos > 500000000 {
                    1int
                } else {
                    0
                }),
            );
            if d < 0 {
                0
            } else {
                d
            }
        },
    }
}

fn alert_age_of(created: Option<Stamp>, now: i64) -> (r: i64)
    ensures
        r == alert_age(created, now),
{
    match created {
        None => 0,
        Some(t) => {
            let up: i128 = if t.nanos > 500000000 {
                1
            } else {
                0
            };
            let d: i128 = now as i128 - t.secs as i128 - up;
            if d < 0 {
                0
            } else if d > i64::MAX as i128 {
                i64::MAX
            } else {
                d as i64
            }
        },
    }
}

pub open spec fn alert_out(ms: Seq<MonitorIn>, i: int, k: int, now: i64) -> AlertView {
    let m = ms[i];
    let a = m.alerts@[k];
    let act = action_of(
        match a.kind {
            Some(s) => s@,
            None => "alert"@,
        },
        match m.owner {
            Some(o) => o@,
            None => "operator"@,
        },
    );
    AlertView {
        monitor: i,
        alert: k,
        seq: match a.seq {
            Some(s) => s,
            None => 0,
        },
        open: a.open,
        age_secs: alert_age(a.created, now),
        next_action: act.0,
        next_owner: act.1,
        authority: act.2,
    }
}

/// The alerts of the first `n` monitors, as they come.
pub open spec fn alerts_upto(ms: Seq<MonitorIn>, n: int, now: i64) -> Seq<AlertView>
    decreases n,
{
    if n <= 0 {
        seq![]
    } else {
        alerts_upto(ms, n - 1, now) + Seq::new(
            ms[n - 1].alerts@.len(),
            |k: int| alert_out(ms, n - 1, k, now),
        )
    }
}

pub open spec fn by_seq() -> spec_fn(AlertView, AlertView) -> bool {
    |a: AlertView, b: AlertView| a.seq <= b.seq
}

pub open spec fn open_count(v: Seq<AlertView>) -> nat
    decreases v.len(),
{
    if v.len() == 0 {
        0
    } else {
        open_count(v.drop_last()) + (if v.last().open {
            1nat
        } else {
            0
        })
    }
}

/// The latest of a time field over the monitors.
pub open spec fn latest(ms: Seq<MonitorIn>, f: spec_fn(MonitorIn) -> When) -> Option<Stamp>
    decreases ms.len(),
{
    if ms.len() == 0 {
        None
    } else {
        let before = latest(ms.drop_last(), f);
        match f(ms.last()) {
            When::At(t) => match before {
                Some(b) if !b.before(t) => before,
                _ => Some(t),
            },
            _ => before,
        }
    }
}

/// The earliest next check over the monitors.
pub open spec fn earliest_next(ms: Seq<MonitorIn>) -> Option<Stamp>
    decreases ms.len(),
{
    if ms.len() == 0 {
        None
    } else {
        let before = earliest_next(ms.drop_last());
        match ms.last().next_check_at {
            When::At(t) => match before {
                Some(b) if !t.before(b) => before,
                _ => Some(t),
            },
            _ => before,
        }
    }
}

pub open spec fn whole(t: Option<Stamp>) -> Option<i64> {
    match t {
        Some(s) => Some(s.truncated()),
        None => None,
    }
}

pub open spec fn any_state(ms: Seq<MonitorIn>, state: Seq<char>) -> bool {
    exists|i: int| 0 <= i < ms.len() && raw_state(#[trigger] ms[i]) == state
}

pub open spec fn any_overdue(ms: Seq<MonitorIn>, now: i64) -> bool {
    exists|i: int| 0 <= i < ms.len() && is_overdue(#[trigger] ms[i], now)
}

/// The state of all monitors together.
pub open spec fn overall(ms: Seq<MonitorIn>, now: i64) -> Seq<char> {
    if any_state(ms, "degraded"@) {
        "degraded"@
    } else if any_state(ms, "stale"@) || any_overdue(ms, now) {
        "stale"@
    } else if any_state(ms, "active"@) {
        "active"@
    } else {
        "stopped"@
    }
}

pub open spec fn success_at() -> spec_fn(MonitorIn) -> When {
    |m: MonitorIn| m.last_success_at
}

pub open spec fn check_at() -> spec_fn(MonitorIn) -> When {
    |m: MonitorIn| m.last_check_at
}

pub open spec fn error_views(v: Seq<(String, Json)>) -> Seq<(Seq<char>, JsonView)> {
    v.map_values(|e: (String, Json)| (e.0@, e.1@))
}

fn later_of(best: Option<Stamp>, w: When) -> (r: Option<Stamp>)
    ensures
        r == match w {
            When::At(t) => match best {
                Some(b) if !b.before(t) => best,
                _ => Some(t),
            },
            _ => best,
        },
{
    match w {
        When::At(t) => match best {
            Some(b) => if b.is_before(t) {
                Some(t)
            } else {
                best
            },
            None => Some(t),
        },
        _ => best,
    }
}

fn sooner_of(best: Option<Stamp>, w: When) -> (r: Option<Stamp>)
    ensures
        r == match w {
            When::At(t) => match best {
                Some(b) if !t.before(b) => best,
                _ => Some(t),
            },
            _ => best,
        },
{
    match w {
        When::At(t) => match best {
            Some(b) => if t.is_before(b) {
                Some(t)
            } else {
                best
            },
            None => Some(t),
        },
        _ => best,
    }
}

fn whole_of(t: Option<Stamp>) -> (r: Option<i64>)
    ensures
        r == whole(t),
{
    match t {
        Some(s) => Some(s.truncate()),
        None => None,
    }
}

fn state_is(m: &MonitorIn, state: &str) -> (r: bool)
    ensures
        r == (raw_state(*m) == state@),
{
    match &m.monitoring {
        Some(s) => text::eq(s.as_str(), state),
        None => text::eq("off", state),
    }
}

fn shown_error_of(m: &MonitorIn, late: bool, now: i64) -> (r: Json)
    requires
        late == is_overdue(*m, now),
    ensures
        r@ == shown_error(*m, now),
{
    if late && m.error.is_null() {
        Json::Str(
            if matches!(m.last_success_at, When::Null) {
                "active monitor has no successful scan evidence".to_owned()
            } else {
                "scheduled monitor reconciliation is overdue".to_owned()
            },
        )
    } else {
        json::copy(&m.error)
    }
}

fn push_errors(errors: &mut Vec<(String, Json)>, m: &MonitorIn, late: bool, now: i64)
    requires
        late == is_overdue(*m, now),
    ensures
        error_views(final(errors)@) == error_views(old(errors)@) + errors_of(*m, now),
{
    let ghost e0 = error_views(errors@);
    let ghost first = if late {
        seq![(m.id@, shown_error(*m, now))]
    } else {
        match m.error@ {
            JsonView::Str(s) if s.len() > 0 => seq![(m.id@, m.error@)],
            _ => seq![],
        }
    };
    if late {
        errors.push((m.id.clone(), shown_error_of(m, late, now)));
    } else if let Some(s) = m.error.as_str() {
        if !s.is_empty() {
            errors.push((m.id.clone(), json::copy(&m.error)));
        }
    }
    assert(error_views(errors@) =~= e0 + first);
    if let Some(e) = &m.alerts_error {
        errors.push((m.id.clone(), Json::Str(e.clone())));
    }
    assert(error_views(errors@) =~= e0 + errors_of(*m, now));
}

pub(crate) fn alert_out_of(m: &MonitorIn, i: usize, k: usize, now: i64) -> (r: AlertOut)
    requires
        k < m.alerts@.len(),
    ensures
        forall|ms: Seq<MonitorIn>| 0 <= i < ms.len() && #[trigger] ms[i as int] == *m ==> r@ == alert_out(
            ms,
            i as int,
            k as int,
            now,
        ),
{
    let a = &m.alerts[k];
    let kind = match &a.kind {
        Some(s) => s.as_str(),
        None => "alert",
    };
    let owner = match &m.owner {
        Some(o) => o.as_str(),
        None => "operator",
    };
    let (next_action, next_owner, authority) = monitor_alert_action(kind, owner);
    AlertOut {
        monitor: i,
        alert: k,
        seq: match a.seq {
            Some(s) => s,
            None => 0,
        },
        open: a.open,
        age_secs: alert_age_of(a.created, now),
        next_action,
        next_owner,
        authority,
    }
}

fn sort_alerts(v: Vec<AlertOut>) -> (r: Vec<AlertOut>)
    ensures
        alert_views(r@) == order::sorted(alert_views(v@), by_seq()),
{
    let ghost le = by_seq();
    let ghost d = alert_views(v@);
    let mut out: Vec<AlertOut> = Vec::new();
    assert(alert_views(out@) =~= order::sorted(d.take(0), le));
    for x in it: v
        invariant
            it.seq() == v@,
            d == alert_views(v@),
            le == by_seq(),
            alert_views(out@) == order::sorted(d.take(it.index()), le),
    {
        let ghost n = it.index();
        assert(d.take(n + 1).drop_last() =~= d.take(n));
        assert(d.take(n + 1).last() == x@);
        let ghost o = alert_views(out@);
        let mut k: usize = out.len();
        while k > 0 && out[k - 1].seq > x.seq
            invariant
                le == by_seq(),
                o == alert_views(out@),
                k <= out@.len(),
                forall|j: int| k <= j < o.len() ==> !le(#[trigger] o[j], x@),
            decreases k,
        {
            assert(o[k - 1] == out@[k - 1]@);
            k = k - 1;
        }
        proof {
            if k > 0 {
                assert(o[k - 1] == out@[k - 1]@);
            }
            order::insert_at(o, x@, le, k as int);
        }
        let ghost xv = x@;
        out.insert(k, x);
        assert(alert_views(out@) =~= o.insert(k as int, xv));
    }
    assert(d.take(d.len() as int) =~= d);
    out
}

fn count_open(v: &Vec<AlertOut>) -> (r: usize)
    ensures
        r == open_count(alert_views(v@)),
{
    let ghost d = alert_views(v@);
    let mut n: usize = 0;
    let mut i: usize = 0;
    assert(d.take(0) =~= Seq::empty());
    while i < v.len()
        invariant
            d == alert_views(v@),
            i <= v@.len(),
            n <= i,
            n == open_count(d.take(i as int)),
        decreases v.len() - i,
    {
        assert(d.take(i + 1).drop_last() =~= d.take(i as int));
        assert(d.take(i + 1).last() == v@[i as int]@);
        if v[i].open {
            n = n + 1;
        }
        i = i + 1;
    }
    assert(d.take(i as int) =~= d);
    n
}

/// The board's view of the monitors and their alerts.
pub fn monitoring_view(monitors: &Vec<MonitorIn>, now: i64) -> (r: MonitoringView)
    ensures
        r.state@ == overall(monitors@, now),
        r.last_success_at == whole(latest(monitors@, success_at())),
        r.last_check_at == whole(latest(monitors@, check_at())),
        r.next_check_at == whole(earliest_next(monitors@)),
        error_views(r.errors@) == all_errors(monitors@, now),
        r.monitors@.len() == monitors@.len(),
        forall|i: int|
            0 <= i < monitors@.len() ==> (#[trigger] r.monitors@[i]).overdue == is_overdue(
                monitors@[i],
                now,
            ) && r.monitors@[i].error@ == shown_error(monitors@[i], now),
        alert_views(r.alerts@) == order::sorted(
            alerts_upto(monitors@, monitors@.len() as int, now),
            by_seq(),
        ),
        r.open_alerts == open_count(alert_views(r.alerts@)),
{
    let ghost ms = monitors@;
    let mut has_degraded = false;
    let mut has_stale = false;
    let mut has_active = false;
    let mut success: Option<Stamp> = None;
    let mut check: Option<Stamp> = None;
    let mut next: Option<Stamp> = None;
    let mut errors: Vec<(String, Json)> = Vec::new();
    let mut outs: Vec<MonitorOut> = Vec::new();
    let mut alerts: Vec<AlertOut> = Vec::new();
    let mut i: usize = 0;
    assert(ms.take(0) =~= Seq::empty());
    assert(error_views(errors@) =~= all_errors(ms.take(0), now));
    assert(alert_views(alerts@) =~= alerts_upto(ms, 0, now));
    while i < monitors.len()
        invariant
            ms == monitors@,
            i <= ms.len(),
            has_degraded == any_state(ms.take(i as int), "degraded"@),
            has_stale == (any_state(ms.take(i as int), "stale"@) || any_overdue(
                ms.take(i as int),
                now,
            )),
            has_active == any_state(ms.take(i as int), "active"@),
            success == latest(ms.take(i as int), success_at()),
            check == latest(ms.take(i as int), check_at()),
            next == earliest_next(ms.take(i as int)),
            error_views(errors@) == all_errors(ms.take(i as int), now),
            outs@.len() == i,
            forall|j: int|
                0 <= j < i ==> (#[trigger] outs@[j]).overdue == is_overdue(ms[j], now)
                    && outs@[j].error@ == shown_error(ms[j], now),
            alert_views(alerts@) == alerts_upto(ms, i as int, now),
        decreases monitors.len() - i,
    {
        let m = &monitors[i];
        let ghost cut = ms.take(i as int);
        let ghost grown = ms.take(i + 1);
        assert(grown.drop_last() =~= cut);
        assert(grown.last() == *m);
        proof {
            grow_states(cut, *m, now);
            assert(grown =~= cut.push(*m));
        }
        if state_is(m, "degraded") {
            has_degraded = true;
        }
        if state_is(m, "stale") {
            has_stale = true;
        }
        if state_is(m, "active") {
            has_active = true;
        }
        success = later_of(success, m.last_success_at);
        check = later_of(check, m.last_check_at);
        next = sooner_of(next, m.next_check_at);
        let late = overdue(m, now);
        if late {
            has_stale = true;
        }
        push_errors(&mut errors, m, late, now);
        outs.push(MonitorOut { overdue: late, error: shown_error_of(m, late, now) });
        let ghost a0 = alert_views(alerts@);
        let ghost own = Seq::new(m.alerts@.len(), |k: int| alert_out(ms, i as int, k, now));
        let mut k: usize = 0;
        assert(a0 + own.take(0) =~= a0);
        while k < m.alerts.len()
            invariant
                ms == monitors@,
                i < ms.len(),
                ms[i as int] == *m,
                own == Seq::new(m.alerts@.len(), |k: int| alert_out(ms, i as int, k, now)),
                k <= m.alerts@.len(),
                alert_views(alerts@) == a0 + own.take(k as int),
            decreases m.alerts.len() - k,
        {
            let ghost before = alert_views(alerts@);
            let x = alert_out_of(m, i, k, now);
            assert(x@ == own[k as int]);
            alerts.push(x);
            assert(alert_views(alerts@) =~= before.push(x@));
            assert(a0 + own.take(k + 1) =~= before.push(x@));
            k = k + 1;
        }
        assert(own.take(k as int) =~= own);
        i = i + 1;
    }
    assert(ms.take(i as int) =~= ms);
    let state = if has_degraded {
        "degraded"
    } else if has_stale {
        "stale"
    } else if has_active {
        "active"
    } else {
        "stopped"
    };
    let alerts = sort_alerts(alerts);
    let open_alerts = count_open(&alerts);
    MonitoringView {
        state,
        last_success_at: whole_of(success),
        last_check_at: whole_of(check),
        next_check_at: whole_of(next),
        open_alerts,
        errors,
        monitors: outs,
        alerts,
    }
}

proof fn grow_states(ms: Seq<MonitorIn>, m: MonitorIn, now: i64)
    ensures
        forall|s: Seq<char>| #[trigger]
            any_state(ms.push(m), s) == (any_state(ms, s) || raw_state(m) == s),
        any_overdue(ms.push(m), now) == (any_overdue(ms, now) || is_overdue(m, now)),
{
    let g = ms.push(m);
    assert(g[ms.len() as int] == m);
    assert forall|s: Seq<char>| #[trigger] any_state(g, s) == (any_state(ms, s) || raw_state(m) == s) by {
        if any_state(ms, s) {
            let i = choose|i: int| 0 <= i < ms.len() && raw_state(#[trigger] ms[i]) == s;
            assert(g[i] == ms[i]);
        }
        if any_state(g, s) {
            let i = choose|i: int| 0 <= i < g.len() && raw_state(#[trigger] g[i]) == s;
            if i < ms.len() {
                assert(ms[i] == g[i]);
            }
        }
    }
    if any_overdue(ms, now) {
        let i = choose|i: int| 0 <= i < ms.len() && is_overdue(#[trigger] ms[i], now);
        assert(g[i] == ms[i]);
    }
    if any_overdue(g, now) {
        let i = choose|i: int| 0 <= i < g.len() && is_overdue(#[trigger] g[i], now);
        if i < ms.len() {
            assert(ms[i] == g[i]);
        }
    }
}

// ---------- laws ----------

/// No monitor, no claim: without registrations the view is `stopped`.
pub proof fn nothing_registered_is_stopped(now: i64)
    ensures
        overall(seq![], now) == "stopped"@,
{
}

/// `active` is shown only while no monitor is degraded, stale or overdue.
pub proof fn active_needs_every_scan_on_time(ms: Seq<MonitorIn>, now: i64)
    requires
        overall(ms, now) == "active"@,
    ensures
        forall|i: int| 0 <= i < ms.len() ==> !is_overdue(#[trigger] ms[i], now),
        forall|i: int| 0 <= i < ms.len() ==> raw_state(#[trigger] ms[i]) != "degraded"@,
{
    reveal_strlit("active");
    reveal_strlit("degraded");
    reveal_strlit("stale");
    reveal_strlit("stopped");
    assert("active"@.len() == 6);
    assert("degraded"@.len() == 8);
    assert("stale"@.len() == 5);
    assert("stopped"@.len() == 7);
    assert(!any_state(ms, "degraded"@));
    assert(!any_overdue(ms, now));
}

/// A list that passes the check holds no row with a fault.
pub proof fn checked_rows_are_whole(rows: Seq<JsonView>, i: int)
    requires
        monitors_fault(rows) is None,
        0 <= i < rows.len(),
    ensures
        monitor_fault(rows[i]) is None,
    decreases rows.len(),
{
    if i < rows.len() - 1 {
        checked_rows_are_whole(rows.drop_last(), i);
    }
}

// ---------- reading the monitors ----------

/// What is said of the alerts of one monitor that could not be read.
pub open spec fn alerts_unread(id: Seq<char>, error: Seq<char>) -> Seq<char> {
    "monitor_alerts '"@ + id + "': "@ + error
}

/// The rows of the daemon's list of monitors. A failed call, a list that
/// is not there and a row with a fault each leave nothing to show.
pub fn monitor_list<'a>(reply: &'a Result<Json, String>) -> (r: Result<&'a Vec<Json>, String>)
    ensures
        match *reply {
            Err(e) => r is Err && r->Err_0@ == e@,
            Ok(list) => match json::field(list@, "monitors"@) {
                Some(JsonView::Arr(rows)) => match monitors_fault(rows) {
                    Some(e) => r is Err && r->Err_0@ == e,
                    None => r is Ok && github::values(r->Ok_0@) == rows,
                },
                _ => r is Err && r->Err_0@ == "monitor_list response missing monitors"@,
            },
        },
{
    let list = match reply {
        Ok(list) => list,
        Err(e) => {
            return Err(e.clone());
        },
    };
    let rows = match list.get("monitors") {
        Some(v) => match v.as_arr() {
            Some(rows) => rows,
            None => {
                return Err("monitor_list response missing monitors".to_owned());
            },
        },
        None => {
            return Err("monitor_list response missing monitors".to_owned());
        },
    };
    assert(github::values(rows@) =~= json::field(list@, "monitors"@)->0->Arr_0);
    match validate_monitor_rows(rows) {
        Ok(()) => Ok(rows),
        Err(e) => Err(e),
    }
}

/// The alerts that the daemon answered for the monitor `id`.
pub fn monitor_alerts<'a>(id: &str, reply: &'a Result<Json, String>) -> (r: Result<
    &'a Vec<Json>,
    String,
>)
    ensures
        match *reply {
            Err(e) => r is Err && r->Err_0@ == alerts_unread(id@, e@),
            Ok(response) => match response_fault(id@, response@) {
                Some(e) => r is Err && r->Err_0@ == alerts_unread(id@, e),
                None => r is Ok && json::field(response@, "alerts"@) == Some(
                    JsonView::Arr(github::values(r->Ok_0@)),
                ),
            },
        },
{
    let why = match reply {
        Ok(response) => match validate_monitor_alert_response(id, response) {
            Ok(rows) => {
                return Ok(rows);
            },
            Err(e) => e,
        },
        Err(e) => e.clone(),
    };
    Err("monitor_alerts '".to_owned().concat(id).concat("': ").concat(why.as_str()))
}

/// An alert of a view says where its monitor and itself stand.
pub open spec fn points_into(a: AlertView, ms: Seq<MonitorIn>) -> bool {
    0 <= a.monitor < ms.len() && 0 <= a.alert < ms[a.monitor].alerts@.len()
}

proof fn alerts_upto_point(ms: Seq<MonitorIn>, n: int, now: i64, j: int)
    requires
        n <= ms.len(),
        0 <= j < alerts_upto(ms, n, now).len(),
    ensures
        points_into(alerts_upto(ms, n, now)[j], ms),
    decreases n,
{
    if n > 0 {
        let before = alerts_upto(ms, n - 1, now);
        if j < before.len() {
            alerts_upto_point(ms, n - 1, now, j);
            assert(alerts_upto(ms, n, now)[j] == before[j]);
        }
    }
}

/// Every alert of a view belongs to one of the monitors.
pub proof fn shown_alerts_point_back(ms: Seq<MonitorIn>, now: i64)
    ensures
        forall|j: int|
            0 <= j < order::sorted(alerts_upto(ms, ms.len() as int, now), by_seq()).len()
                ==> points_into(
                #[trigger] order::sorted(alerts_upto(ms, ms.len() as int, now), by_seq())[j],
                ms,
            ),
{
    let all = alerts_upto(ms, ms.len() as int, now);
    let s = order::sorted(all, by_seq());
    order::sorted_is_a_sort(all, by_seq());
    assert forall|j: int| 0 <= j < s.len() implies points_into(#[trigger] s[j], ms) by {
        broadcast use vstd::seq_lib::group_to_multiset_ensures;

        assert(s.contains(s[j]));
        assert(s.to_multiset().count(s[j]) > 0);
        assert(all.to_multiset().count(s[j]) > 0);
        assert(all.contains(s[j]));
        let k = choose|k: int| 0 <= k < all.len() && all[k] == s[j];
        alerts_upto_point(ms, ms.len() as int, now, k);
    }
}

} // verus!
