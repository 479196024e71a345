//! The rows of the needs list that the operator put away. A record hides
//! the occurrence that was acted on, not its subject for ever: a dismissed
//! row comes back once its condition does, and a snoozed one when its time
//! is over. Records that cannot be read hide nothing.
use crate::json;
use crate::json::{object_of, Json, JsonView, Member, MemberView};
use crate::paths;
use crate::text;
use vstd::prelude::*;

verus! {

/// Where the records are kept.
pub fn dismissed_path(state_dir: &str) -> (r: String)
    ensures
        r@ == paths::join(state_dir@, "needs_dismissed.json"@),
{
    paths::join_of(state_dir, "needs_dismissed.json")
}

/// The key of a subject.
pub open spec fn subject_key(kind: Seq<char>, id: Seq<char>) -> Seq<char> {
    kind + ":"@ + id
}

/// The key that a subject's record is filed under.
pub fn key(kind: &str, id: &str) -> (r: String)
    ensures
        r@ == subject_key(kind@, id@),
{
    kind.to_owned().concat(":").concat(id)
}

/// The records of a file, from what the parser made of it; a file that is
/// missing, no JSON or no object holds none.
pub open spec fn records(parsed: Option<Result<JsonView, Seq<char>>>) -> Seq<MemberView> {
    match parsed {
        Some(Ok(JsonView::Obj(m))) => m,
        _ => seq![],
    }
}

/// The records of a parsed file.
pub fn dismissed_parsed(parsed: Option<Result<Json, String>>) -> (r: Vec<Member>)
    ensures
        json::members(r@) == records(
            match parsed {
                Some(Ok(j)) => Some(Ok(j@)),
                Some(Err(e)) => Some(Err(e@)),
                None => None,
            },
        ),
{
    match parsed {
        Some(Ok(j)) => {
            let ghost jv = j;
            match j {
                Json::Obj(m) => {
                    proof {
                        json::members_view(jv, m);
                    }
                    m
                },
                _ => {
                    let none: Vec<Member> = Vec::new();
                    assert(json::members(none@) =~= seq![]);
                    none
                },
            }
        },
        _ => {
            let none: Vec<Member> = Vec::new();
            assert(json::members(none@) =~= seq![]);
            none
        },
    }
}

/// The records of a file's text, where there is a file.
pub fn dismissed(file: Option<&str>) -> (r: Vec<Member>)
    ensures
        json::members(r@) == records(
            match file {
                Some(t) => Some(json::parsed(t@)),
                None => None,
            },
        ),
{
    let parsed = match file {
        Some(t) => Some(json::parse(t)),
        None => None,
    };
    dismissed_parsed(parsed)
}

pub open spec fn number(j: JsonView, k: Seq<char>) -> Option<int> {
    match json::field(j, k) {
        Some(v) => json::integer(v),
        None => None,
    }
}

pub open spec fn snoozed(record: JsonView) -> bool {
    json::field_str(record, "mode"@) == Some("snooze"@)
}

/// A snooze that is not over.
pub open spec fn asleep(record: JsonView, now: i64) -> bool {
    match number(record, "until"@) {
        Some(t) => t > now,
        None => 0 > now,
    }
}

/// The record hides a row that began at a time. A dismissal hides what
/// began no later than it was made.
pub open spec fn hides(record: JsonView, started: int, now: i64) -> bool {
    if snoozed(record) {
        asleep(record, now)
    } else {
        match number(record, "at"@) {
            Some(at) => started <= at,
            None => started <= i64::MIN,
        }
    }
}

/// When a row began: as measured, else by its age.
pub open spec fn started(row: JsonView, now: i64) -> int {
    match number(row, "since"@) {
        Some(t) => t,
        None => match number(row, "age"@) {
            Some(a) => now - a,
            None => now as int,
        },
    }
}

/// The subject of a row.
pub open spec fn subject(row: JsonView) -> Option<Seq<char>> {
    match json::field(row, "subject"@) {
        Some(s) => match (json::field_str(s, "kind"@), json::field_str(s, "id"@)) {
            (Some(k), Some(i)) => Some(subject_key(k, i)),
            _ => None,
        },
        None => None,
    }
}

/// The row is hidden under the records.
pub open spec fn hidden(row: JsonView, all: Seq<MemberView>, now: i64) -> bool {
    match subject(row) {
        Some(k) => match json::entry(all, k) {
            Some(r) => hides(r, started(row, now), now),
            None => false,
        },
        None => false,
    }
}

fn number_of(j: &Json, k: &str) -> (r: Option<i64>)
    ensures
        match r {
            Some(n) => number(j@, k@) == Some(n as int),
            None => number(j@, k@) is None,
        },
{
    match j.get(k) {
        Some(v) => v.as_i64(),
        None => None,
    }
}

fn is_snoozed(record: &Json) -> (r: bool)
    ensures
        r == snoozed(record@),
{
    match record.get_str("mode") {
        Some(m) => text::eq(m, "snooze"),
        None => false,
    }
}

fn is_asleep(record: &Json, now: i64) -> (r: bool)
    ensures
        r == asleep(record@, now),
{
    match number_of(record, "until") {
        Some(t) => t > now,
        None => 0 > now,
    }
}

fn suppressed_by(record: &Json, began: i128, now: i64) -> (r: bool)
    ensures
        r == hides(record@, began as int, now),
{
    if is_snoozed(record) {
        return is_asleep(record, now);
    }
    match number_of(record, "at") {
        Some(at) => began <= at as i128,
        None => began <= i64::MIN as i128,
    }
}

fn record_at<'a>(all: &'a Vec<Member>, k: &str) -> (r: Option<&'a Json>)
    ensures
        match r {
            Some(v) => json::entry(json::members(all@), k@) == Some(v@),
            None => json::entry(json::members(all@), k@) is None,
        },
{
    let ghost d = json::members(all@);
    let mut i: usize = 0;
    assert(d.skip(0) =~= d);
    while i < all.len()
        invariant
            d == json::members(all@),
            i <= all@.len(),
            json::entry(d, k@) == json::entry(d.skip(i as int), k@),
        decreases all.len() - i,
    {
        assert(d.skip(i as int).drop_first() =~= d.skip(i + 1));
        assert(d.skip(i as int)[0] == json::member(all@[i as int]));
        if text::eq(all[i].key.as_str(), k) {
            return Some(&all[i].value);
        }
        i = i + 1;
    }
    None
}

/// Whether a row is hidden. A row without a record never is.
pub fn row_suppressed(row: &Json, all: &Vec<Member>, now: i64) -> (r: bool)
    ensures
        r == hidden(row@, json::members(all@), now),
{
    let s = match row.get("subject") {
        Some(s) => s,
        None => {
            return false;
        },
    };
    let (kind, id) = match (s.get_str("kind"), s.get_str("id")) {
        (Some(k), Some(i)) => (k, i),
        _ => {
            return false;
        },
    };
    let rec = match record_at(all, key(kind, id).as_str()) {
        Some(r) => r,
        None => {
            return false;
        },
    };
    let began: i128 = match number_of(row, "since") {
        Some(t) => t as i128,
        None => match number_of(row, "age") {
            Some(a) => now as i128 - a as i128,
            None => now as i128,
        },
    };
    suppressed_by(rec, began, now)
}

pub open spec fn shown(all: Seq<MemberView>, now: i64) -> spec_fn(JsonView) -> bool {
    |row: JsonView| !hidden(row, all, now)
}

pub open spec fn row_views(v: Seq<Json>) -> Seq<JsonView> {
    v.map_values(|j: Json| j@)
}

/// The rows that are not hidden, in their order.
pub fn filter_rows(rows: Vec<Json>, all: &Vec<Member>, now: i64) -> (r: Vec<Json>)
    ensures
        row_views(r@) == row_views(rows@).filter(shown(json::members(all@), now)),
{
    let ghost d = row_views(rows@);
    let ghost given = rows@;
    let ghost f = shown(json::members(all@), now);
    let mut out: Vec<Json> = Vec::new();
    proof {
        reveal(Seq::filter);
        assert(d.take(0) =~= seq![]);
        assert(row_views(out@) =~= d.take(0).filter(f));
    }
    for x in it: rows
        invariant
            it.seq() == given,
            d == row_views(given),
            f == shown(json::members(all@), now),
            row_views(out@) == d.take(it.index()).filter(f),
    {
        let ghost n = it.index();
        let ghost o = out@;
        proof {
            reveal(Seq::filter);
            assert(d.take(n + 1).drop_last() =~= d.take(n));
            assert(d.take(n + 1).last() == x@);
        }
        if !row_suppressed(&x, all, now) {
            let ghost xv = x@;
            out.push(x);
            assert(row_views(out@) =~= row_views(o).push(xv));
        }
    }
    assert(d.take(d.len() as int) =~= d);
    out
}

/// A record that can still hide something: any dismissal, and a snooze
/// that is not over.
pub open spec fn alive(now: i64) -> spec_fn(MemberView) -> bool {
    |m: MemberView| !snoozed(m.value) || asleep(m.value, now)
}

pub open spec fn text_or_empty(s: Option<Seq<char>>) -> Seq<char> {
    match s {
        Some(t) => t,
        None => ""@,
    }
}

/// The records with one more, filed under its subject; snoozes that are
/// over are dropped with the same write.
pub open spec fn recorded(all: Seq<MemberView>, record: JsonView, now: i64) -> Seq<MemberView> {
    json::with(
        all.filter(alive(now)),
        subject_key(
            text_or_empty(json::field_str(record, "kind"@)),
            text_or_empty(json::field_str(record, "id"@)),
        ),
        record,
    )
}

fn keep_alive(all: Vec<Member>, now: i64) -> (r: Vec<Member>)
    ensures
        json::members(r@) == json::members(all@).filter(alive(now)),
{
    let ghost d = json::members(all@);
    let ghost given = all@;
    let ghost f = alive(now);
    let mut out: Vec<Member> = Vec::new();
    proof {
        reveal(Seq::filter);
        assert(d.take(0) =~= seq![]);
        assert(json::members(out@) =~= d.take(0).filter(f));
    }
    for x in it: all
        invariant
            it.seq() == given,
            d == json::members(given),
            f == alive(now),
            json::members(out@) == d.take(it.index()).filter(f),
    {
        let ghost n = it.index();
        let ghost o = out@;
        proof {
            reveal(Seq::filter);
            assert(d.take(n + 1).drop_last() =~= d.take(n));
            assert(d.take(n + 1).last() == json::member(x));
        }
        if !is_snoozed(&x.value) || is_asleep(&x.value, now) {
            let ghost xv = json::member(x);
            out.push(x);
            assert(json::members(out@) =~= json::members(o).push(xv));
        }
    }
    assert(d.take(d.len() as int) =~= d);
    out
}

/// The records with one more.
pub fn record(all: Vec<Member>, new: Json, now: i64) -> (r: Json)
    ensures
        r@ == JsonView::Obj(recorded(json::members(all@), new@, now)),
{
    let k = {
        let kind = match new.get_str("kind") {
            Some(s) => s,
            None => "",
        };
        let id = match new.get_str("id") {
            Some(s) => s,
            None => "",
        };
        key(kind, id)
    };
    let kept = keep_alive(all, now);
    object_of(json::set_key(kept, k.as_str(), new))
}

// ---------- laws ----------

pub open spec fn distinct_keys(m: Seq<MemberView>) -> bool {
    forall|i: int, j: int| 0 <= i < j < m.len() ==> (#[trigger] m[i]).key != (#[trigger] m[j]).key
}

proof fn absent_key(m: Seq<MemberView>, k: Seq<char>)
    requires
        forall|i: int| 0 <= i < m.len() ==> (#[trigger] m[i]).key != k,
    ensures
        json::entry(m, k) is None,
    decreases m.len(),
{
    if m.len() > 0 {
        let r = m.drop_first();
        assert forall|i: int| 0 <= i < r.len() implies (#[trigger] r[i]).key != k by {
            assert(r[i] == m[i + 1]);
        }
        absent_key(r, k);
    }
}

/// Of the records, those that are kept are found as before.
proof fn kept_entry(m: Seq<MemberView>, f: spec_fn(MemberView) -> bool, k: Seq<char>)
    requires
        distinct_keys(m),
    ensures
        json::entry(m.filter(f), k) == (match json::entry(m, k) {
            Some(v) => if f(MemberView { key: k, value: v }) {
                Some(v)
            } else {
                None
            },
            None => None,
        }),
    decreases m.len(),
{
    reveal(Seq::filter);
    if m.len() > 0 {
        let rest = m.drop_last();
        let last = m.last();
        assert forall|i: int, j: int| 0 <= i < j < rest.len() implies (#[trigger] rest[i]).key != (
        #[trigger] rest[j]).key by {
            assert(m[i].key != m[j].key);
        }
        kept_entry(rest, f, k);
        assert(m =~= rest.push(last));
        json::entry_skip(rest, k, last);
        json::entry_skip(rest.filter(f), k, last);
        if last.key == k {
            assert forall|i: int| 0 <= i < rest.len() implies (#[trigger] rest[i]).key != k by {
                assert(m[i].key != m[m.len() - 1].key);
            }
            absent_key(rest, k);
            assert(last == MemberView { key: k, value: last.value });
        }
    }
}

/// A record touches its own subject only: a row of another one shows, or
/// stays hidden, as before.
pub proof fn a_record_touches_one_subject(
    all: Seq<MemberView>,
    record: JsonView,
    row: JsonView,
    now: i64,
)
    requires
        distinct_keys(all),
        subject(row) != Some(
            subject_key(
                text_or_empty(json::field_str(record, "kind"@)),
                text_or_empty(json::field_str(record, "id"@)),
            ),
        ),
    ensures
        hidden(row, recorded(all, record, now), now) <==> hidden(row, all, now),
{
    if let Some(k) = subject(row) {
        kept_entry(all, alive(now), k);
        json::with_entry(
            all.filter(alive(now)),
            subject_key(
                text_or_empty(json::field_str(record, "kind"@)),
                text_or_empty(json::field_str(record, "id"@)),
            ),
            record,
            k,
        );
    }
}

/// A dismissed row stays hidden while its condition lasts, and comes back
/// once it began after the dismissal.
pub proof fn a_dismissal_names_an_occurrence(
    all: Seq<MemberView>,
    row: JsonView,
    at: int,
    now: i64,
)
    requires
        subject(row) is Some,
        json::entry(all, subject(row)->0) is Some,
        !snoozed(json::entry(all, subject(row)->0)->0),
        number(json::entry(all, subject(row)->0)->0, "at"@) == Some(at),
    ensures
        hidden(row, all, now) <==> started(row, now) <= at,
{
}

/// A snoozed row comes back when its time is over, whatever happened.
pub proof fn a_snooze_ends(all: Seq<MemberView>, row: JsonView, until: int, now: i64)
    requires
        subject(row) is Some,
        json::entry(all, subject(row)->0) is Some,
        snoozed(json::entry(all, subject(row)->0)->0),
        number(json::entry(all, subject(row)->0)->0, "until"@) == Some(until),
    ensures
        hidden(row, all, now) <==> now < until,
{
}

/// Without records nothing is hidden.
pub proof fn no_record_hides_nothing(row: JsonView, now: i64)
    ensures
        !hidden(row, seq![], now),
{
}

/// What was recorded last is what the subject's record says.
pub proof fn the_last_record_counts(all: Seq<MemberView>, record: JsonView, now: i64)
    ensures
        json::entry(
            recorded(all, record, now),
            subject_key(
                text_or_empty(json::field_str(record, "kind"@)),
                text_or_empty(json::field_str(record, "id"@)),
            ),
        ) == Some(record),
{
    let k = subject_key(
        text_or_empty(json::field_str(record, "kind"@)),
        text_or_empty(json::field_str(record, "id"@)),
    );
    json::with_entry(all.filter(alive(now)), k, record, k);
}

} // verus!
