//! The memories of a project as they are found on disk: which files count,
//! what is quarantined, what is stale and what lint says.
use crate::error::Error;
use crate::memory;
use crate::memory::body;
use crate::memory::body::lint_body;
use crate::memory::check;
use crate::memory::check::{check_front, find_heavy};
use crate::memory::matching;
use crate::memory::quorum;
use crate::memory::{check_slug, valid_slug, Memory, MemoryView};
use crate::order;
use crate::text;
use crate::time;
use vstd::prelude::*;

verus! {

/// An entry of a memory directory.
#[derive(Debug)]
pub enum Entry {
    Unreadable(String),
    File {
        name: String,
        /// It is a symbolic link.
        link: bool,
        /// What reading it gave; nothing where it is no real file.
        loaded: Result<Option<Memory>, String>,
    },
}

/// What listing a memory directory gave.
#[derive(Debug)]
pub enum Listing {
    /// There is none: a valid empty store.
    Missing,
    Failed(String),
    Entries(Vec<Entry>),
}

/// A file that may hold a memory.
pub open spec fn memory_name(name: Seq<char>) -> bool {
    text::ends(name, ".md"@) && !text::begins(name, "."@)
}

fn is_memory_name(name: &str) -> (r: bool)
    ensures
        r == memory_name(name@),
{
    text::ends_with(name, ".md") && !text::starts_with(name, ".")
}

// ---------- loading ----------

/// The memory of an entry, unless a glob of its scope is quarantined. It is
/// of the project that holds it.
pub open spec fn sound_memory(key: Seq<char>, e: Entry) -> Option<MemoryView> {
    match e {
        Entry::File { name, link, loaded: Ok(Some(m)) } => if memory_name(name@) && check::heavy(
            m@.front.scope.paths,
        ) is None {
            Some(MemoryView { project: key, ..m@ })
        } else {
            None
        },
        _ => None,
    }
}

pub open spec fn load_fault(key: Seq<char>, e: Entry) -> Option<Seq<char>> {
    match e {
        Entry::Unreadable(why) => Some(key + "/memory: directory entry unreadable: "@ + why@),
        Entry::File { name, link, loaded } => if !memory_name(name@) {
            None
        } else {
            match loaded {
                Err(why) => Some(key + "/"@ + name@ + ": "@ + why@),
                Ok(None) => None,
                Ok(Some(m)) => match check::heavy(m@.front.scope.paths) {
                    Some(pat) => Some(
                        key + "/"@ + name@ + ": path scope '"@ + pat
                            + "' is too complex — quarantined at load"@,
                    ),
                    None => None,
                },
            }
        },
    }
}

pub open spec fn sound_memories(key: Seq<char>, v: Seq<Entry>) -> Seq<MemoryView>
    decreases v.len(),
{
    if v.len() == 0 {
        seq![]
    } else {
        match sound_memory(key, v.last()) {
            Some(m) => sound_memories(key, v.drop_last()).push(m),
            None => sound_memories(key, v.drop_last()),
        }
    }
}

pub open spec fn load_faults(key: Seq<char>, v: Seq<Entry>) -> Seq<Seq<char>>
    decreases v.len(),
{
    if v.len() == 0 {
        seq![]
    } else {
        match load_fault(key, v.last()) {
            Some(f) => load_faults(key, v.drop_last()).push(f),
            None => load_faults(key, v.drop_last()),
        }
    }
}

/// The memories that loaded, by slug, and what did not load.
pub open spec fn report(key: Seq<char>, l: Listing) -> (Seq<MemoryView>, Seq<Seq<char>>) {
    match l {
        Listing::Missing => (seq![], seq![]),
        Listing::Failed(why) => (
            seq![],
            seq![key + "/memory: cannot list directory: "@ + why@],
        ),
        Listing::Entries(v) => (
            order::sorted(sound_memories(key, v@), matching::by_slug()),
            load_faults(key, v@),
        ),
    }
}

fn place(v: &mut Vec<Memory>, m: Memory)
    ensures
        memory::memories(final(v)@) == order::insert(
            memory::memories(old(v)@),
            m@,
            matching::by_slug(),
        ),
{
    let ghost o = memory::memories(v@);
    let ghost le = matching::by_slug();
    let ghost mv = m@;
    let mut k: usize = v.len();
    while k > 0 && text::less(m.front.id.as_str(), v[k - 1].front.id.as_str())
        invariant
            le == matching::by_slug(),
            o == memory::memories(v@),
            mv == m@,
            k <= v@.len(),
            forall|j: int| k <= j < o.len() ==> !le(#[trigger] o[j], mv),
        decreases k,
    {
        assert(o[k - 1] == v@[k - 1]@);
        proof {
            text::lt_total(o[k - 1].front.id, mv.front.id);
        }
        k = k - 1;
    }
    proof {
        if k > 0 {
            assert(o[k - 1] == v@[k - 1]@);
            text::lt_total(o[k - 1].front.id, mv.front.id);
        }
        order::insert_at(o, mv, le, k as int);
    }
    v.insert(k, m);
    assert(memory::memories(v@) =~= o.insert(k as int, mv));
}

fn push_text(v: &mut Vec<String>, s: String)
    ensures
        final(v).deep_view() == old(v).deep_view().push(s@),
{
    let ghost o = v.deep_view();
    let ghost x = s@;
    v.push(s);
    assert(v.deep_view() =~= o.push(x));
}

/// Loads what can be loaded of a project's memories. A broken file is
/// reported, and does not stop the others; a glob that is too complex
/// keeps its memory out of matching.
pub fn load_project_report(key: &str, listing: Listing) -> (r: (Vec<Memory>, Vec<String>))
    ensures
        (memory::memories(r.0@), r.1.deep_view()) == report(key@, listing),
{
    let mut out: Vec<Memory> = Vec::new();
    let mut errors: Vec<String> = Vec::new();
    assert(memory::memories(out@) =~= seq![]);
    assert(errors.deep_view() =~= seq![]);
    let entries = match listing {
        Listing::Missing => {
            return (out, errors);
        },
        Listing::Failed(why) => {
            let e = key.to_owned().concat("/memory: cannot list directory: ").concat(why.as_str());
            push_text(&mut errors, e);
            assert(errors.deep_view() =~= seq![e@]);
            return (out, errors);
        },
        Listing::Entries(v) => v,
    };
    let ghost all = entries@;
    assert(all.take(0) =~= Seq::empty());
    for e in it: entries
        invariant
            it.seq() == all,
            memory::memories(out@) == order::sorted(
                sound_memories(key@, all.take(it.index())),
                matching::by_slug(),
            ),
            errors.deep_view() == load_faults(key@, all.take(it.index())),
    {
        let ghost n = it.index();
        assert(all.take(n + 1).drop_last() =~= all.take(n));
        assert(all.take(n + 1).last() == e);
        let ghost before = sound_memories(key@, all.take(n));
        match e {
            Entry::Unreadable(why) => {
                push_text(
                    &mut errors,
                    key.to_owned().concat("/memory: directory entry unreadable: ").concat(
                        why.as_str(),
                    ),
                );
            },
            Entry::File { name, link, loaded } => {
                if is_memory_name(name.as_str()) {
                    match loaded {
                        Err(why) => {
                            push_text(
                                &mut errors,
                                key.to_owned().concat("/").concat(name.as_str()).concat(
                                    ": ",
                                ).concat(why.as_str()),
                            );
                        },
                        Ok(None) => {},
                        Ok(Some(m)) => match find_heavy(&m.front.scope.paths) {
                            Some(pat) => {
                                push_text(
                                    &mut errors,
                                    key.to_owned().concat("/").concat(name.as_str()).concat(
                                        ": path scope '",
                                    ).concat(pat.as_str()).concat(
                                        "' is too complex — quarantined at load",
                                    ),
                                );
                            },
                            None => {
                                let mut m = m;
                                m.project = key.to_owned();
                                assert(before.push(m@).drop_last() =~= before);
                                place(&mut out, m);
                            },
                        },
                    }
                }
            },
        }
    }
    assert(all.take(all.len() as int) =~= all);
    (out, errors)
}

/// The memories of a project, where all of them load.
pub fn load_project(key: &str, listing: Listing) -> (r: Result<Vec<Memory>, Error>)
    ensures
        ({
            let (out, errors) = report(key@, listing);
            match r {
                Ok(v) => errors.len() == 0 && memory::memories(v@) == out,
                Err(e) => errors.len() > 0 && e is Rejected && e.text() == "memory: "@ + errors[0],
            }
        }),
{
    let (out, errors) = load_project_report(key, listing);
    let ghost d = errors.deep_view();
    if errors.len() > 0 {
        assert(d[0] == errors@[0]@);
        return Err(Error::Rejected("memory: ".to_owned().concat(errors[0].as_str())));
    }
    Ok(out)
}

/// The listings of some projects, in order.
pub type Listings = Vec<(String, Listing)>;

pub open spec fn all_loaded(v: Seq<(String, Listing)>) -> Seq<MemoryView>
    decreases v.len(),
{
    if v.len() == 0 {
        seq![]
    } else {
        all_loaded(v.drop_last()) + report(v.last().0@, v.last().1).0
    }
}

pub open spec fn all_faults(v: Seq<(String, Listing)>) -> Seq<Seq<char>>
    decreases v.len(),
{
    if v.len() == 0 {
        seq![]
    } else {
        all_faults(v.drop_last()) + report(v.last().0@, v.last().1).1
    }
}

/// The memories of every project, and what did not load.
pub fn load_all_report(projects: Result<Listings, String>) -> (r: (Vec<Memory>, Vec<String>))
    ensures
        match projects {
            Ok(v) => memory::memories(r.0@) == all_loaded(v@) && r.1.deep_view() == all_faults(v@),
            Err(e) => r.0@.len() == 0 && r.1.deep_view() == seq![e@],
        },
{
    let mut out: Vec<Memory> = Vec::new();
    let mut errors: Vec<String> = Vec::new();
    assert(memory::memories(out@) =~= seq![]);
    assert(errors.deep_view() =~= seq![]);
    let projects = match projects {
        Ok(v) => v,
        Err(e) => {
            push_text(&mut errors, e);
            assert(errors.deep_view() =~= seq![e@]);
            return (out, errors);
        },
    };
    let ghost all = projects@;
    assert(all.take(0) =~= Seq::empty());
    for p in it: projects
        invariant
            it.seq() == all,
            memory::memories(out@) == all_loaded(all.take(it.index())),
            errors.deep_view() == all_faults(all.take(it.index())),
    {
        let ghost n = it.index();
        assert(all.take(n + 1).drop_last() =~= all.take(n));
        assert(all.take(n + 1).last() == p);
        let (key, listing) = p;
        let (mut m, mut e) = load_project_report(key.as_str(), listing);
        let ghost (o0, m0) = (out@, m@);
        let ghost (e0, f0) = (errors.deep_view(), e.deep_view());
        out.append(&mut m);
        assert(memory::memories(out@) =~= memory::memories(o0) + memory::memories(m0));
        errors.append(&mut e);
        assert(errors.deep_view() =~= e0 + f0);
    }
    assert(all.take(all.len() as int) =~= all);
    (out, errors)
}

/// The memories of every project, where all of them load.
pub fn load_all(projects: Listings) -> (r: Result<Vec<Memory>, Error>)
    ensures
        match r {
            Ok(v) => all_faults(projects@).len() == 0 && memory::memories(v@) == all_loaded(
                projects@,
            ),
            Err(e) => all_faults(projects@).len() > 0 && e is Rejected && e.text() == "memory: "@
                + all_faults(projects@)[0],
        },
{
    let (out, errors) = load_all_report(Ok(projects));
    let ghost d = errors.deep_view();
    if errors.len() > 0 {
        assert(d[0] == errors@[0]@);
        return Err(Error::Rejected("memory: ".to_owned().concat(errors[0].as_str())));
    }
    Ok(out)
}

/// One line on what did not load.
pub fn load_errors_line(errors: &Vec<String>) -> (r: Option<String>)
    ensures
        r.deep_view() == if errors@.len() == 0 {
            None
        } else {
            Some(
                "memory: "@ + text::dec(errors@.len()) + " file(s) failed to load; first: "@
                    + errors@[0]@,
            )
        },
{
    if errors.len() == 0 {
        return None;
    }
    Some(
        "memory: ".to_owned().concat(text::dec_of(errors.len() as u64).as_str()).concat(
            " file(s) failed to load; first: ",
        ).concat(errors[0].as_str()),
    )
}

/// The projects in which a slug is looked for: the one that is asked for,
/// which must be one of them, or all. `unknown` is what the tracker says
/// of a project that it does not have.
pub fn candidates(keys: Vec<String>, asked: Option<&str>, unknown: Error) -> (r: Result<
    Vec<String>,
    Error,
>)
    ensures
        match asked {
            None => r == Ok::<Vec<String>, Error>(keys),
            Some(key) => match r {
                Ok(v) => keys.deep_view().contains(key@) && v.deep_view() == seq![key@],
                Err(e) => !keys.deep_view().contains(key@) && e == unknown,
            },
        },
{
    match asked {
        None => Ok(keys),
        Some(key) => {
            if !text::has_name(&keys, key) {
                return Err(unknown);
            }
            let mut one: Vec<String> = Vec::new();
            one.push(key.to_owned());
            assert(one.deep_view() =~= seq![key@]);
            Ok(one)
        },
    }
}

/// The memory of a slug among those that the projects have of it: there
/// must be exactly one.
pub fn find(slug: &str, hits: Vec<Memory>) -> (r: Result<Memory, Error>)
    ensures
        match r {
            Ok(m) => memory::slug(slug@) && hits@.len() == 1 && m == hits@[0],
            Err(e) => e is Rejected && (if !memory::slug(slug@) {
                e.text() == memory::bad_slug(slug@)
            } else if hits@.len() == 0 {
                e.text() == "Unknown memory '"@ + slug@
                    + "' — `cadence memory ls` lists what exists"@
            } else {
                hits@.len() > 1 && e.text() == "'"@ + slug@
                    + "' exists in several projects — pass --project"@
            }),
        },
{
    if let Err(e) = check_slug(slug) {
        return Err(e);
    }
    let mut hits = hits;
    if hits.len() > 1 {
        return Err(
            Error::Rejected(
                "'".to_owned().concat(slug).concat(
                    "' exists in several projects — pass --project",
                ),
            ),
        );
    }
    match hits.pop() {
        Some(m) => Ok(m),
        None => Err(
            Error::Rejected(
                "Unknown memory '".to_owned().concat(slug).concat(
                    "' — `cadence memory ls` lists what exists",
                ),
            ),
        ),
    }
}

// ---------- staleness ----------

pub open spec fn digits(b: Seq<u8>, i: int, j: int) -> bool {
    j <= b.len() && forall|k: int| i <= k < j ==> 48 <= #[trigger] b[k] <= 57
}

pub open spec fn value(b: Seq<u8>, i: int, j: int) -> int
    decreases j - i,
{
    if j <= i {
        0
    } else {
        value(b, i, j - 1) * 10 + (b[j - 1] - 48)
    }
}

pub open spec fn number(b: Seq<u8>, i: int, j: int) -> Option<int> {
    if digits(b, i, j) {
        Some(value(b, i, j))
    } else {
        None
    }
}

/// The epoch second of `YYYY-MM-DD[THH:MM:SSZ]`, by the places of its
/// digits alone; none where one is no digit, or anything in it is not
/// ASCII.
pub open spec fn epoch(b: Seq<u8>) -> Option<int> {
    if exists|i: int| 0 <= i < b.len() && #[trigger] b[i] > 0x7f {
        None
    } else {
        ascii_epoch(b)
    }
}

pub open spec fn ascii_epoch(b: Seq<u8>) -> Option<int> {
    match (number(b, 0, 4), number(b, 5, 7), number(b, 8, 10)) {
        (Some(y), Some(m), Some(d)) => if b.len() >= 19 {
            match (number(b, 11, 13), number(b, 14, 16), number(b, 17, 19)) {
                (Some(h), Some(mi), Some(s)) => Some(
                    time::days_from_civil(y, m, d) * 86400 + h * 3600 + mi * 60 + s,
                ),
                _ => None,
            }
        } else {
            Some(time::days_from_civil(y, m, d) * 86400)
        },
        _ => None,
    }
}

fn number_of(b: &Vec<u8>, i: usize, j: usize) -> (r: Option<i64>)
    requires
        i <= j,
        j - i <= 4,
    ensures
        match r {
            Some(n) => number(b@, i as int, j as int) == Some(n as int) && 0 <= n <= 9999,
            None => number(b@, i as int, j as int) is None,
        },
        r is Some && j - i == 2 ==> r->0 <= 99,
{
    if j > b.len() {
        return None;
    }
    let mut n: i64 = 0;
    let mut k: usize = i;
    while k < j
        invariant
            i <= k <= j <= b@.len(),
            j - i <= 4,
            digits(b@, i as int, k as int),
            n == value(b@, i as int, k as int),
            0 <= n,
            k == i ==> n == 0,
            k == i + 1 ==> n <= 9,
            k == i + 2 ==> n <= 99,
            k == i + 3 ==> n <= 999,
            k == i + 4 ==> n <= 9999,
        decreases j - k,
    {
        let c = b[k];
        if c < 48 || c > 57 {
            assert(!digits(b@, i as int, j as int)) by {
                assert(b@[k as int] == c);
            }
            return None;
        }
        n = n * 10 + (c - 48) as i64;
        k = k + 1;
    }
    Some(n)
}

pub fn iso_epoch(s: &str) -> (r: Option<i64>)
    ensures
        match r {
            Some(t) => epoch(vstd::utf8::encode_utf8(s@)) == Some(t as int),
            None => epoch(vstd::utf8::encode_utf8(s@)) is None,
        },
{
    let b = text::bytes_of(s);
    let mut i: usize = 0;
    while i < b.len()
        invariant
            i <= b@.len(),
            b@ == vstd::utf8::encode_utf8(s@),
            forall|k: int| 0 <= k < i ==> #[trigger] b@[k] <= 0x7f,
        decreases b.len() - i,
    {
        if b[i] > 0x7f {
            assert(b@[i as int] > 0x7f);
            return None;
        }
        i = i + 1;
    }
    let (y, m, d) = match (number_of(&b, 0, 4), number_of(&b, 5, 7), number_of(&b, 8, 10)) {
        (Some(y), Some(m), Some(d)) => (y, m, d),
        _ => {
            return None;
        },
    };
    let (h, mi, sec): (i64, i64, i64) = if b.len() >= 19 {
        match (number_of(&b, 11, 13), number_of(&b, 14, 16), number_of(&b, 17, 19)) {
            (Some(h), Some(mi), Some(sec)) => (h, mi, sec),
            _ => {
                return None;
            },
        }
    } else {
        (0, 0, 0)
    };
    let y: i64 = if m <= 2 {
        y - 1
    } else {
        y
    };
    // a floor division that holds below year 0 too
    let era: i64 = (y + 400) / 400 - 1;
    assert(era == y as int / 400);
    let yoe: i64 = y - era * 400;
    let doy: i64 = (153 * ((m + 9) % 12) + 2) / 5 + d - 1;
    let days: i64 = era * 146097 + yoe * 365 + yoe / 4 - yoe / 100 + doy - 719468;
    Some(days * 86400 + h * 3600 + mi * 60 + sec)
}

/// When a memory was last verified; 0 where that cannot be told.
pub open spec fn last_verified(m: MemoryView) -> int {
    match m.front.verified_at {
        Some(v) => match epoch(vstd::utf8::encode_utf8(v)) {
            Some(t) => t,
            None => 0,
        },
        None => 0,
    }
}

/// What to make of a memory's age.
#[derive(Debug)]
pub enum Age {
    /// It is not accepted, or fresh.
    Fresh,
    /// It was not verified within the window.
    Unverified,
    /// It is stale if its paths changed after this second.
    ChangedAfter(i64),
}

pub open spec fn age(m: MemoryView, since: int) -> Age {
    if m.front.status != "accepted"@ {
        Age::Fresh
    } else if last_verified(m) < since {
        Age::Unverified
    } else if m.front.scope.paths.len() == 0 {
        Age::Fresh
    } else if last_verified(m) > 0 {
        Age::ChangedAfter(last_verified(m) as i64)
    } else {
        Age::ChangedAfter(0)
    }
}

/// Whether an accepted memory is stale within a window of days before
/// `now`: it was not verified in it, or its paths may have changed since.
pub fn stale_age(m: &Memory, now: i64, days: u64) -> (r: Age)
    ensures
        r == age(m@, now - days * 86400),
{
    let since: i128 = now as i128 - (days as i128) * 86400;
    if !text::eq(m.front.status.as_str(), "accepted") {
        return Age::Fresh;
    }
    let verified: i64 = match &m.front.verified_at {
        Some(v) => match iso_epoch(v.as_str()) {
            Some(t) => t,
            None => 0,
        },
        None => 0,
    };
    if (verified as i128) < since {
        Age::Unverified
    } else if m.front.scope.paths.len() == 0 {
        Age::Fresh
    } else if verified > 0 {
        Age::ChangedAfter(verified)
    } else {
        Age::ChangedAfter(0)
    }
}

pub open spec fn named_lines(log: Seq<char>) -> Seq<Seq<char>> {
    text::lines(log).filter(|l: Seq<char>| l.len() > 0)
}

/// The files that a log names, the first ten.
pub fn changed_files(log: &str) -> (r: Vec<String>)
    ensures
        r.deep_view() == (if named_lines(log@).len() > 10 {
            named_lines(log@).take(10)
        } else {
            named_lines(log@)
        }),
{
    let lines = text::lines_of(log);
    let ghost d = lines.deep_view();
    let ghost f = |l: Seq<char>| l.len() > 0;
    let mut out: Vec<String> = Vec::new();
    let mut i: usize = 0;
    proof {
        reveal(Seq::filter);
        reveal_strlit("");
        assert(d.take(0) =~= Seq::empty());
        assert(out.deep_view() =~= d.take(0).filter(f));
    }
    while i < lines.len()
        invariant
            d == lines.deep_view(),
            f == (|l: Seq<char>| l.len() > 0),
            ""@.len() == 0,
            i <= lines@.len(),
            out.deep_view() == d.take(i as int).filter(f),
        decreases lines.len() - i,
    {
        proof {
            reveal(Seq::filter);
            assert(d.take(i + 1).drop_last() =~= d.take(i as int));
            assert(d[i as int] == lines@[i as int]@);
            assert(d[i as int].len() == 0 ==> d[i as int] =~= ""@);
        }
        if !text::eq(lines[i].as_str(), "") {
            push_text(&mut out, lines[i].clone());
        }
        i = i + 1;
    }
    assert(d.take(i as int) =~= d);
    let ghost all = out.deep_view();
    if out.len() > 10 {
        out.truncate(10);
        assert(out.deep_view() =~= all.take(10));
    }
    out
}

/// A stale memory, and why.
#[derive(Debug)]
pub struct Stale {
    pub project: String,
    pub slug: String,
    pub verified_at: Option<String>,
    pub reason: &'static str,
    /// The repository whose files changed.
    pub repo: Option<String>,
    pub changed: Vec<String>,
}

/// The first repository whose log names a file.
pub open spec fn first_changed(logs: Seq<(String, String)>) -> Option<int>
    decreases logs.len(),
{
    if logs.len() == 0 {
        None
    } else {
        match first_changed(logs.drop_last()) {
            Some(i) => Some(i),
            None => if named_lines(logs.last().1@).len() > 0 {
                Some(logs.len() - 1)
            } else {
                None
            },
        }
    }
}

/// What is reported of a memory, given its age and the logs of the
/// project's repositories that could be read.
pub fn stale(m: &Memory, age: &Age, logs: &Vec<(String, String)>) -> (r: Option<Stale>)
    ensures
        match r {
            None => *age is Fresh || (*age is ChangedAfter && first_changed(logs@) is None),
            Some(s) => {
                &&& s.project@ == m@.project
                &&& s.slug@ == m@.front.id
                &&& s.verified_at.deep_view() == m@.front.verified_at
                &&& match *age {
                    Age::Fresh => false,
                    Age::Unverified => s.reason@ == "not verified within the window"@
                        && s.repo is None && s.changed@.len() == 0,
                    Age::ChangedAfter(_) => {
                        let k = first_changed(logs@);
                        &&& k is Some
                        &&& s.reason@ == "paths changed after verified_at"@
                        &&& s.repo.deep_view() == Some(logs@[k->0].0@)
                        &&& s.changed.deep_view() == (if named_lines(logs@[k->0].1@).len() > 10 {
                            named_lines(logs@[k->0].1@).take(10)
                        } else {
                            named_lines(logs@[k->0].1@)
                        })
                    },
                }
            },
        },
{
    match age {
        Age::Fresh => None,
        Age::Unverified => Some(
            Stale {
                project: m.project.clone(),
                slug: m.front.id.clone(),
                verified_at: text::opt_copy(&m.front.verified_at),
                reason: "not verified within the window",
                repo: None,
                changed: Vec::new(),
            },
        ),
        Age::ChangedAfter(_) => {
            let mut i: usize = 0;
            assert(logs@.take(0) =~= Seq::empty());
            while i < logs.len()
                invariant
                    *age is ChangedAfter,
                    i <= logs@.len(),
                    first_changed(logs@.take(i as int)) is None,
                decreases logs.len() - i,
            {
                assert(logs@.take(i + 1).drop_last() =~= logs@.take(i as int));
                let changed = changed_files(logs[i].1.as_str());
                let ghost cd = changed.deep_view();
                assert(cd.len() == changed@.len());
                if changed.len() > 0 {
                    proof {
                        assert(first_changed(logs@.take(i + 1)) == Some(i as int));
                        first_stays(logs@, i + 1);
                    }
                    return Some(
                        Stale {
                            project: m.project.clone(),
                            slug: m.front.id.clone(),
                            verified_at: text::opt_copy(&m.front.verified_at),
                            reason: "paths changed after verified_at",
                            repo: Some(logs[i].0.clone()),
                            changed,
                        },
                    );
                }
                i = i + 1;
            }
            assert(logs@.take(i as int) =~= logs@);
            None
        },
    }
}

proof fn first_stays(logs: Seq<(String, String)>, n: int)
    requires
        0 <= n <= logs.len(),
        first_changed(logs.take(n)) is Some,
    ensures
        first_changed(logs) == first_changed(logs.take(n)),
    decreases logs.len(),
{
    if n < logs.len() {
        assert(logs.drop_last().take(n) =~= logs.take(n));
        first_stays(logs.drop_last(), n);
    } else {
        assert(logs.take(n) =~= logs);
    }
}

// ---------- lint ----------

/// A name without every `.md` at its end.
pub open spec fn bare(name: Seq<char>) -> Seq<char>
    decreases name.len(),
{
    if name.len() >= 3 && text::ends(name, ".md"@) && ".md"@.len() == 3 {
        bare(name.take(name.len() - 3))
    } else {
        name
    }
}

fn bare_of(name: &str) -> (r: String)
    ensures
        r@ == bare(name@),
{
    let v = text::chars_of(name);
    let mut n: usize = v.len();
    proof {
        reveal_strlit(".md");
        assert(name@.take(n as int) =~= name@);
    }
    while n >= 3 && v[n - 3] == '.' && v[n - 2] == 'm' && v[n - 1] == 'd'
        invariant
            v@ == name@,
            n <= v@.len(),
            ".md"@.len() == 3,
            ".md"@ =~= seq!['.', 'm', 'd'],
            bare(name@) == bare(name@.take(n as int)),
        decreases n,
    {
        let ghost t = name@.take(n as int);
        assert(t.skip(n - 3) =~= ".md"@);
        assert(t.take(n - 3) =~= name@.take(n - 3));
        n = n - 3;
    }
    proof {
        let t = name@.take(n as int);
        if n >= 3 && text::ends(t, ".md"@) {
            assert(t.skip(n - 3) =~= ".md"@);
            assert(t[n - 3] == t.skip(n - 3)[0]);
            assert(t[n - 2] == t.skip(n - 3)[1]);
            assert(t[n - 1] == t.skip(n - 3)[2]);
        }
    }
    let r = text::string_of(v.as_slice(), 0, n);
    assert(r@ =~= name@.take(n as int));
    r
}

pub open spec fn at(key: Seq<char>, name: Seq<char>, what: Seq<char>) -> Seq<char> {
    key + "/memory/"@ + name + ": "@ + what
}

/// What one entry is faulted for before its memory is looked at.
pub open spec fn entry_errors(key: Seq<char>, e: Entry) -> Seq<Seq<char>> {
    match e {
        Entry::Unreadable(why) => seq![
            key + "/memory: directory entry unreadable: "@ + why@,
        ],
        Entry::File { name, link, loaded } => if !memory_name(name@) {
            seq![]
        } else if link {
            seq![at(key, name@, "symlink — the board never follows links"@)]
        } else if !memory::slug(bare(name@)) {
            seq![at(key, name@, "bad slug grammar"@)]
        } else {
            match loaded {
                Ok(Some(m)) => if m@.front.id != bare(name@) {
                    seq![
                        at(
                            key,
                            name@,
                            "frontmatter id '"@ + m@.front.id + "' does not match filename"@,
                        ),
                    ]
                } else {
                    seq![]
                },
                _ => seq![],
            }
        },
    }
}

/// A file that cannot be parsed is a warning: every read path reports it,
/// and one stray file must not stop every commit.
pub open spec fn entry_warnings(key: Seq<char>, e: Entry) -> Seq<Seq<char>> {
    match e {
        Entry::File { name, link, loaded: Err(why) } => if memory_name(name@) && !link
            && memory::slug(bare(name@)) {
            seq![at(key, name@, why@)]
        } else {
            seq![]
        },
        _ => seq![],
    }
}

/// The memory that an entry gives to lint, with its slug.
pub open spec fn linted(e: Entry) -> Seq<(Seq<char>, MemoryView)> {
    match e {
        Entry::File { name, link, loaded: Ok(Some(m)) } => if memory_name(name@) && !link
            && memory::slug(bare(name@)) {
            seq![(bare(name@), m@)]
        } else {
            seq![]
        },
        _ => seq![],
    }
}

pub open spec fn all_entry_errors(key: Seq<char>, v: Seq<Entry>) -> Seq<Seq<char>>
    decreases v.len(),
{
    if v.len() == 0 {
        seq![]
    } else {
        all_entry_errors(key, v.drop_last()) + entry_errors(key, v.last())
    }
}

pub open spec fn all_entry_warnings(key: Seq<char>, v: Seq<Entry>) -> Seq<Seq<char>>
    decreases v.len(),
{
    if v.len() == 0 {
        seq![]
    } else {
        all_entry_warnings(key, v.drop_last()) + entry_warnings(key, v.last())
    }
}

pub open spec fn all_linted(v: Seq<Entry>) -> Seq<(Seq<char>, MemoryView)>
    decreases v.len(),
{
    if v.len() == 0 {
        seq![]
    } else {
        all_linted(v.drop_last()) + linted(v.last())
    }
}

pub open spec fn no_scope(m: MemoryView) -> bool {
    let s = m.front.scope;
    s.paths.len() == 0 && !s.project && s.components.len() == 0 && s.tags.len() == 0
        && s.providers.len() == 0
}

pub open spec fn own_file(m: MemoryView) -> Seq<char> {
    m.front.id + ".md"@
}

/// What a memory is faulted for.
pub open spec fn memory_errors(
    m: MemoryView,
    components: Seq<Seq<char>>,
    slugs: Seq<Seq<char>>,
) -> Seq<Seq<char>> {
    let front = match check::fault(m, components) {
        Some(f) => seq![at(m.project, own_file(m), f)],
        None => seq![],
    };
    let lines = body::faults(m.front.id, m.body).map_values(
        |f: Seq<char>| at(m.project, own_file(m), f),
    );
    let dangling = match m.front.supersedes {
        Some(t) => if slugs.contains(t) {
            seq![]
        } else {
            seq![at(m.project, own_file(m), "supersedes '"@ + t + "' which does not exist"@)]
        },
        None => seq![],
    };
    front + lines + dangling
}

pub open spec fn memory_warnings(m: MemoryView) -> Seq<Seq<char>> {
    if m.front.status == "accepted"@ && no_scope(m) {
        seq![
            at(m.project, own_file(m), "accepted but has no scope — it matches nothing"@),
        ]
    } else {
        seq![]
    }
}

pub open spec fn slugs_of(v: Seq<(Seq<char>, MemoryView)>) -> Seq<Seq<char>> {
    v.map_values(|p: (Seq<char>, MemoryView)| p.0)
}

pub open spec fn all_memory_errors(
    v: Seq<(Seq<char>, MemoryView)>,
    components: Seq<Seq<char>>,
    slugs: Seq<Seq<char>>,
) -> Seq<Seq<char>>
    decreases v.len(),
{
    if v.len() == 0 {
        seq![]
    } else {
        all_memory_errors(v.drop_last(), components, slugs) + memory_errors(
            v.last().1,
            components,
            slugs,
        )
    }
}

pub open spec fn all_memory_warnings(v: Seq<(Seq<char>, MemoryView)>) -> Seq<Seq<char>>
    decreases v.len(),
{
    if v.len() == 0 {
        seq![]
    } else {
        all_memory_warnings(v.drop_last()) + memory_warnings(v.last().1)
    }
}

/// What lint says of a project's memories: errors and warnings.
pub open spec fn lint(key: Seq<char>, components: Seq<Seq<char>>, l: Listing) -> (
    Seq<Seq<char>>,
    Seq<Seq<char>>,
) {
    match l {
        Listing::Missing => (seq![], seq![]),
        Listing::Failed(why) => (
            seq![key + "/memory: cannot list directory: "@ + why@],
            seq![],
        ),
        Listing::Entries(v) => {
            let mems = all_linted(v@);
            (
                all_entry_errors(key, v@) + all_memory_errors(mems, components, slugs_of(mems)),
                all_entry_warnings(key, v@) + all_memory_warnings(mems),
            )
        },
    }
}

fn at_of(key: &str, name: &str, what: &str) -> (r: String)
    ensures
        r@ == at(key@, name@, what@),
{
    key.to_owned().concat("/memory/").concat(name).concat(": ").concat(what)
}

pub open spec fn pairs(s: Seq<String>, m: Seq<Memory>) -> Seq<(Seq<char>, MemoryView)>
    recommends
        s.len() == m.len(),
{
    Seq::new(s.len(), |i: int| (s[i]@, m[i]@))
}

/// Takes up one entry: its errors, its warnings and its memory.
fn lint_entry(
    key: &str,
    e: Entry,
    errors: &mut Vec<String>,
    warnings: &mut Vec<String>,
    slugs: &mut Vec<String>,
    mems: &mut Vec<Memory>,
)
    requires
        old(slugs)@.len() == old(mems)@.len(),
    ensures
        final(slugs)@.len() == final(mems)@.len(),
        final(errors).deep_view() == old(errors).deep_view() + entry_errors(key@, e),
        final(warnings).deep_view() == old(warnings).deep_view() + entry_warnings(key@, e),
        pairs(final(slugs)@, final(mems)@) == pairs(old(slugs)@, old(mems)@) + linted(e),
{
    let ghost (e0, w0) = (errors.deep_view(), warnings.deep_view());
    let ghost p0 = pairs(slugs@, mems@);
    let ghost ev = e;
    match e {
        Entry::Unreadable(why) => {
            push_text(
                errors,
                key.to_owned().concat("/memory: directory entry unreadable: ").concat(
                    why.as_str(),
                ),
            );
        },
        Entry::File { name, link, loaded } => {
            if is_memory_name(name.as_str()) {
                let slug = bare_of(name.as_str());
                if link {
                    push_text(
                        errors,
                        at_of(key, name.as_str(), "symlink — the board never follows links"),
                    );
                } else if !valid_slug(slug.as_str()) {
                    push_text(errors, at_of(key, name.as_str(), "bad slug grammar"));
                } else {
                    match loaded {
                        Ok(Some(m)) => {
                            if !text::eq(m.front.id.as_str(), slug.as_str()) {
                                let what = "frontmatter id '".to_owned().concat(
                                    m.front.id.as_str(),
                                ).concat("' does not match filename");
                                push_text(errors, at_of(key, name.as_str(), what.as_str()));
                            }
                            slugs.push(slug);
                            mems.push(m);
                        },
                        Ok(None) => {},
                        Err(why) => {
                            push_text(warnings, at_of(key, name.as_str(), why.as_str()));
                        },
                    }
                }
            }
        },
    }
    assert(errors.deep_view() =~= e0 + entry_errors(key@, ev));
    assert(warnings.deep_view() =~= w0 + entry_warnings(key@, ev));
    assert(pairs(slugs@, mems@) =~= p0 + linted(ev));
}

fn lint_memory(
    m: &Memory,
    components: &Vec<String>,
    slugs: &Vec<String>,
    errors: &mut Vec<String>,
    warnings: &mut Vec<String>,
)
    ensures
        final(errors).deep_view() == old(errors).deep_view() + memory_errors(
            m@,
            components.deep_view(),
            slugs.deep_view(),
        ),
        final(warnings).deep_view() == old(warnings).deep_view() + memory_warnings(m@),
{
    let ghost (e0, w0) = (errors.deep_view(), warnings.deep_view());
    let own = m.front.id.clone().concat(".md");
    let key = m.project.as_str();
    let ghost front: Seq<Seq<char>> = match check::fault(m@, components.deep_view()) {
        Some(f) => seq![at(m@.project, own_file(m@), f)],
        None => seq![],
    };
    if let Err(e) = check_front(m, components) {
        push_text(errors, at_of(key, own.as_str(), e.message()));
    }
    assert(errors.deep_view() =~= e0 + front);
    let faults = lint_body(m.front.id.as_str(), m.body.as_str());
    let ghost d = faults.deep_view();
    let ghost lines = d.map_values(|f: Seq<char>| at(m@.project, own_file(m@), f));
    let ghost e1 = errors.deep_view();
    let mut i: usize = 0;
    assert(e1 + lines.take(0) =~= e1);
    while i < faults.len()
        invariant
            d == faults.deep_view(),
            lines == d.map_values(|f: Seq<char>| at(m@.project, own_file(m@), f)),
            own@ == own_file(m@),
            key@ == m@.project,
            i <= faults@.len(),
            errors.deep_view() == e1 + lines.take(i as int),
        decreases faults.len() - i,
    {
        assert(d[i as int] == faults@[i as int]@);
        let ghost o = errors.deep_view();
        push_text(errors, at_of(key, own.as_str(), faults[i].as_str()));
        assert(e1 + lines.take(i + 1) =~= o.push(lines[i as int]));
        i = i + 1;
    }
    assert(lines.take(i as int) =~= lines);
    let ghost e2 = errors.deep_view();
    if let Some(t) = &m.front.supersedes {
        if !text::has_name(slugs, t.as_str()) {
            let what = "supersedes '".to_owned().concat(t.as_str()).concat(
                "' which does not exist",
            );
            push_text(errors, at_of(key, own.as_str(), what.as_str()));
        }
    }
    assert(errors.deep_view() =~= e0 + memory_errors(
        m@,
        components.deep_view(),
        slugs.deep_view(),
    ));
    let s = &m.front.scope;
    if text::eq(m.front.status.as_str(), "accepted") && s.paths.len() == 0 && !s.project
        && s.components.len() == 0 && s.tags.len() == 0 && s.providers.len() == 0 {
        push_text(
            warnings,
            at_of(key, own.as_str(), "accepted but has no scope — it matches nothing"),
        );
    }
    assert(warnings.deep_view() =~= w0 + memory_warnings(m@));
}

/// Lints a project's memories. An absent directory is clean.
pub fn lint_dir(key: &str, components: &Vec<String>, listing: Listing) -> (r: (
    Vec<String>,
    Vec<String>,
))
    ensures
        (r.0.deep_view(), r.1.deep_view()) == lint(key@, components.deep_view(), listing),
{
    let mut errors: Vec<String> = Vec::new();
    let mut warnings: Vec<String> = Vec::new();
    assert(errors.deep_view() =~= seq![]);
    assert(warnings.deep_view() =~= seq![]);
    let entries = match listing {
        Listing::Missing => {
            return (errors, warnings);
        },
        Listing::Failed(why) => {
            push_text(
                &mut errors,
                key.to_owned().concat("/memory: cannot list directory: ").concat(why.as_str()),
            );
            return (errors, warnings);
        },
        Listing::Entries(v) => v,
    };
    let ghost all = entries@;
    let mut slugs: Vec<String> = Vec::new();
    let mut mems: Vec<Memory> = Vec::new();
    assert(all.take(0) =~= Seq::empty());
    assert(pairs(slugs@, mems@) =~= seq![]);
    for e in it: entries
        invariant
            it.seq() == all,
            slugs@.len() == mems@.len(),
            errors.deep_view() == all_entry_errors(key@, all.take(it.index())),
            warnings.deep_view() == all_entry_warnings(key@, all.take(it.index())),
            pairs(slugs@, mems@) == all_linted(all.take(it.index())),
    {
        let ghost n = it.index();
        assert(all.take(n + 1).drop_last() =~= all.take(n));
        assert(all.take(n + 1).last() == e);
        lint_entry(key, e, &mut errors, &mut warnings, &mut slugs, &mut mems);
    }
    assert(all.take(all.len() as int) =~= all);
    let ghost p = pairs(slugs@, mems@);
    let ghost (e0, w0) = (errors.deep_view(), warnings.deep_view());
    let ghost comp = components.deep_view();
    assert(slugs.deep_view() =~= slugs_of(p));
    let mut i: usize = 0;
    assert(p.take(0) =~= Seq::empty());
    assert(e0 + all_memory_errors(p.take(0), comp, slugs_of(p)) =~= e0);
    assert(w0 + all_memory_warnings(p.take(0)) =~= w0);
    while i < mems.len()
        invariant
            p == pairs(slugs@, mems@),
            slugs@.len() == mems@.len(),
            slugs.deep_view() == slugs_of(p),
            comp == components.deep_view(),
            i <= mems@.len(),
            errors.deep_view() == e0 + all_memory_errors(p.take(i as int), comp, slugs_of(p)),
            warnings.deep_view() == w0 + all_memory_warnings(p.take(i as int)),
        decreases mems.len() - i,
    {
        assert(p.take(i + 1).drop_last() =~= p.take(i as int));
        assert(p.take(i + 1).last().1 == mems@[i as int]@);
        let ghost ae = all_memory_errors(p.take(i as int), comp, slugs_of(p));
        let ghost aw = all_memory_warnings(p.take(i as int));
        lint_memory(&mems[i], components, &slugs, &mut errors, &mut warnings);
        proof {
            let me = memory_errors(mems@[i as int]@, comp, slugs_of(p));
            let mw = memory_warnings(mems@[i as int]@);
            assert(e0 + ae + me =~= e0 + (ae + me));
            assert(w0 + aw + mw =~= w0 + (aw + mw));
        }
        i = i + 1;
    }
    assert(p.take(i as int) =~= p);
    (errors, warnings)
}

// ---------- laws ----------

/// A memory whose scope holds a glob over budget never reaches matching.
pub proof fn a_heavy_glob_is_quarantined(key: Seq<char>, e: Entry)
    requires
        e is File,
        e->loaded is Ok,
        e->loaded->Ok_0 is Some,
        check::heavy(e->loaded->Ok_0->0@.front.scope.paths) is Some,
    ensures
        sound_memory(key, e) is None,
{
}

proof fn sound_of_project(key: Seq<char>, v: Seq<Entry>)
    ensures
        forall|i: int|
            0 <= i < sound_memories(key, v).len() ==> (#[trigger] sound_memories(
                key,
                v,
            )[i]).project == key,
    decreases v.len(),
{
    if v.len() > 0 {
        sound_of_project(key, v.drop_last());
    }
}

proof fn in_the_sort(s: Seq<MemoryView>, le: spec_fn(MemoryView, MemoryView) -> bool)
    ensures
        forall|m: MemoryView| #[trigger] order::sorted(s, le).contains(m) <==> s.contains(m),
{
    broadcast use vstd::seq_lib::group_to_multiset_ensures;

    order::sorted_is_a_sort(s, le);
    assert forall|m: MemoryView| #[trigger] order::sorted(s, le).contains(m) <==> s.contains(
        m,
    ) by {
        assert(order::sorted(s, le).to_multiset().count(m) == s.to_multiset().count(m));
    }
}

/// Every memory of a load report is of the project that was loaded.
pub proof fn a_loaded_memory_is_of_its_project(key: Seq<char>, l: Listing, i: int)
    requires
        0 <= i < report(key, l).0.len(),
    ensures
        report(key, l).0[i].project == key,
{
    if let Listing::Entries(v) = l {
        let s = sound_memories(key, v@);
        sound_of_project(key, v@);
        in_the_sort(s, matching::by_slug());
        let m = report(key, l).0[i];
        assert(order::sorted(s, matching::by_slug()).contains(m));
        let k = choose|k: int| 0 <= k < s.len() && s[k] == m;
    }
}

/// The rules of a project's briefing are exactly the project-wide rules of
/// its load report that may be retrieved, each of that project.
pub proof fn rules_come_from_the_report(key: Seq<char>, l: Listing, m: MemoryView)
    ensures
        order::sorted(
            report(key, l).0.filter(matching::project_rule()),
            matching::by_slug(),
        ).contains(m) <==> report(key, l).0.contains(m) && matching::project_rule()(m),
        order::sorted(
            report(key, l).0.filter(matching::project_rule()),
            matching::by_slug(),
        ).contains(m) ==> m.project == key && m.front.status == "accepted"@
            && m.front.kind == "rule"@ && m.front.scope.project && quorum::retrieval(m).0,
{
    let pool = report(key, l).0;
    let f = matching::project_rule();
    in_the_sort(pool.filter(f), matching::by_slug());
    if pool.filter(f).contains(m) {
        let i = choose|i: int| 0 <= i < pool.filter(f).len() && pool.filter(f)[i] == m;
        matching::picked_from(pool, f, i);
    }
    if pool.contains(m) {
        let k = choose|k: int| 0 <= k < pool.len() && pool[k] == m;
        a_loaded_memory_is_of_its_project(key, l, k);
        if f(m) {
            matching::picked_has(pool, f, k);
        }
    }
}

} // verus!
