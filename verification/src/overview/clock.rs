//! When an issue entered its status, or was claimed: read from the
//! history of the tracker, under one budget per build, and kept across
//! builds for as long as neither the history nor the file has moved.
use crate::text;
use crate::time;
use vstd::prelude::*;

verus! {

/// What the status clocks may spend per build (milliseconds).
pub const STATUS_CLOCK_BUDGET_MS: u64 = 3000;

/// Bound on one call of `git` (milliseconds).
pub const GIT_TIMEOUT_MS: u64 = 15000;

// ---------- across builds ----------

/// A time that was found, and the key that it was read under.
#[derive(Debug)]
pub struct Kept {
    pub kind: String,
    pub id: String,
    pub key: String,
    pub at: i64,
}

/// Times kept across builds, at most one of each kind and issue. Only
/// found times are kept: none may be a spent budget.
#[derive(Debug)]
pub struct ClockCache {
    pub kept: Vec<Kept>,
}

pub open spec fn is_of(k: Kept, kind: Seq<char>, id: Seq<char>) -> bool {
    k.kind@ == kind && k.id@ == id
}

/// The position of a kind and issue.
pub open spec fn place(v: Seq<Kept>, kind: Seq<char>, id: Seq<char>) -> Option<int>
    decreases v.len(),
{
    if v.len() == 0 {
        None
    } else if is_of(v.last(), kind, id) {
        Some(v.len() - 1)
    } else {
        place(v.drop_last(), kind, id)
    }
}

/// What is kept of a kind and issue under a key.
pub open spec fn kept_at(v: Seq<Kept>, kind: Seq<char>, id: Seq<char>, key: Seq<char>) -> Option<
    i64,
> {
    match place(v, kind, id) {
        Some(i) => if v[i].key@ == key {
            Some(v[i].at)
        } else {
            None
        },
        None => None,
    }
}

/// The key of a read: the head of the tracker and the file's revision.
pub fn clock_key(head: &str, rev: &str) -> (r: String)
    ensures
        r@ == head@ + " "@ + rev@,
{
    head.to_owned().concat(" ").concat(rev)
}

impl ClockCache {
    pub fn empty() -> (r: ClockCache)
        ensures
            r.kept@.len() == 0,
    {
        ClockCache { kept: Vec::new() }
    }

    fn find(&self, kind: &str, id: &str) -> (r: Option<usize>)
        ensures
            match r {
                Some(i) => i < self.kept@.len() && place(self.kept@, kind@, id@) == Some(i as int)
                    && is_of(self.kept@[i as int], kind@, id@),
                None => place(self.kept@, kind@, id@) is None,
            },
    {
        let mut k: usize = self.kept.len();
        assert(self.kept@.take(k as int) =~= self.kept@);
        while k > 0
            invariant
                k <= self.kept@.len(),
                place(self.kept@, kind@, id@) == place(self.kept@.take(k as int), kind@, id@),
            decreases k,
        {
            assert(self.kept@.take(k as int).drop_last() =~= self.kept@.take(k - 1));
            k = k - 1;
            if text::eq(self.kept[k].kind.as_str(), kind) && text::eq(
                self.kept[k].id.as_str(),
                id,
            ) {
                return Some(k);
            }
        }
        None
    }

    /// The time kept under the key, if any.
    pub fn get(&self, kind: &str, id: &str, key: &str) -> (r: Option<i64>)
        ensures
            r == kept_at(self.kept@, kind@, id@, key@),
    {
        match self.find(kind, id) {
            Some(i) => if text::eq(self.kept[i].key.as_str(), key) {
                Some(self.kept[i].at)
            } else {
                None
            },
            None => None,
        }
    }

    /// Keeps a time that was found, in place of what was kept before.
    pub fn put(&mut self, kind: &str, id: &str, key: &str, at: Option<i64>)
        ensures
            at is None ==> final(self).kept@ == old(self).kept@,
            at is Some ==> forall|k: Seq<char>, i: Seq<char>, y: Seq<char>|
                #![trigger kept_at(final(self).kept@, k, i, y)]
                kept_at(final(self).kept@, k, i, y) == if k == kind@ && i == id@ {
                    if y == key@ {
                        at
                    } else {
                        None
                    }
                } else {
                    kept_at(old(self).kept@, k, i, y)
                },
    {
        if let Some(t) = at {
            let new = Kept { kind: kind.to_owned(), id: id.to_owned(), key: key.to_owned(), at: t };
            let ghost before = self.kept@;
            match self.find(kind, id) {
                Some(n) => {
                    self.kept.set(n, new);
                    proof {
                        assert forall|k: Seq<char>, i: Seq<char>| place(
                            self.kept@,
                            k,
                            i,
                        ) == place(before, k, i) by {
                            place_update(before, n as int, new, k, i);
                        }
                        assert forall|k: Seq<char>, i: Seq<char>, y: Seq<char>|
                            #![trigger kept_at(self.kept@, k, i, y)]
                            kept_at(self.kept@, k, i, y) == if k == kind@ && i == id@ {
                                if y == key@ {
                                    at
                                } else {
                                    None
                                }
                            } else {
                                kept_at(before, k, i, y)
                            } by {
                            assert(place(self.kept@, k, i) == place(before, k, i));
                            place_is(before, k, i);
                        }
                    }
                },
                None => {
                    self.kept.push(new);
                    proof {
                        assert(self.kept@.drop_last() =~= before);
                        assert forall|k: Seq<char>, i: Seq<char>, y: Seq<char>|
                            #![trigger kept_at(self.kept@, k, i, y)]
                            kept_at(self.kept@, k, i, y) == if k == kind@ && i == id@ {
                                if y == key@ {
                                    at
                                } else {
                                    None
                                }
                            } else {
                                kept_at(before, k, i, y)
                            } by {
                            place_is(before, k, i);
                        }
                    }
                },
            }
        }
    }
}

proof fn place_is(v: Seq<Kept>, kind: Seq<char>, id: Seq<char>)
    ensures
        match place(v, kind, id) {
            Some(i) => 0 <= i < v.len() && is_of(v[i], kind, id),
            None => true,
        },
    decreases v.len(),
{
    if v.len() > 0 && !is_of(v.last(), kind, id) {
        place_is(v.drop_last(), kind, id);
    }
}

proof fn place_update(v: Seq<Kept>, n: int, new: Kept, kind: Seq<char>, id: Seq<char>)
    requires
        0 <= n < v.len(),
        is_of(v[n], new.kind@, new.id@),
    ensures
        place(v.update(n, new), kind, id) == place(v, kind, id),
    decreases v.len(),
{
    let w = v.update(n, new);
    if !is_of(v.last(), kind, id) {
        if n < v.len() - 1 {
            assert(w.drop_last() =~= v.drop_last().update(n, new));
            place_update(v.drop_last(), n, new, kind, id);
        } else {
            assert(w.drop_last() =~= v.drop_last());
        }
    }
}

// ---------- within one build ----------

/// The clocks of one build, each issue read once.
#[derive(Debug)]
pub struct StatusClock {
    pub read: Vec<(String, Option<i64>)>,
    /// Issues left without a clock because the budget ran out.
    pub skipped: usize,
}

pub open spec fn read_at(v: Seq<(String, Option<i64>)>, id: Seq<char>) -> Option<Option<i64>>
    decreases v.len(),
{
    if v.len() == 0 {
        None
    } else if v[0].0@ == id {
        Some(v[0].1)
    } else {
        read_at(v.drop_first(), id)
    }
}

/// How the time of an issue's status is come by.
#[derive(Debug)]
pub enum Step {
    /// It was read already in this build.
    Known(Option<i64>),
    /// It follows from what is at hand.
    Found(Option<i64>),
    /// The budget is spent.
    Skip,
    /// Read it from the history, within so many milliseconds.
    Read(u64),
}

/// How the time of an issue's status is come by: a status of the file by
/// its last change in the history, one of the notes by the note that gave
/// it, and one of any other source not at all.
pub open spec fn next(
    read: Option<Option<i64>>,
    source: Seq<char>,
    kept: Option<i64>,
    left_ms: u64,
    last_note: Option<Seq<char>>,
) -> Step {
    match read {
        Some(at) => Step::Known(at),
        None => if source == "file"@ {
            if kept is Some {
                Step::Found(kept)
            } else if left_ms == 0 {
                Step::Skip
            } else if left_ms < GIT_TIMEOUT_MS {
                Step::Read(left_ms)
            } else {
                Step::Read(GIT_TIMEOUT_MS)
            }
        } else if source == "notes"@ {
            match last_note {
                Some(n) => match time::iso(n) {
                    Some(t) => Step::Found(Some(t as i64)),
                    None => Step::Found(None),
                },
                None => Step::Found(None),
            }
        } else {
            Step::Found(None)
        },
    }
}

impl StatusClock {
    pub fn new() -> (r: StatusClock)
        ensures
            r.read@.len() == 0,
            r.skipped == 0,
    {
        StatusClock { read: Vec::new(), skipped: 0 }
    }

    fn read_of(&self, id: &str) -> (r: Option<Option<i64>>)
        ensures
            r == read_at(self.read@, id@),
    {
        let mut i: usize = 0;
        assert(self.read@.skip(0) =~= self.read@);
        while i < self.read.len()
            invariant
                i <= self.read@.len(),
                read_at(self.read@, id@) == read_at(self.read@.skip(i as int), id@),
            decreases self.read.len() - i,
        {
            assert(self.read@.skip(i as int).drop_first() =~= self.read@.skip(i + 1));
            if text::eq(self.read[i].0.as_str(), id) {
                return Some(self.read[i].1);
            }
            i = i + 1;
        }
        None
    }

    /// What to do for an issue: `kept` is what an earlier build found, and
    /// `left_ms` what is left of the budget.
    pub fn since(
        &self,
        id: &str,
        source: &str,
        kept: Option<i64>,
        left_ms: u64,
        last_note: Option<&str>,
    ) -> (r: Step)
        ensures
            r == next(read_at(self.read@, id@), source@, kept, left_ms, last_note.deep_view()),
    {
        if let Some(at) = self.read_of(id) {
            return Step::Known(at);
        }
        if text::eq(source, "file") {
            if kept.is_some() {
                Step::Found(kept)
            } else if left_ms == 0 {
                Step::Skip
            } else if left_ms < GIT_TIMEOUT_MS {
                Step::Read(left_ms)
            } else {
                Step::Read(GIT_TIMEOUT_MS)
            }
        } else if text::eq(source, "notes") {
            match last_note {
                Some(n) => Step::Found(time::parse_iso(n)),
                None => Step::Found(None),
            }
        } else {
            Step::Found(None)
        }
    }

    /// Notes the outcome for an issue; a skipped one is counted.
    pub fn settle(&mut self, id: &str, at: Option<i64>, skipped: bool)
        requires
            old(self).skipped < usize::MAX,
        ensures
            final(self).skipped == old(self).skipped + (if skipped {
                1int
            } else {
                0
            }),
            forall|i: Seq<char>| #[trigger]
                read_at(final(self).read@, i) == (if read_at(old(self).read@, i) is Some {
                    read_at(old(self).read@, i)
                } else if i == id@ {
                    Some(at)
                } else {
                    None
                }),
    {
        let ghost before = self.read@;
        self.read.push((id.to_owned(), at));
        proof {
            assert forall|i: Seq<char>| #[trigger]
                read_at(self.read@, i) == (if read_at(before, i) is Some {
                    read_at(before, i)
                } else if i == id@ {
                    Some(at)
                } else {
                    None
                }) by {
                read_push(before, self.read@.last(), i);
                assert(before.push(self.read@.last()) =~= self.read@);
            }
        }
        if skipped {
            self.skipped = self.skipped + 1;
        }
    }
}

proof fn read_push(v: Seq<(String, Option<i64>)>, x: (String, Option<i64>), i: Seq<char>)
    ensures
        read_at(v.push(x), i) == (if read_at(v, i) is Some {
            read_at(v, i)
        } else if x.0@ == i {
            Some(x.1)
        } else {
            None
        }),
    decreases v.len(),
{
    reveal_with_fuel(read_at, 2);
    if v.len() == 0 {
        assert(v.push(x).drop_first() =~= Seq::empty());
    } else {
        assert(v.push(x).drop_first() =~= v.drop_first().push(x));
        read_push(v.drop_first(), x, i);
    }
}

/// How the age of a claim is come by.
#[derive(Debug)]
pub enum ClaimStep {
    Found(i64),
    /// Read it, and keep it where `keep` says so.
    Read { keep: bool },
}

/// A recorded claim carries its own time; that of an owner alone is read
/// from the history and kept under the key.
pub fn claim_since(cache: &ClockCache, recorded: bool, id: &str, key: Option<&str>) -> (r:
    ClaimStep)
    ensures
        r == (match key {
            Some(k) if !recorded => match kept_at(cache.kept@, "claim"@, id@, k@) {
                Some(at) => ClaimStep::Found(at),
                None => ClaimStep::Read { keep: true },
            },
            _ => ClaimStep::Read { keep: false },
        }),
{
    match key {
        Some(k) => {
            if recorded {
                return ClaimStep::Read { keep: false };
            }
            match cache.get("claim", id, k) {
                Some(at) => ClaimStep::Found(at),
                None => ClaimStep::Read { keep: true },
            }
        },
        None => ClaimStep::Read { keep: false },
    }
}

// ---------- laws ----------

/// A time kept under one key is not served under another: an edit, a
/// commit, a reset or a pull moves the key, and the time is read again.
pub proof fn a_moved_key_is_read_again(
    v: Seq<Kept>,
    kind: Seq<char>,
    id: Seq<char>,
    key: Seq<char>,
    other: Seq<char>,
)
    requires
        key != other,
        kept_at(v, kind, id, key) is Some,
    ensures
        kept_at(v, kind, id, other) is None,
{
}

} // verus!
