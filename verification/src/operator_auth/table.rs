//! A small table of keys, each with an origin and a time at which it ends.
use crate::operator_auth::Origin;
use crate::text;
use vstd::prelude::*;

verus! {

#[derive(Debug)]
pub struct Entry {
    pub key: String,
    pub origin: Origin,
    pub until: i64,
}

/// The entries, each key once.
#[derive(Debug)]
pub struct Table {
    pub rows: Vec<Entry>,
}

pub type TableView = Map<Seq<char>, (Origin, i64)>;

pub open spec fn entries(rows: Seq<Entry>) -> Map<Seq<char>, (Origin, i64)>
    decreases rows.len(),
{
    if rows.len() == 0 {
        Map::empty()
    } else {
        entries(rows.drop_last()).insert(rows.last().key@, (rows.last().origin, rows.last().until))
    }
}

pub open spec fn distinct(rows: Seq<Entry>) -> bool {
    forall|i: int, j: int|
        0 <= i < j < rows.len() ==> (#[trigger] rows[i]).key@ != (#[trigger] rows[j]).key@
}

proof fn entry_at(rows: Seq<Entry>, i: int)
    requires
        distinct(rows),
        0 <= i < rows.len(),
    ensures
        entries(rows).dom().contains(rows[i].key@),
        entries(rows)[rows[i].key@] == (rows[i].origin, rows[i].until),
    decreases rows.len(),
{
    if i < rows.len() - 1 {
        assert(rows.drop_last()[i] == rows[i]);
        assert(distinct(rows.drop_last())) by {
            assert forall|a: int, b: int| 0 <= a < b < rows.drop_last().len() implies (
            #[trigger] rows.drop_last()[a]).key@ != (#[trigger] rows.drop_last()[b]).key@ by {
                assert(rows[a].key@ != rows[b].key@);
            }
        }
        entry_at(rows.drop_last(), i);
        assert(rows[i].key@ != rows[rows.len() - 1].key@);
    }
}

proof fn entry_of(rows: Seq<Entry>, key: Seq<char>) -> (i: int)
    requires
        entries(rows).dom().contains(key),
    ensures
        0 <= i < rows.len(),
        rows[i].key@ == key,
    decreases rows.len(),
{
    if rows.last().key@ == key {
        rows.len() - 1
    } else {
        entry_of(rows.drop_last(), key)
    }
}

/// Two lists with the same entries are the same table.
proof fn same_entries(a: Seq<Entry>, m: Map<Seq<char>, (Origin, i64)>)
    requires
        distinct(a),
        forall|k: Seq<char>| #[trigger] m.dom().contains(k) ==> exists|i: int|
            0 <= i < a.len() && (#[trigger] a[i]).key@ == k && m[k] == (a[i].origin, a[i].until),
        forall|i: int| 0 <= i < a.len() ==> m.dom().contains((#[trigger] a[i]).key@),
    ensures
        entries(a) == m,
{
    assert forall|k: Seq<char>| entries(a).dom().contains(k) == m.dom().contains(k) by {
        if entries(a).dom().contains(k) {
            let i = entry_of(a, k);
        }
        if m.dom().contains(k) {
            let i = choose|i: int|
                0 <= i < a.len() && (#[trigger] a[i]).key@ == k && m[k] == (
                    a[i].origin,
                    a[i].until,
                );
            entry_at(a, i);
        }
    }
    assert forall|k: Seq<char>| m.dom().contains(k) implies #[trigger] entries(a)[k] == m[k] by {
        let i = choose|i: int|
            0 <= i < a.len() && (#[trigger] a[i]).key@ == k && m[k] == (a[i].origin, a[i].until);
        entry_at(a, i);
    }
    assert(entries(a) =~= m);
}

/// What is left of a table at a time, with some slack after each end.
pub open spec fn kept(m: Map<Seq<char>, (Origin, i64)>, now: i64, slack: int) -> Map<
    Seq<char>,
    (Origin, i64),
> {
    Map::new(
        |k: Seq<char>| m.dom().contains(k) && now <= m[k].1 + slack,
        |k: Seq<char>| m[k],
    )
}

/// `x` is one of the first `n` entries and has not ended.
spec fn stays(rows: Seq<Entry>, n: int, x: Entry, now: i64, slack: int) -> bool {
    exists|i: int| 0 <= i < n && rows[i] == x && now <= x.until + slack
}

impl View for Table {
    type V = Map<Seq<char>, (Origin, i64)>;

    open spec fn view(&self) -> Map<Seq<char>, (Origin, i64)> {
        entries(self.rows@)
    }
}

impl Table {
    pub open spec fn wf(self) -> bool {
        distinct(self.rows@)
    }

    pub fn empty() -> (r: Table)
        ensures
            r.wf(),
            r@ == Map::<Seq<char>, (Origin, i64)>::empty(),
    {
        Table { rows: Vec::new() }
    }

    fn find(&self, key: &str) -> (r: Option<usize>)
        requires
            self.wf(),
        ensures
            match r {
                Some(i) => i < self.rows@.len() && self.rows@[i as int].key@ == key@
                    && self@.dom().contains(key@) && self@[key@] == (
                    self.rows@[i as int].origin,
                    self.rows@[i as int].until,
                ),
                None => !self@.dom().contains(key@) && forall|i: int|
                    0 <= i < self.rows@.len() ==> (#[trigger] self.rows@[i]).key@ != key@,
            },
    {
        let mut i: usize = 0;
        while i < self.rows.len()
            invariant
                self.wf(),
                i <= self.rows@.len(),
                forall|k: int| 0 <= k < i ==> (#[trigger] self.rows@[k]).key@ != key@,
            decreases self.rows.len() - i,
        {
            if text::eq(self.rows[i].key.as_str(), key) {
                proof {
                    entry_at(self.rows@, i as int);
                }
                return Some(i);
            }
            i = i + 1;
        }
        proof {
            if self@.dom().contains(key@) {
                let k = entry_of(self.rows@, key@);
                assert(self.rows@[k].key@ != key@);
            }
        }
        None
    }

    pub fn get(&self, key: &str) -> (r: Option<(Origin, i64)>)
        requires
            self.wf(),
        ensures
            r == (if self@.dom().contains(key@) {
                Some(self@[key@])
            } else {
                None
            }),
    {
        match self.find(key) {
            Some(i) => Some((self.rows[i].origin, self.rows[i].until)),
            None => None,
        }
    }

    pub fn insert(&mut self, key: &str, origin: Origin, until: i64)
        requires
            old(self).wf(),
        ensures
            final(self).wf(),
            final(self)@ == old(self)@.insert(key@, (origin, until)),
    {
        let ghost rows = self.rows@;
        let ghost m = self@.insert(key@, (origin, until));
        let new = Entry { key: key.to_owned(), origin, until };
        match self.find(key) {
            Some(i) => {
                self.rows.set(i, new);
                proof {
                    let w = self.rows@;
                    assert(distinct(w)) by {
                        assert forall|a: int, b: int| 0 <= a < b < w.len() implies (
                        #[trigger] w[a]).key@ != (#[trigger] w[b]).key@ by {
                            assert(rows[a].key@ != rows[b].key@);
                        }
                    }
                    assert forall|k: Seq<char>| #[trigger] m.dom().contains(k) implies exists|j: int|
                        0 <= j < w.len() && (#[trigger] w[j]).key@ == k && m[k] == (
                            w[j].origin,
                            w[j].until,
                        ) by {
                        if k == key@ {
                            assert(w[i as int].key@ == k);
                        } else {
                            let j = entry_of(rows, k);
                            entry_at(rows, j);
                            assert(w[j].key@ == k);
                        }
                    }
                    assert forall|j: int| 0 <= j < w.len() implies m.dom().contains(
                        (#[trigger] w[j]).key@,
                    ) by {
                        if j != i {
                            entry_at(rows, j);
                        }
                    }
                    same_entries(w, m);
                }
            },
            None => {
                self.rows.push(new);
                proof {
                    let w = self.rows@;
                    assert(w.drop_last() =~= rows);
                    assert(distinct(w)) by {
                        assert forall|a: int, b: int| 0 <= a < b < w.len() implies (
                        #[trigger] w[a]).key@ != (#[trigger] w[b]).key@ by {
                            assert(rows[a].key@ != key@);
                            if b < rows.len() {
                                assert(rows[a].key@ != rows[b].key@);
                            }
                        }
                    }
                }
            },
        }
    }

    pub fn remove(&mut self, key: &str) -> (r: Option<(Origin, i64)>)
        requires
            old(self).wf(),
        ensures
            final(self).wf(),
            r == (if old(self)@.dom().contains(key@) {
                Some(old(self)@[key@])
            } else {
                None
            }),
            final(self)@ == old(self)@.remove(key@),
    {
        let ghost rows = self.rows@;
        let ghost m = self@.remove(key@);
        match self.find(key) {
            Some(i) => {
                let e = self.rows.remove(i);
                proof {
                    let w = self.rows@;
                    assert(forall|j: int|
                        0 <= j < w.len() ==> #[trigger] w[j] == (if j < i {
                            rows[j]
                        } else {
                            rows[j + 1]
                        }));
                    assert(distinct(w)) by {
                        assert forall|a: int, b: int| 0 <= a < b < w.len() implies (
                        #[trigger] w[a]).key@ != (#[trigger] w[b]).key@ by {
                            let x = if a < i {
                                a
                            } else {
                                a + 1
                            };
                            let y = if b < i {
                                b
                            } else {
                                b + 1
                            };
                            assert(rows[x].key@ != rows[y].key@);
                        }
                    }
                    assert forall|k: Seq<char>| #[trigger] m.dom().contains(k) implies exists|j: int|
                        0 <= j < w.len() && (#[trigger] w[j]).key@ == k && m[k] == (
                            w[j].origin,
                            w[j].until,
                        ) by {
                        let j = entry_of(rows, k);
                        entry_at(rows, j);
                        if j < i {
                            assert(w[j] == rows[j]);
                        } else {
                            assert(w[j - 1] == rows[j]);
                        }
                    }
                    assert forall|j: int| 0 <= j < w.len() implies m.dom().contains(
                        (#[trigger] w[j]).key@,
                    ) by {
                        let x = if j < i {
                            j
                        } else {
                            j + 1
                        };
                        entry_at(rows, x);
                        if x < i {
                            assert(rows[x].key@ != rows[i as int].key@);
                        } else {
                            assert(rows[i as int].key@ != rows[x].key@);
                        }
                    }
                    same_entries(w, m);
                }
                Some((e.origin, e.until))
            },
            None => {
                assert(m =~= self@);
                None
            },
        }
    }

    /// The key of the last row is in the table.
    pub proof fn has_last(&self)
        requires
            self.wf(),
            self.rows@.len() > 0,
        ensures
            self@.dom().contains(self.rows@.last().key@),
    {
        entry_at(self.rows@, self.rows@.len() - 1);
    }

    /// A table without rows is empty.
    pub proof fn empty_rows(&self)
        requires
            self.rows@.len() == 0,
        ensures
            self@ == Map::<Seq<char>, (Origin, i64)>::empty(),
    {
    }

    /// Takes the last row out.
    pub fn take_last(&mut self) -> (r: Option<(Origin, i64)>)
        requires
            old(self).wf(),
            old(self).rows@.len() > 0,
        ensures
            final(self).wf(),
            final(self).rows@.len() == old(self).rows@.len() - 1,
            final(self)@ == old(self)@.remove(old(self).rows@.last().key@),
            r == Some(old(self)@[old(self).rows@.last().key@]),
    {
        let ghost rows = self.rows@;
        proof {
            entry_at(rows, rows.len() - 1);
        }
        match self.rows.pop() {
            Some(e) => {
                proof {
                    let w = self.rows@;
                    assert(w =~= rows.drop_last());
                    assert(distinct(w)) by {
                        assert forall|a: int, b: int| 0 <= a < b < w.len() implies (
                        #[trigger] w[a]).key@ != (#[trigger] w[b]).key@ by {
                            assert(rows[a].key@ != rows[b].key@);
                        }
                    }
                    let k = rows.last().key@;
                    assert(!entries(w).dom().contains(k)) by {
                        if entries(w).dom().contains(k) {
                            let i = entry_of(w, k);
                            assert(rows[i].key@ != rows[rows.len() - 1].key@);
                        }
                    }
                    assert(entries(w) =~= entries(rows).remove(k));
                }
                Some((e.origin, e.until))
            },
            None => None,
        }
    }

    /// Drops what ended more than `slack` seconds ago.
    pub fn prune(self, now: i64, slack: i64) -> (r: Table)
        requires
            self.wf(),
        ensures
            r.wf(),
            r@ == kept(self@, now, slack as int),
    {
        let ghost rows = self.rows@;
        let ghost m = kept(self@, now, slack as int);
        let mut out: Vec<Entry> = Vec::new();
        for e in it: self.rows
            invariant
                it.seq() == rows,
                distinct(rows),
                distinct(out@),
                forall|j: int|
                    0 <= j < out@.len() ==> stays(
                        rows,
                        it.index() as int,
                        #[trigger] out@[j],
                        now,
                        slack as int,
                    ),
                forall|i: int|
                    0 <= i < it.index() && now <= (#[trigger] rows[i]).until + slack
                        ==> out@.contains(rows[i]),
        {
            let ghost n = it.index();
            let ghost o = out@;
            if now as i128 <= e.until as i128 + slack as i128 {
                out.push(e);
                proof {
                    assert forall|a: int, b: int| 0 <= a < b < out@.len() implies (
                    #[trigger] out@[a]).key@ != (#[trigger] out@[b]).key@ by {
                        if b == o.len() {
                            assert(stays(rows, n as int, o[a], now, slack as int));
                            let i = choose|i: int|
                                0 <= i < n && rows[i] == o[a] && now <= o[a].until + slack;
                            assert(out@[a] == o[a]);
                            assert(rows[i].key@ != rows[n].key@);
                        } else {
                            assert(o[a].key@ != o[b].key@);
                        }
                    }
                    assert forall|i: int| 0 <= i < n + 1 && now <= (#[trigger] rows[i]).until
                        + slack implies out@.contains(rows[i]) by {
                        if i < n {
                            let k = choose|k: int| 0 <= k < o.len() && o[k] == rows[i];
                            assert(out@[k] == rows[i]);
                        } else {
                            assert(out@[o.len() as int] == rows[i]);
                        }
                    }
                }
            }
            assert forall|j: int| 0 <= j < out@.len() implies stays(
                rows,
                n + 1,
                #[trigger] out@[j],
                now,
                slack as int,
            ) by {
                if j < o.len() {
                    assert(stays(rows, n as int, o[j], now, slack as int));
                    let i = choose|i: int|
                        0 <= i < n && rows[i] == o[j] && now <= o[j].until + slack;
                    assert(rows[i] == out@[j]);
                } else {
                    assert(rows[n as int] == out@[j]);
                }
            }
        }
        proof {
            let w = out@;
            assert forall|k: Seq<char>| #[trigger] m.dom().contains(k) implies exists|j: int|
                0 <= j < w.len() && (#[trigger] w[j]).key@ == k && m[k] == (
                    w[j].origin,
                    w[j].until,
                ) by {
                let i = entry_of(rows, k);
                entry_at(rows, i);
                assert(w.contains(rows[i]));
                let j = choose|j: int| 0 <= j < w.len() && w[j] == rows[i];
                assert(w[j].key@ == k);
            }
            assert forall|j: int| 0 <= j < w.len() implies m.dom().contains(
                (#[trigger] w[j]).key@,
            ) by {
                assert(stays(rows, rows.len() as int, w[j], now, slack as int));
                let i = choose|i: int|
                    0 <= i < rows.len() && rows[i] == w[j] && now <= w[j].until + slack;
                entry_at(rows, i);
            }
            same_entries(w, m);
        }
        Table { rows: out }
    }
}

} // verus!
