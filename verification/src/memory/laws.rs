//! What globs, scopes, ranks and ages come to, told by what is put in.
use crate::memory::check;
use crate::memory::matching;
use crate::memory::matching::CtxView;
use crate::memory::quorum;
use crate::memory::store;
use crate::memory::store::{Entry, Listing};
use crate::memory::{MemoryView, ScopeView};
use crate::order;
use crate::text;
use vstd::prelude::*;

verus! {

// ---------- globs ----------

/// Nothing but the empty path matches the empty pattern.
pub proof fn an_empty_glob_matches_nothing_else(s: Seq<char>)
    ensures
        matching::glob(seq![], s) <==> s.len() == 0,
{
}

/// A character that is no wildcard stands for itself, whatever follows.
pub proof fn a_character_stands_for_itself(c: char, p: Seq<char>, s: Seq<char>)
    requires
        c != '*',
        c != '?',
    ensures
        matching::glob(seq![c] + p, s) <==> s.len() > 0 && s[0] == c && matching::glob(
            p,
            s.skip(1),
        ),
{
    let q = seq![c] + p;
    assert(q.skip(1) =~= p);
    assert(q[0] == c);
}

/// A `?` takes one character that is no slash, whatever follows.
pub proof fn a_question_mark_takes_one(p: Seq<char>, s: Seq<char>)
    ensures
        matching::glob(seq!['?'] + p, s) <==> s.len() > 0 && s[0] != '/' && matching::glob(
            p,
            s.skip(1),
        ),
{
    let q = seq!['?'] + p;
    assert(q.skip(1) =~= p);
    assert(q[0] == '?');
}

/// A `*` takes any run of characters without a slash, whatever follows.
pub proof fn a_star_takes_a_run(p: Seq<char>, s: Seq<char>)
    requires
        p.len() > 0 ==> p[0] != '*',
    ensures
        matching::glob(seq!['*'] + p, s) <==> exists|i: int|
            0 <= i <= s.len() && !s.take(i).contains('/') && #[trigger] matching::glob(
                p,
                s.skip(i),
            ),
    decreases s.len(),
{
    let q = seq!['*'] + p;
    assert(q.skip(1) =~= p);
    assert(q[0] == '*');
    assert(!matching::double_star(q)) by {
        if q.len() >= 2 {
            assert(q[1] == p[0]);
        }
    }
    assert(s.skip(0) =~= s);
    if matching::glob(p, s) {
        assert(matching::glob(p, s.skip(0)));
        assert(s.take(0) =~= Seq::empty());
    }
    if s.len() > 0 {
        let t = s.skip(1);
        a_star_takes_a_run(p, t);
        if s[0] != '/' && matching::glob(q, t) {
            let i = choose|i: int|
                0 <= i <= t.len() && !t.take(i).contains('/') && #[trigger] matching::glob(
                    p,
                    t.skip(i),
                );
            assert(t.skip(i) =~= s.skip(i + 1));
            assert(!s.take(i + 1).contains('/')) by {
                let head = s.take(i + 1);
                if head.contains('/') {
                    let k = choose|k: int| 0 <= k < head.len() && head[k] == '/';
                    assert(k > 0);
                    assert(t.take(i)[k - 1] == '/');
                }
            }
            assert(matching::glob(p, s.skip(i + 1)));
        }
        if exists|i: int|
            0 <= i <= s.len() && !s.take(i).contains('/') && #[trigger] matching::glob(
                p,
                s.skip(i),
            ) {
            let i = choose|i: int|
                0 <= i <= s.len() && !s.take(i).contains('/') && #[trigger] matching::glob(
                    p,
                    s.skip(i),
                );
            if i > 0 {
                assert(s.take(i)[0] == s[0]);
                assert(s[0] != '/');
                assert(t.skip(i - 1) =~= s.skip(i));
                assert(!t.take(i - 1).contains('/')) by {
                    let head = t.take(i - 1);
                    if head.contains('/') {
                        let k = choose|k: int| 0 <= k < head.len() && head[k] == '/';
                        assert(s.take(i)[k + 1] == '/');
                    }
                }
                assert(matching::glob(p, t.skip(i - 1)));
            }
        }
    } else {
        assert forall|i: int| 0 <= i <= s.len() implies s.skip(i) == s by {
            assert(s.skip(i) =~= s);
        }
    }
}

proof fn any_tail(q: Seq<char>, p: Seq<char>, s: Seq<char>)
    requires
        matching::double_star(q),
        matching::after_double(q) == p,
    ensures
        matching::glob(q, s) <==> exists|i: int|
            0 <= i <= s.len() && #[trigger] matching::glob(p, s.skip(i)),
    decreases s.len(),
{
    assert(s.skip(0) =~= s);
    if matching::glob(p, s) {
        assert(matching::glob(p, s.skip(0)));
    }
    if s.len() > 0 {
        let t = s.skip(1);
        any_tail(q, p, t);
        if matching::glob(q, t) {
            let i = choose|i: int| 0 <= i <= t.len() && #[trigger] matching::glob(p, t.skip(i));
            assert(t.skip(i) =~= s.skip(i + 1));
            assert(matching::glob(p, s.skip(i + 1)));
        }
        if exists|i: int| 0 <= i <= s.len() && #[trigger] matching::glob(p, s.skip(i)) {
            let i = choose|i: int| 0 <= i <= s.len() && #[trigger] matching::glob(p, s.skip(i));
            if i > 0 {
                assert(t.skip(i - 1) =~= s.skip(i));
                assert(matching::glob(p, t.skip(i - 1)));
            }
        }
    } else {
        assert forall|i: int| 0 <= i <= s.len() implies s.skip(i) == s by {
            assert(s.skip(i) =~= s);
        }
    }
}

/// A `**` takes any run of characters, slashes too, wherever it stands; a
/// slash right behind it belongs to it.
pub proof fn a_double_star_takes_any_run(p: Seq<char>, s: Seq<char>)
    ensures
        matching::glob(seq!['*', '*', '/'] + p, s) <==> exists|i: int|
            0 <= i <= s.len() && #[trigger] matching::glob(p, s.skip(i)),
        (p.len() > 0 ==> p[0] != '/') ==> (matching::glob(seq!['*', '*'] + p, s) <==> exists|i: int|
            0 <= i <= s.len() && #[trigger] matching::glob(p, s.skip(i))),
{
    let q = seq!['*', '*', '/'] + p;
    assert(q[0] == '*' && q[1] == '*' && q[2] == '/');
    assert(q.skip(3) =~= p);
    any_tail(q, p, s);
    if p.len() > 0 ==> p[0] != '/' {
        let q = seq!['*', '*'] + p;
        assert(q[0] == '*' && q[1] == '*');
        if q.len() > 2 {
            assert(q[2] == p[0]);
        }
        assert(q.skip(2) =~= p);
        any_tail(q, p, s);
    }
}

// ---------- scopes ----------

/// A scope applies exactly where it is the whole project's, or shares a
/// component, a tag or a provider with the target, or a glob of it matches
/// a path that the work touches.
pub proof fn a_scope_applies_by_any_axis(s: ScopeView, c: CtxView)
    ensures
        matching::applies(s, c) <==> {
            ||| s.project
            ||| exists|x: Seq<char>| #[trigger]
                s.components.contains(x) && c.components.contains(x)
            ||| exists|x: Seq<char>| #[trigger] s.tags.contains(x) && c.tags.contains(x)
            ||| exists|x: Seq<char>| #[trigger] s.providers.contains(x) && c.providers.contains(x)
            ||| exists|g: Seq<char>, x: Seq<char>| #[trigger]
                s.paths.contains(g) && #[trigger] c.paths.contains(x) && matching::glob(g, x)
        },
        matching::listed(s, c) <==> {
            ||| s.project
            ||| exists|x: Seq<char>| #[trigger]
                s.components.contains(x) && c.components.contains(x)
            ||| exists|g: Seq<char>, x: Seq<char>| #[trigger]
                s.paths.contains(g) && #[trigger] c.paths.contains(x) && matching::glob(g, x)
        },
{
    shared_member(s.components, c.components);
    shared_member(s.tags, c.tags);
    shared_member(s.providers, c.providers);
    matched_member(s.paths, c.paths);
}

proof fn shared_member(a: Seq<Seq<char>>, b: Seq<Seq<char>>)
    ensures
        matching::share(a, b) <==> exists|x: Seq<char>| #[trigger] a.contains(x) && b.contains(x),
{
    if matching::share(a, b) {
        let i = choose|i: int| 0 <= i < a.len() && b.contains(#[trigger] a[i]);
        assert(a.contains(a[i]));
    }
    if exists|x: Seq<char>| #[trigger] a.contains(x) && b.contains(x) {
        let x = choose|x: Seq<char>| #[trigger] a.contains(x) && b.contains(x);
        let i = choose|i: int| 0 <= i < a.len() && a[i] == x;
        assert(b.contains(a[i]));
    }
}

proof fn matched_member(a: Seq<Seq<char>>, b: Seq<Seq<char>>)
    ensures
        matching::any_glob(a, b) <==> exists|g: Seq<char>, x: Seq<char>| #[trigger]
            a.contains(g) && #[trigger] b.contains(x) && matching::glob(g, x),
{
    if matching::any_glob(a, b) {
        let (i, j) = choose|i: int, j: int|
            0 <= i < a.len() && 0 <= j < b.len() && matching::glob(
                #[trigger] a[i],
                #[trigger] b[j],
            );
        assert(a.contains(a[i]) && b.contains(b[j]));
    }
    if exists|g: Seq<char>, x: Seq<char>| #[trigger]
        a.contains(g) && #[trigger] b.contains(x) && matching::glob(g, x) {
        let (g, x) = choose|g: Seq<char>, x: Seq<char>| #[trigger]
            a.contains(g) && #[trigger] b.contains(x) && matching::glob(g, x);
        let i = choose|i: int| 0 <= i < a.len() && a[i] == g;
        let j = choose|j: int| 0 <= j < b.len() && b[j] == x;
        assert(matching::glob(a[i], b[j]));
    }
}

// ---------- what a dispatch is told ----------

proof fn rank_is_total()
    ensures
        order::total(matching::by_rank()),
{
    let le = matching::by_rank();
    assert forall|a: MemoryView, b: MemoryView| #[trigger] le(a, b) || le(b, a) by {
        text::lt_total(matching::verified_at(a), matching::verified_at(b));
        text::lt_total(a.front.id, b.front.id);
    }
    assert forall|a: MemoryView, b: MemoryView, c: MemoryView| #[trigger]
        le(a, b) && #[trigger] le(b, c) implies le(a, c) by {
        let (x, y, z) = (
            matching::verified_at(a),
            matching::verified_at(b),
            matching::verified_at(c),
        );
        text::lt_total(x, y);
        text::lt_total(y, z);
        text::lt_total(x, z);
        if text::lt(z, y) && text::lt(y, x) {
            text::lt_transitive(z, y, x);
        }
        let (i, j, k) = (a.front.id, b.front.id, c.front.id);
        text::lt_total(i, j);
        text::lt_total(j, k);
        text::lt_total(i, k);
        if text::lt(i, j) && text::lt(j, k) {
            text::lt_transitive(i, j, k);
        }
    }
}

/// A dispatch is told of exactly the memories that may be retrieved and
/// apply to it, each as often as it stands in the pool. Rules come first,
/// then gotchas, then recipes; among those of one kind the surer ones, and
/// among equally sure ones the later verified.
pub proof fn a_dispatch_is_told_what_applies(pool: Seq<MemoryView>, c: CtxView)
    ensures
        ({
            let r = order::sorted(pool.filter(matching::hits(c)), matching::by_rank());
            &&& forall|m: MemoryView| #[trigger]
                r.contains(m) <==> pool.contains(m) && quorum::retrieval(m).0 && matching::applies(
                    m.front.scope,
                    c,
                )
            &&& forall|i: int, j: int|
                0 <= i < j < r.len() ==> {
                    let (a, b) = ((#[trigger] r[i]).front, (#[trigger] r[j]).front);
                    &&& b.kind == "rule"@ ==> a.kind == "rule"@
                    &&& b.kind == "gotcha"@ ==> a.kind == "rule"@ || a.kind == "gotcha"@
                    &&& b.kind == "recipe"@ ==> a.kind == "rule"@ || a.kind == "gotcha"@ || a.kind
                        == "recipe"@
                    &&& a.kind == b.kind && b.confidence == "high"@ ==> a.confidence == "high"@
                    &&& a.kind == b.kind && b.confidence == "medium"@ ==> a.confidence == "high"@
                        || a.confidence == "medium"@
                    &&& a.kind == b.kind && a.confidence == b.confidence && a.verified_at is Some
                        && b.verified_at is Some ==> !text::lt(a.verified_at->0, b.verified_at->0)
                    &&& a.kind == b.kind && a.confidence == b.confidence && a.verified_at
                        == b.verified_at ==> !text::lt(b.id, a.id)
                }
        }),
{
    let f = matching::hits(c);
    let le = matching::by_rank();
    let kept = pool.filter(f);
    let r = order::sorted(kept, le);
    rank_is_total();
    order::sorted_is_a_sort(kept, le);
    assert forall|m: MemoryView| #[trigger] r.contains(m) <==> pool.contains(m)
        && quorum::retrieval(m).0 && matching::applies(m.front.scope, c) by {
        vstd::seq_lib::to_multiset_contains(r, m);
        vstd::seq_lib::to_multiset_contains(kept, m);
        if kept.contains(m) {
            let i = choose|i: int| 0 <= i < kept.len() && kept[i] == m;
            matching::picked_from(pool, f, i);
        }
        if pool.contains(m) && f(m) {
            let i = choose|i: int| 0 <= i < pool.len() && pool[i] == m;
            matching::picked_has(pool, f, i);
        }
    }
    reveal_strlit("rule");
    reveal_strlit("gotcha");
    reveal_strlit("recipe");
    reveal_strlit("high");
    reveal_strlit("medium");
    assert("rule"@.len() == 4 && "gotcha"@.len() == 6 && "gotcha"@[0] == 'g');
    assert("recipe"@.len() == 6 && "recipe"@[0] == 'r' && "high"@.len() == 4);
    assert("medium"@.len() == 6);
    assert forall|i: int, j: int| 0 <= i < j < r.len() implies matching::not_after(
        #[trigger] r[i],
        #[trigger] r[j],
    ) && (matching::verified_at(r[i]) == matching::verified_at(r[j]) || !text::lt(
        matching::verified_at(r[i]),
        matching::verified_at(r[j]),
    ) || matching::type_rank(r[i].front.kind) != matching::type_rank(r[j].front.kind)
        || matching::confidence_rank(r[i].front.confidence) != matching::confidence_rank(
        r[j].front.confidence,
    )) by {
        assert(le(r[i], r[j]));
        text::lt_total(matching::verified_at(r[i]), matching::verified_at(r[j]));
        text::lt_total(r[i].front.id, r[j].front.id);
    }
    assert forall|i: int, j: int| 0 <= i < j < r.len() implies {
        let (a, b) = ((#[trigger] r[i]).front, (#[trigger] r[j]).front);
        &&& a.kind == b.kind && a.confidence == b.confidence && a.verified_at is Some
            && b.verified_at is Some ==> !text::lt(a.verified_at->0, b.verified_at->0)
        &&& a.kind == b.kind && a.confidence == b.confidence && a.verified_at == b.verified_at
            ==> !text::lt(b.id, a.id)
    } by {
        assert(matching::not_after(r[i], r[j]));
        text::lt_total(matching::verified_at(r[i]), matching::verified_at(r[j]));
        text::lt_total(r[i].front.id, r[j].front.id);
    }
}

// ---------- age ----------

/// An accepted memory that was verified before the window is stale as it
/// is. One that was verified in it is stale where its paths changed after
/// that, and is asked about from that second on. One that names no paths,
/// or is not accepted, is not stale in any other way.
pub proof fn a_memory_ages(m: MemoryView, since: int)
    requires
        -0x8000_0000_0000_0000 <= store::last_verified(m) <= 0x7fff_ffff_ffff_ffff,
    ensures
        m.front.status == "accepted"@ && store::last_verified(m) < since ==> store::age(m, since)
            is Unverified,
        m.front.status == "accepted"@ && store::last_verified(m) >= since
            && m.front.scope.paths.len() > 0 ==> store::age(m, since) is ChangedAfter && store::age(
            m,
            since,
        )->ChangedAfter_0 == (if store::last_verified(m) >= 0 {
            store::last_verified(m)
        } else {
            0
        }),
        m.front.status != "accepted"@ ==> store::age(m, since) is Fresh,
        store::last_verified(m) >= since && m.front.scope.paths.len() == 0 ==> store::age(m, since)
            is Fresh,
        m.front.verified_at is None ==> store::last_verified(m) == 0,
{
}

/// The logs name a changed file exactly where one of them does, and the
/// first that does is the one that is reported.
pub proof fn a_log_that_names_a_file_counts(logs: Seq<(String, String)>)
    ensures
        match store::first_changed(logs) {
            Some(k) => 0 <= k < logs.len() && store::named_lines(logs[k].1@).len() > 0 && forall|i: int|
                0 <= i < k ==> store::named_lines((#[trigger] logs[i]).1@).len() == 0,
            None => forall|i: int|
                0 <= i < logs.len() ==> store::named_lines((#[trigger] logs[i]).1@).len() == 0,
        },
    decreases logs.len(),
{
    if logs.len() > 0 {
        let rest = logs.drop_last();
        a_log_that_names_a_file_counts(rest);
        assert forall|i: int| 0 <= i < rest.len() implies rest[i] == logs[i] by {}
    }
}

// ---------- loading ----------

proof fn sound_has(key: Seq<char>, v: Seq<Entry>, i: int)
    requires
        0 <= i < v.len(),
        store::sound_memory(key, v[i]) is Some,
    ensures
        store::sound_memories(key, v).contains(store::sound_memory(key, v[i])->0),
    decreases v.len(),
{
    let rest = v.drop_last();
    let before = store::sound_memories(key, rest);
    let m = store::sound_memory(key, v[i])->0;
    if i < v.len() - 1 {
        assert(rest[i] == v[i]);
        sound_has(key, rest, i);
        let k = choose|k: int| 0 <= k < before.len() && before[k] == m;
        if store::sound_memory(key, v.last()) is Some {
            assert(before.push(store::sound_memory(key, v.last())->0)[k] == m);
        }
    } else {
        assert(before.push(m)[before.len() as int] == m);
    }
}

proof fn fault_has(key: Seq<char>, v: Seq<Entry>, i: int)
    requires
        0 <= i < v.len(),
        store::load_fault(key, v[i]) is Some,
    ensures
        store::load_faults(key, v).contains(store::load_fault(key, v[i])->0),
    decreases v.len(),
{
    let rest = v.drop_last();
    let before = store::load_faults(key, rest);
    let m = store::load_fault(key, v[i])->0;
    if i < v.len() - 1 {
        assert(rest[i] == v[i]);
        fault_has(key, rest, i);
        let k = choose|k: int| 0 <= k < before.len() && before[k] == m;
        if store::load_fault(key, v.last()) is Some {
            assert(before.push(store::load_fault(key, v.last())->0)[k] == m);
        }
    } else {
        assert(before.push(m)[before.len() as int] == m);
    }
}

/// Every memory file of a project that can be read is among its memories,
/// unless a glob of it is quarantined; what cannot be read, or is
/// quarantined, is among the faults. A file counts where its name ends in
/// `.md` and does not begin with a dot.
pub proof fn what_lies_in_a_project_is_loaded_or_reported(key: Seq<char>, l: Listing, i: int)
    requires
        l is Entries,
        0 <= i < l->Entries_0@.len(),
    ensures
        ({
            let (found, faults) = store::report(key, l);
            match l->Entries_0@[i] {
                Entry::Unreadable(why) => faults.contains(
                    key + "/memory: directory entry unreadable: "@ + why@,
                ),
                Entry::File { name, link, loaded } => text::ends(name@, ".md"@) && !text::begins(
                    name@,
                    "."@,
                ) ==> match loaded {
                    Err(why) => faults.contains(key + "/"@ + name@ + ": "@ + why@),
                    Ok(None) => true,
                    Ok(Some(m)) => if check::heavy(m@.front.scope.paths) is None {
                        exists|k: int|
                            0 <= k < found.len() && (#[trigger] found[k]).front == m@.front
                                && found[k].body == m@.body && found[k].project == key
                    } else {
                        faults.len() > 0
                    },
                },
            }
        }),
{
    let v = l->Entries_0@;
    let (found, faults) = store::report(key, l);
    if store::sound_memory(key, v[i]) is Some {
        let m = store::sound_memory(key, v[i])->0;
        sound_has(key, v, i);
        order::sorted_is_a_sort(store::sound_memories(key, v), matching::by_slug());
        vstd::seq_lib::to_multiset_contains(store::sound_memories(key, v), m);
        vstd::seq_lib::to_multiset_contains(found, m);
        let k = choose|k: int| 0 <= k < found.len() && found[k] == m;
        assert(found[k].front == m.front);
    }
    if store::load_fault(key, v[i]) is Some {
        fault_has(key, v, i);
        assert(faults.contains(store::load_fault(key, v[i])->0));
    }
}

} // verus!
