//! What a memory says, which lessons are told and what the lint reports, told
//! by the lines and files they come from.
use crate::memory;
use crate::memory::body;
use crate::memory::body::Walk;
use crate::memory::check;
use crate::memory::cli;
use crate::memory::matching;
use crate::memory::store;
use crate::memory::store::{Entry, Listing};
use crate::memory::MemoryView;
use crate::text;
use crate::text_laws;
use vstd::prelude::*;

verus! {

// ---------- the body ----------

/// The line opens the part with that heading.
pub open spec fn opens(line: Seq<char>, heading: Seq<char>) -> bool {
    text::begins(text::trim(line), heading)
}

/// The line opens no part.
pub open spec fn plain(line: Seq<char>) -> bool {
    !opens(line, "**Why:**"@) && !opens(line, "**How to apply:**"@)
}

pub open spec fn all_plain(v: Seq<Seq<char>>) -> bool {
    forall|i: int| 0 <= i < v.len() ==> plain(#[trigger] v[i])
}

proof fn plain_lines_stay(a: Seq<Seq<char>>, v: Seq<Seq<char>>)
    requires
        all_plain(v),
        body::walk(a).section == 1 || body::walk(a).section == 2,
    ensures
        ({
            let (w, x) = (body::walk(a), body::walk(a + v));
            &&& x.section == w.section && x.fact == w.fact
            &&& w.section == 1 ==> x.why == w.why + v && x.how == w.how
            &&& w.section == 2 ==> x.how == w.how + v && x.why == w.why
        }),
    decreases v.len(),
{
    let w = body::walk(a);
    if v.len() == 0 {
        assert(a + v =~= a);
        assert(w.why + v =~= w.why);
        assert(w.how + v =~= w.how);
    } else {
        let u = v.drop_last();
        assert((a + v).drop_last() =~= a + u);
        assert(plain(v[v.len() - 1]));
        plain_lines_stay(a, u);
        let x = body::walk(a + u);
        assert((w.why + u).push(v.last()) =~= w.why + v);
        assert((w.how + u).push(v.last()) =~= w.how + v);
    }
}

proof fn plain_lines_are_the_fact(f: Seq<Seq<char>>)
    requires
        all_plain(f),
        f.len() > 0 ==> !body::blank(f[0]),
    ensures
        body::walk(f) == (Walk { fact: f, why: seq![], how: seq![], section: 0 }),
    decreases f.len(),
{
    if f.len() > 0 {
        let g = f.drop_last();
        assert(plain(f[f.len() - 1]));
        plain_lines_are_the_fact(g);
        if g.len() == 0 {
            assert(f.last() == f[0]);
        }
        assert(g.push(f.last()) =~= f);
    } else {
        assert(f =~= seq![]);
    }
}

/// What stands behind a heading on its line, where anything does.
pub open spec fn said_at_once(line: Seq<char>, heading: Seq<char>) -> Seq<Seq<char>> {
    let rest = text::trim(text::trim(line).skip(heading.len() as int));
    if rest.len() > 0 {
        seq![rest]
    } else {
        seq![]
    }
}

/// A body is its fact, then why it holds, then how it is applied: the fact is
/// what stands in front of the first heading, and each part what stands
/// behind its own.
pub proof fn a_body_has_three_parts(
    f: Seq<Seq<char>>,
    w: Seq<char>,
    why: Seq<Seq<char>>,
    h: Seq<char>,
    how: Seq<Seq<char>>,
)
    requires
        all_plain(f),
        f.len() > 0 ==> !body::blank(f[0]),
        opens(w, "**Why:**"@),
        all_plain(why),
        opens(h, "**How to apply:**"@),
        all_plain(how),
    ensures
        ({
            let x = body::walk(f + seq![w] + why + seq![h] + how);
            &&& x.fact == f
            &&& x.why == said_at_once(w, "**Why:**"@) + why
            &&& x.how == said_at_once(h, "**How to apply:**"@) + how
        }),
{
    plain_lines_are_the_fact(f);
    let a = f + seq![w];
    assert(a.drop_last() =~= f);
    assert(a.last() == w);
    let sw = said_at_once(w, "**Why:**"@);
    assert(Seq::<Seq<char>>::empty() + sw =~= sw);
    assert(body::walk(a).section == 1 && body::walk(a).why == sw && body::walk(a).how.len() == 0);
    plain_lines_stay(a, why);
    let b = a + why;
    let c = b + seq![h];
    assert(c.drop_last() =~= b);
    assert(c.last() == h);
    reveal_strlit("**Why:**");
    reveal_strlit("**How to apply:**");
    let t = text::trim(h);
    if text::begins(t, "**Why:**"@) {
        assert(t.subrange(0, 17)[2] == "**How to apply:**"@[2]);
        assert(t.subrange(0, 8)[2] == "**Why:**"@[2]);
        assert(false);
    }
    let sh = said_at_once(h, "**How to apply:**"@);
    assert(Seq::<Seq<char>>::empty() + sh =~= sh);
    assert(body::walk(c).section == 2 && body::walk(c).how =~= sh);
    plain_lines_stay(c, how);
}

/// Only blank lines.
pub open spec fn all_blank(v: Seq<Seq<char>>) -> bool {
    forall|i: int| 0 <= i < v.len() ==> text::trim(#[trigger] v[i]).len() == 0
}

/// A part loses the blank lines around it, and nothing else.
pub proof fn only_blank_lines_are_stripped(
    a: Seq<Seq<char>>,
    m: Seq<Seq<char>>,
    b: Seq<Seq<char>>,
)
    requires
        all_blank(a),
        all_blank(b),
        m.len() > 0,
        text::trim(m[0]).len() > 0,
        text::trim(m[m.len() - 1]).len() > 0,
    ensures
        body::stripped(a + m + b) == m,
{
    front_goes(a, m + b);
    assert(a + (m + b) =~= a + m + b);
    assert((m + b)[0] == m[0]);
    back_goes(m, b);
}

proof fn front_goes(a: Seq<Seq<char>>, m: Seq<Seq<char>>)
    requires
        all_blank(a),
        m.len() > 0,
        text::trim(m[0]).len() > 0,
    ensures
        body::strip_front(a + m) == m,
    decreases a.len(),
{
    if a.len() == 0 {
        assert(a + m =~= m);
    } else {
        let t = a.drop_first();
        assert((a + m)[0] == a[0]);
        assert((a + m).drop_first() =~= t + m);
        assert forall|i: int| 0 <= i < t.len() implies text::trim(#[trigger] t[i]).len() == 0 by {
            assert(t[i] == a[i + 1]);
        }
        front_goes(t, m);
    }
}

proof fn back_goes(m: Seq<Seq<char>>, b: Seq<Seq<char>>)
    requires
        all_blank(b),
        m.len() > 0,
        text::trim(m[m.len() - 1]).len() > 0,
    ensures
        body::strip_back(m + b) == m,
    decreases b.len(),
{
    if b.len() == 0 {
        assert(m + b =~= m);
    } else {
        let t = b.drop_last();
        assert((m + b).last() == b[b.len() - 1]);
        assert((m + b).drop_last() =~= m + t);
        back_goes(m, t);
    }
}

/// A body is without fault exactly where its fact has one to five lines that
/// are not blank, in at most 512 bytes, and says why it holds and how it is
/// applied. Each thing missing is one fault.
pub proof fn what_a_body_is_faulted_for(slug: Seq<char>, b: Seq<char>)
    ensures
        ({
            let lines = 1 <= body::fact_lines(b) <= 5;
            let size = body::total_bytes(body::fact(b)) <= 512;
            let why = text::trim(body::why(b)).len() > 0;
            let how = text::trim(body::how(b)).len() > 0;
            let one = |ok: bool|
                if ok {
                    0int
                } else {
                    1
                };
            &&& body::faults(slug, b).len() == one(lines) + one(size) + one(why) + one(how)
            &&& body::faults(slug, b).len() == 0 <==> lines && size && why && how
        }),
{
}

/// The bytes of lines are the bytes of each.
pub proof fn each_line_counts(v: Seq<Seq<char>>, l: Seq<char>)
    ensures
        body::total_bytes(seq![]) == 0,
        body::total_bytes(v.push(l)) == body::total_bytes(v) + vstd::utf8::encode_utf8(l).len(),
{
    assert(v.push(l).drop_last() =~= v);
}

// ---------- globs ----------

/// A glob is too heavy over 200 bytes or with more than two pairs of stars;
/// pairs are counted from the left, and nothing else counts.
pub proof fn pairs_of_stars_count(p: Seq<char>, c: char)
    requires
        c != '*',
    ensures
        check::star_pairs(seq!['*', '*'] + p) == 1 + check::star_pairs(p),
        check::star_pairs(seq![c] + p) == check::star_pairs(p),
        check::star_pairs(seq![]) == 0,
        check::star_pairs(seq!['*']) == 0,
        check::star_pairs(seq!['*', c] + p) == check::star_pairs(p),
        check::over_budget(p) <==> vstd::utf8::encode_utf8(p).len() > 200 || check::star_pairs(p)
            > 2,
{
    let a = seq!['*', '*'] + p;
    assert(a.skip(2) =~= p);
    one_sign(c, p);
    let d = seq!['*', c] + p;
    assert(d.skip(1) =~= seq![c] + p);
    assert(d[1] == c);
}

proof fn one_sign(c: char, p: Seq<char>)
    requires
        c != '*',
    ensures
        check::star_pairs(seq![c] + p) == check::star_pairs(p),
{
    let b = seq![c] + p;
    assert(b.skip(1) =~= p);
    assert(b[0] == c);
}

// ---------- lessons ----------

/// All lessons, one behind the other.
pub open spec fn told(v: Seq<MemoryView>) -> Seq<char>
    decreases v.len(),
{
    if v.len() == 0 {
        "# Lessons — matched project memories\n\n"@
    } else {
        told(v.drop_last()) + matching::lesson(v.last())
    }
}

pub open spec fn ids(v: Seq<MemoryView>) -> Seq<Seq<char>> {
    v.map_values(|m: MemoryView| m.front.id)
}

proof fn told_grows(v: Seq<MemoryView>)
    requires
        v.len() > 0,
    ensures
        matching::bytes(told(v)) == matching::bytes(told(v.drop_last())) + matching::bytes(
            matching::lesson(v.last()),
        ),
{
    text::bytes_add(told(v.drop_last()), matching::lesson(v.last()));
}

proof fn all_are_told(v: Seq<MemoryView>, limit: int)
    requires
        matching::bytes(told(v)) <= limit,
    ensures
        matching::lessons(v, limit).text == told(v),
        matching::lessons(v, limit).slugs == ids(v),
    decreases v.len(),
{
    if v.len() > 0 {
        told_grows(v);
        all_are_told(v.drop_last(), limit);
        assert(ids(v.drop_last()).push(v.last().front.id) =~= ids(v));
    } else {
        assert(ids(v) =~= seq![]);
    }
}

/// Lessons that fit, at most twelve in 4096 bytes, are all told, in order.
pub proof fn lessons_that_fit_are_told(v: Seq<MemoryView>)
    requires
        1 <= v.len() <= 12,
        matching::bytes(told(v)) <= 4096,
    ensures
        matching::lessons_file(v) == (told(v), ids(v)),
{
    all_are_told(v, 4096);
}

/// A lesson names the memory and its kind, states its fact and says how it is
/// applied.
pub proof fn a_lesson_states_the_fact(m: MemoryView)
    ensures
        ({
            let l = matching::lesson(m);
            let fact = text::trim(text::join(body::fact(m.body), " "@));
            &&& text::begins(l, "- `"@ + m.front.id + "` ("@ + m.front.kind + "): "@ + fact)
            &&& text::ends(l, "\n  apply: "@ + body::apply(m.body) + "\n"@)
        }),
{
    let l = matching::lesson(m);
    let fact = text::trim(text::join(body::fact(m.body), " "@));
    let a = "- `"@ + m.front.id + "` ("@ + m.front.kind + "): "@ + fact;
    let b = "\n  apply: "@ + body::apply(m.body) + "\n"@;
    assert(l =~= a + b);
    text_laws::what_a_text_holds(a, a, b);
    text_laws::what_a_text_holds(a, b, b);
}

proof fn told_ones_are_there(v: Seq<MemoryView>, limit: int, k: int)
    requires
        0 <= k < matching::lessons(v, limit).slugs.len(),
    ensures
        exists|i: int|
            0 <= i < v.len() && (#[trigger] v[i]).front.id == matching::lessons(v, limit).slugs[k]
                && text::holds(matching::lessons(v, limit).text, matching::lesson(v[i])),
    decreases v.len(),
{
    let w = v.drop_last();
    let l = matching::lessons(w, limit);
    let x = matching::lesson(v.last());
    if matching::bytes(l.text) + matching::bytes(x) > limit {
        told_ones_are_there(w, limit, k);
        let i = choose|i: int|
            0 <= i < w.len() && (#[trigger] w[i]).front.id == l.slugs[k] && text::holds(
                l.text,
                matching::lesson(w[i]),
            );
        assert(v[i] == w[i]);
    } else if k < l.slugs.len() {
        told_ones_are_there(w, limit, k);
        let i = choose|i: int|
            0 <= i < w.len() && (#[trigger] w[i]).front.id == l.slugs[k] && text::holds(
                l.text,
                matching::lesson(w[i]),
            );
        assert(v[i] == w[i]);
        held_in_more(l.text, x, matching::lesson(w[i]));
    } else {
        assert(v[v.len() - 1] == v.last());
        text_laws::what_a_text_holds(l.text, x, seq![]);
        assert(l.text + x + seq![] =~= l.text + x);
    }
}

proof fn held_in_more(a: Seq<char>, b: Seq<char>, p: Seq<char>)
    requires
        text::holds(a, p),
    ensures
        text::holds(a + b, p),
{
    let i = choose|i: int| text::at(a, p, i);
    assert((a + b).subrange(i, i + p.len()) =~= a.subrange(i, i + p.len()));
    assert(text::at(a + b, p, i));
}

/// Every memory that a lessons file lists is one of the first twelve, and its
/// lesson stands in the file.
pub proof fn a_listed_lesson_stands_in_the_file(v: Seq<MemoryView>, k: int)
    requires
        0 <= k < matching::lessons_file(v).1.len(),
    ensures
        exists|i: int|
            0 <= i < v.len() && i < 12 && (#[trigger] v[i]).front.id == matching::lessons_file(v).1[k]
                && text::holds(matching::lessons_file(v).0, matching::lesson(v[i])),
{
    let first = matching::at_most(v, 12);
    let full = matching::noted(matching::lessons(first, 4096), v.len());
    let limit = if matching::bytes(full.0) <= 4096 {
        4096
    } else {
        4096 - matching::bytes(matching::note(v.len()))
    };
    let l = matching::lessons(first, limit);
    assert(matching::lessons_file(v) == matching::noted(l, v.len()));
    told_ones_are_there(first, limit, k);
    let i = choose|i: int|
        0 <= i < first.len() && (#[trigger] first[i]).front.id == l.slugs[k] && text::holds(
            l.text,
            matching::lesson(first[i]),
        );
    assert(first[i] == v[i]);
    if l.slugs.len() < v.len() {
        held_in_more(
            l.text,
            matching::note((v.len() - l.slugs.len()) as nat),
            matching::lesson(v[i]),
        );
    }
}

/// A file that leaves some out ends by saying how many.
pub proof fn what_is_left_out_is_counted(v: Seq<MemoryView>)
    requires
        0 < matching::lessons_file(v).1.len() < v.len(),
    ensures
        text::ends(
            matching::lessons_file(v).0,
            "\n("@ + text::dec((v.len() - matching::lessons_file(v).1.len()) as nat)
                + " more matched — `cadence memory ls` lists them)\n"@,
        ),
{
    let first = matching::at_most(v, 12);
    let full = matching::noted(matching::lessons(first, 4096), v.len());
    let limit = if matching::bytes(full.0) <= 4096 {
        4096
    } else {
        4096 - matching::bytes(matching::note(v.len()))
    };
    let l = matching::lessons(first, limit);
    assert(matching::lessons_file(v) == matching::noted(l, v.len()));
    let n = matching::note((v.len() - l.slugs.len()) as nat);
    text_laws::what_a_text_holds(l.text, n, seq![]);
}

// ---------- files ----------

/// A memory is a file that ends in `.md` and is not hidden; its slug is its
/// name without that.
pub proof fn what_file_is_a_memory(stem: Seq<char>)
    requires
        !text::ends(stem, ".md"@),
        stem.len() > 0,
    ensures
        store::memory_name(stem + ".md"@) <==> stem[0] != '.',
        store::bare(stem + ".md"@) == stem,
{
    reveal_strlit(".md");
    reveal_strlit(".");
    let name = stem + ".md"@;
    text_laws::what_a_text_holds(stem, ".md"@, seq![]);
    assert(name.take(name.len() - 3) =~= stem);
    reveal_with_fuel(store::bare, 3);
    assert(name[0] == stem[0]);
    if text::begins(name, "."@) {
        assert(name.subrange(0, 1)[0] == '.');
    }
    if stem[0] == '.' {
        assert(name.subrange(0, 1) =~= "."@);
    }
}

proof fn in_sum<T>(a: Seq<T>, b: Seq<T>, x: T)
    ensures
        (a + b).contains(x) <==> a.contains(x) || b.contains(x),
{
    let s = a + b;
    if a.contains(x) {
        let k = choose|k: int| 0 <= k < a.len() && a[k] == x;
        assert(s[k] == x);
    }
    if b.contains(x) {
        let k = choose|k: int| 0 <= k < b.len() && b[k] == x;
        assert(s[a.len() + k] == x);
    }
    if s.contains(x) {
        let k = choose|k: int| 0 <= k < s.len() && s[k] == x;
        if k < a.len() {
            assert(a[k] == x);
        } else {
            assert(b[k - a.len()] == x);
        }
    }
}

// ---------- the lint ----------

/// The entry of a memory directory is in order: no fault of reading, and a
/// memory no link, under a slug that its front matter repeats.
pub open spec fn tidy(e: Entry) -> bool {
    match e {
        Entry::Unreadable(why) => false,
        Entry::File { name, link, loaded } => store::memory_name(name@) ==> {
            &&& !link
            &&& memory::slug(store::bare(name@))
            &&& loaded matches Ok(Some(m)) ==> m@.front.id == store::bare(name@)
        },
    }
}

/// The memory that the lint reads out of an entry.
pub open spec fn reads(e: Entry, m: MemoryView) -> bool {
    match e {
        Entry::File { name, link, loaded: Ok(Some(x)) } => store::memory_name(name@) && !link
            && memory::slug(store::bare(name@)) && x@ == m,
        _ => false,
    }
}

proof fn entries_are_tidy(key: Seq<char>, v: Seq<Entry>)
    ensures
        store::all_entry_errors(key, v).len() == 0 <==> forall|i: int|
            0 <= i < v.len() ==> tidy(#[trigger] v[i]),
    decreases v.len(),
{
    if v.len() > 0 {
        let w = v.drop_last();
        entries_are_tidy(key, w);
        assert(forall|i: int| 0 <= i < w.len() ==> #[trigger] v[i] == w[i]);
        assert(v[v.len() - 1] == v.last());
        assert((store::entry_errors(key, v.last()).len() == 0) == tidy(v.last()));
        if forall|i: int| 0 <= i < v.len() ==> tidy(#[trigger] v[i]) {
            assert forall|i: int| 0 <= i < w.len() implies tidy(#[trigger] w[i]) by {
                assert(v[i] == w[i]);
            }
        }
    }
}

proof fn memories_are_sound(
    v: Seq<(Seq<char>, MemoryView)>,
    components: Seq<Seq<char>>,
    slugs: Seq<Seq<char>>,
)
    ensures
        store::all_memory_errors(v, components, slugs).len() == 0 <==> forall|i: int|
            0 <= i < v.len() ==> sound((#[trigger] v[i]).1, components, slugs),
    decreases v.len(),
{
    if v.len() > 0 {
        let w = v.drop_last();
        memories_are_sound(w, components, slugs);
        assert(forall|i: int| 0 <= i < w.len() ==> #[trigger] v[i] == w[i]);
        assert(v[v.len() - 1] == v.last());
        assert((store::memory_errors(v.last().1, components, slugs).len() == 0) == sound(
            v.last().1,
            components,
            slugs,
        ));
        if forall|i: int| 0 <= i < v.len() ==> sound((#[trigger] v[i]).1, components, slugs) {
            assert forall|i: int| 0 <= i < w.len() implies sound(
                (#[trigger] w[i]).1,
                components,
                slugs,
            ) by {
                assert(v[i] == w[i]);
            }
        }
    }
}

/// The memory is without fault, and what it supersedes is there.
pub open spec fn sound(m: MemoryView, components: Seq<Seq<char>>, slugs: Seq<Seq<char>>) -> bool {
    check::fault(m, components) is None && (m.front.supersedes matches Some(t) ==> slugs.contains(
        t,
    ))
}

/// The lint reports no error exactly where every entry is in order and every
/// memory read is without fault and supersedes nothing that is missing.
pub proof fn what_the_lint_passes(
    key: Seq<char>,
    components: Seq<Seq<char>>,
    v: Vec<Entry>,
)
    ensures
        ({
            let mems = store::all_linted(v@);
            store::lint(key, components, Listing::Entries(v)).0.len() == 0 <==> (forall|i: int|
                0 <= i < v@.len() ==> tidy(#[trigger] v@[i])) && forall|i: int|
                0 <= i < mems.len() ==> sound(
                    (#[trigger] mems[i]).1,
                    components,
                    store::slugs_of(mems),
                )
        }),
{
    let mems = store::all_linted(v@);
    entries_are_tidy(key, v@);
    memories_are_sound(mems, components, store::slugs_of(mems));
}

/// Every memory whose file is in order is linted, and no other.
pub proof fn what_is_linted(v: Seq<Entry>, m: MemoryView)
    ensures
        (exists|k: int| 0 <= k < store::all_linted(v).len() && (#[trigger] store::all_linted(v)[k]).1
            == m) <==> exists|i: int| 0 <= i < v.len() && reads(#[trigger] v[i], m),
    decreases v.len(),
{
    if v.len() > 0 {
        let w = v.drop_last();
        let last = v.len() - 1;
        what_is_linted(w, m);
        let (a, b) = (store::all_linted(w), store::linted(v.last()));
        let all = store::all_linted(v);
        assert(all == a + b);
        assert(forall|i: int| 0 <= i < w.len() ==> #[trigger] v[i] == w[i]);
        assert(v[last] == v.last());
        if exists|k: int| 0 <= k < a.len() && (#[trigger] a[k]).1 == m {
            let k = choose|k: int| 0 <= k < a.len() && (#[trigger] a[k]).1 == m;
            assert(all[k].1 == m);
        }
        if exists|i: int| 0 <= i < w.len() && reads(#[trigger] w[i], m) {
            let i = choose|i: int| 0 <= i < w.len() && reads(#[trigger] w[i], m);
            assert(reads(v[i], m));
        }
        if reads(v.last(), m) {
            assert(all[a.len() as int].1 == m);
        }
        if exists|k: int| 0 <= k < all.len() && (#[trigger] all[k]).1 == m {
            let k = choose|k: int| 0 <= k < all.len() && (#[trigger] all[k]).1 == m;
            if k < a.len() {
                assert(a[k].1 == m);
            } else {
                assert(all[k] == b[k - a.len()]);
                assert(reads(v[last], m));
            }
        }
        if exists|i: int| 0 <= i < v.len() && reads(#[trigger] v[i], m) {
            let i = choose|i: int| 0 <= i < v.len() && reads(#[trigger] v[i], m);
            if i < last {
                assert(reads(w[i], m));
            }
        }
    }
}

/// A memory that was accepted but applies to nothing is warned of, and so is
/// one whose file could not be read.
pub proof fn what_the_lint_warns_of(m: MemoryView, key: Seq<char>, name: String, why: String)
    ensures
        ({
            let s = m.front.scope;
            store::memory_warnings(m).len() == 1 <==> m.front.status == "accepted"@ && !s.project
                && s.paths.len() == 0 && s.components.len() == 0 && s.tags.len() == 0
                && s.providers.len() == 0
        }),
        store::memory_warnings(m).len() <= 1,
        store::memory_name(name@) && memory::slug(store::bare(name@)) ==> store::entry_warnings(
            key,
            Entry::File { name, link: false, loaded: Err(why) },
        ) == seq![key + "/memory/"@ + name@ + ": "@ + why@],
{
}

// ---------- the list ----------

/// A listing shows what is of the project, status and type asked for, and of
/// the component or path, where these are asked for.
pub proof fn what_a_listing_shows(
    m: MemoryView,
    project: Option<Seq<char>>,
    status: Option<Seq<char>>,
    kind: Option<Seq<char>>,
)
    ensures
        cli::shown(m, project, status, kind, None, None) <==> (project is None || project->0
            == m.project) && (status is None || status->0 == m.front.status) && (kind is None
            || kind->0 == m.front.kind),
        forall|c: Seq<char>| #[trigger]
            cli::shown(m, project, status, kind, Some(c), None) <==> cli::shown(
                m,
                project,
                status,
                kind,
                None,
                None,
            ) && (m.front.scope.project || m.front.scope.components.contains(c)),
        forall|p: Seq<char>| #[trigger]
            cli::shown(m, project, status, kind, None, Some(p)) <==> cli::shown(
                m,
                project,
                status,
                kind,
                None,
                None,
            ) && (m.front.scope.project || exists|g: int|
                0 <= g < m.front.scope.paths.len() && matching::glob(
                    #[trigger] m.front.scope.paths[g],
                    p,
                )),
{
    let s = m.front.scope;
    assert forall|c: Seq<char>| #[trigger]
        matching::share(s.components, seq![c]) == s.components.contains(c) by {
        assert(seq![c][0] == c);
        if s.components.contains(c) {
            let i = choose|i: int| 0 <= i < s.components.len() && s.components[i] == c;
            assert(seq![c].contains(s.components[i]));
        }
    }
    assert(!matching::any_glob(s.paths, cli::opt_list(None)));
    assert(!matching::share(s.components, cli::opt_list(None)));
    assert forall|p: Seq<char>| #[trigger]
        matching::any_glob(s.paths, seq![p]) == exists|g: int|
            0 <= g < s.paths.len() && matching::glob(#[trigger] s.paths[g], p) by {
        assert(seq![p][0] == p);
        if exists|g: int| 0 <= g < s.paths.len() && matching::glob(#[trigger] s.paths[g], p) {
            let g = choose|g: int|
                0 <= g < s.paths.len() && matching::glob(#[trigger] s.paths[g], p);
            assert(matching::glob(s.paths[g], seq![p][0]));
        }
    }
}

} // verus!
