//! What cutting, joining and comparing texts means, told by their characters.
use crate::paths;
use crate::text;
use vstd::prelude::*;

verus! {

// ---------- white space ----------

/// Only white space.
pub open spec fn blank(s: Seq<char>) -> bool {
    forall|i: int| 0 <= i < s.len() ==> text::white(#[trigger] s[i])
}

/// Begins and ends with something else than white space.
pub open spec fn solid(s: Seq<char>) -> bool {
    s.len() > 0 && !text::white(s[0]) && !text::white(s[s.len() - 1])
}

/// A space, a tab and the ends of lines are white space; letters, digits and
/// signs are not.
pub proof fn what_is_white(c: char)
    ensures
        c == ' ' || c == '\t' || c == '\n' || c == '\r' ==> text::white(c),
        '!' <= c <= '~' ==> !text::white(c),
{
}

proof fn start_is_cut(a: Seq<char>, b: Seq<char>)
    requires
        blank(a),
        b.len() == 0 || !text::white(b[0]),
    ensures
        text::trim_start(a + b) == b,
    decreases a.len(),
{
    let s = a + b;
    if a.len() == 0 {
        assert(s =~= b);
    } else {
        assert(s[0] == a[0]);
        let t = a.drop_first();
        assert(s.drop_first() =~= t + b);
        assert forall|i: int| 0 <= i < t.len() implies text::white(#[trigger] t[i]) by {
            assert(t[i] == a[i + 1]);
        }
        start_is_cut(t, b);
    }
}

proof fn end_is_cut(a: Seq<char>, b: Seq<char>)
    requires
        blank(b),
        a.len() == 0 || !text::white(a[a.len() - 1]),
    ensures
        text::trim_end(a + b) == a,
    decreases b.len(),
{
    let s = a + b;
    if b.len() == 0 {
        assert(s =~= a);
    } else {
        assert(s.last() == b[b.len() - 1]);
        let t = b.drop_last();
        assert(s.drop_last() =~= a + t);
        end_is_cut(a, t);
    }
}

/// White space in front and behind is cut, and nothing else.
pub proof fn white_space_is_cut(a: Seq<char>, s: Seq<char>, b: Seq<char>)
    requires
        blank(a),
        solid(s),
        blank(b),
    ensures
        text::trim(a + s + b) == s,
        text::trim_end(s + b) == s,
{
    assert((s + b)[0] == s[0]);
    start_is_cut(a, s + b);
    assert(a + (s + b) =~= a + s + b);
    end_is_cut(s, b);
}

/// Nothing is left of white space.
pub proof fn nothing_is_left_of_white_space(a: Seq<char>)
    requires
        blank(a),
    ensures
        text::trim(a).len() == 0,
{
    start_is_cut(a, seq![]);
    assert(a + seq![] =~= a);
}

// ---------- pieces ----------

/// Without the separator there is one piece.
pub proof fn one_piece<T>(s: Seq<T>, c: T)
    requires
        !s.contains(c),
    ensures
        text::split(s, c) == seq![s],
    decreases s.len(),
{
    if s.len() > 0 {
        let w = s.drop_last();
        assert forall|i: int| 0 <= i < w.len() implies w[i] != c by {
            assert(s[i] == w[i]);
            assert(s.contains(s[i]));
        }
        assert(!w.contains(c));
        one_piece(w, c);
        assert(s.contains(s[s.len() - 1]));
        assert(w.push(s.last()) =~= s);
        assert(seq![w].drop_last() =~= Seq::empty());
        assert(text::split(s, c) =~= seq![s]);
    } else {
        assert(text::split(s, c)[0] =~= s);
        assert(text::split(s, c) =~= seq![s]);
    }
}

/// What stands in front of the first separator is the first piece; the rest
/// is cut the same way.
pub proof fn the_first_piece_stands_alone<T>(a: Seq<T>, b: Seq<T>, c: T)
    requires
        !a.contains(c),
    ensures
        text::split(a + seq![c] + b, c) == seq![a] + text::split(b, c),
    decreases b.len(),
{
    let s = a + seq![c] + b;
    if b.len() == 0 {
        assert(s.drop_last() =~= a);
        assert(s.last() == c);
        one_piece(a, c);
        assert(text::split(s, c) =~= seq![a] + text::split(b, c));
    } else {
        let w = b.drop_last();
        the_first_piece_stands_alone(a, w, c);
        assert(s.drop_last() =~= a + seq![c] + w);
        assert(s.last() == b.last());
        let before = text::split(w, c);
        text::split_nonempty(w, c);
        let all = seq![a] + before;
        assert(all.last() == before.last());
        assert(all.drop_last() =~= seq![a] + before.drop_last());
        assert(text::split(s, c) =~= seq![a] + text::split(b, c));
    }
}

/// A line ends at a line feed, or at a carriage return in front of one; the
/// rest is cut the same way.
pub proof fn a_line_ends_at_its_feed(l: Seq<char>, rest: Seq<char>)
    requires
        !l.contains('\n'),
        l.len() == 0 || l[l.len() - 1] != '\r',
    ensures
        text::lines(l + seq!['\n'] + rest) == seq![l] + text::lines(rest),
        text::lines(l + seq!['\r', '\n'] + rest) == seq![l] + text::lines(rest),
{
    line_step(l, rest);
    let m = l.push('\r');
    assert(l + seq!['\r', '\n'] + rest =~= m + seq!['\n'] + rest);
    assert forall|i: int| 0 <= i < m.len() implies m[i] != '\n' by {
        if i < l.len() {
            assert(l.contains(l[i]));
        }
    }
    line_step(m, rest);
    assert(text::strip_cr(m) =~= l);
}

proof fn line_step(l: Seq<char>, rest: Seq<char>)
    requires
        !l.contains('\n'),
    ensures
        text::lines(l + seq!['\n'] + rest) == seq![text::strip_cr(l)] + text::lines(rest),
{
    the_first_piece_stands_alone(l, rest, '\n');
    text::split_nonempty(rest, '\n');
    let p = text::split(rest, '\n');
    let all = seq![l] + p;
    assert(all.last() == p.last());
    assert(all.drop_last() =~= seq![l] + p.drop_last());
    let f = |x: Seq<char>| text::strip_cr(x);
    assert(all.drop_last().map_values(f) =~= seq![text::strip_cr(l)] + p.drop_last().map_values(f));
    assert(text::lines(l + seq!['\n'] + rest) =~= seq![text::strip_cr(l)] + text::lines(rest));
}

/// A last line without a line feed is a line as it is; nothing is no line.
pub proof fn the_last_line_needs_no_feed(l: Seq<char>)
    requires
        !l.contains('\n'),
    ensures
        l.len() > 0 ==> text::lines(l) == seq![l],
        l.len() == 0 ==> text::lines(l).len() == 0,
{
    one_piece(l, '\n');
    assert(seq![l].drop_last() =~= Seq::empty());
    assert(text::lines(l) =~= if l.len() == 0 {
        seq![]
    } else {
        seq![l]
    });
}

/// Words are what stands between white space: white space behind a text adds
/// no word, and a word behind white space is one more.
pub proof fn a_word_stands_between_white_space(s: Seq<char>, gap: Seq<char>, w: Seq<char>)
    requires
        blank(gap),
        gap.len() > 0,
        w.len() > 0,
        forall|i: int| 0 <= i < w.len() ==> !text::white(#[trigger] w[i]),
    ensures
        text::words(s + gap) == text::words(s),
        text::words(s + gap + w) == text::words(s).push(w),
        text::words(w) == seq![w],
{
    gap_adds_nothing(s, gap);
    word_grows(s + gap, w);
    word_grows(seq![], w);
    assert(Seq::<char>::empty() + w =~= w);
    assert(Seq::<Seq<char>>::empty().push(w) =~= seq![w]);
}

proof fn gap_adds_nothing(s: Seq<char>, gap: Seq<char>)
    requires
        blank(gap),
    ensures
        text::words(s + gap) == text::words(s),
    decreases gap.len(),
{
    if gap.len() == 0 {
        assert(s + gap =~= s);
    } else {
        let g = gap.drop_last();
        assert((s + gap).drop_last() =~= s + g);
        assert((s + gap).last() == gap[gap.len() - 1]);
        gap_adds_nothing(s, g);
    }
}

proof fn word_grows(s: Seq<char>, w: Seq<char>)
    requires
        s.len() == 0 || text::white(s[s.len() - 1]),
        w.len() > 0,
        forall|i: int| 0 <= i < w.len() ==> !text::white(#[trigger] w[i]),
    ensures
        text::words(s + w) == text::words(s).push(w),
    decreases w.len(),
{
    let t = s + w;
    let v = w.drop_last();
    assert(t.drop_last() =~= s + v);
    assert(t.last() == w[w.len() - 1]);
    if v.len() == 0 {
        assert(s + v =~= s);
        assert(w =~= seq![w.last()]);
        if t.len() > 1 {
            assert(t[t.len() - 2] == s[s.len() - 1]);
        }
    } else {
        word_grows(s, v);
        assert(t[t.len() - 2] == v[v.len() - 1]);
        let before = text::words(s).push(v);
        assert(before.drop_last() =~= text::words(s));
        assert(v.push(w.last()) =~= w);
    }
}

/// Joined texts stand in order with the separator between.
pub proof fn a_joined_text_comes_last(v: Seq<Seq<char>>, x: Seq<char>, sep: Seq<char>)
    ensures
        text::join(seq![], sep).len() == 0,
        text::join(seq![x], sep) == x,
        v.len() > 0 ==> text::join(v.push(x), sep) == text::join(v, sep) + sep + x,
{
    assert(v.push(x).drop_last() =~= v);
}

// ---------- paths ----------

/// What stands behind the last separator is the last piece.
pub proof fn the_last_piece_stands_alone<T>(a: Seq<T>, b: Seq<T>, c: T)
    requires
        !b.contains(c),
    ensures
        text::split(a + seq![c] + b, c) == text::split(a, c).push(b),
    decreases b.len(),
{
    let s = a + seq![c] + b;
    if b.len() == 0 {
        assert(s.drop_last() =~= a);
        assert(b =~= seq![]);
    } else {
        let w = b.drop_last();
        assert forall|i: int| 0 <= i < w.len() implies w[i] != c by {
            assert(w[i] == b[i]);
            assert(b.contains(b[i]));
        }
        the_last_piece_stands_alone(a, w, c);
        assert(s.drop_last() =~= a + seq![c] + w);
        assert(s.last() == b[b.len() - 1]);
        assert(b.contains(b[b.len() - 1]));
        let before = text::split(a, c).push(w);
        assert(before.drop_last() =~= text::split(a, c));
        assert(w.push(b.last()) =~= b);
    }
}

/// A name behind a path is one more step of it; nothing and a dot are none.
pub proof fn a_name_is_one_more_step(dir: Seq<char>, name: Seq<char>)
    requires
        !name.contains('/'),
    ensures
        name.len() > 0 && name != "."@ ==> paths::parts(dir + seq!['/'] + name) == paths::parts(
            dir,
        ).push(name),
        name.len() == 0 || name == "."@ ==> paths::parts(dir + seq!['/'] + name) == paths::parts(
            dir,
        ),
        name.len() > 0 && name != "."@ ==> paths::parts(name) == seq![name],
{
    the_last_piece_stands_alone(dir, name, '/');
    one_piece(name, '/');
    let f = |p: Seq<char>| paths::named(p);
    let d = text::split(dir, '/');
    reveal(Seq::filter);
    assert(d.push(name).drop_last() =~= d);
    assert(paths::parts(dir + seq!['/'] + name) == d.push(name).filter(f));
    let e = seq![name];
    assert(e.drop_last() =~= Seq::empty());
    assert(e.drop_last().filter(f) =~= Seq::empty());
    if paths::named(name) {
        assert(e.filter(f) =~= seq![name]);
    }
}

/// A path lies under another where it takes the same steps first.
pub proof fn what_lies_under(path: Seq<Seq<char>>, root: Seq<Seq<char>>)
    ensures
        paths::under(path, root) <==> root.len() <= path.len() && forall|i: int|
            0 <= i < root.len() ==> #[trigger] path[i] == root[i],
{
    if root.len() <= path.len() && forall|i: int|
        0 <= i < root.len() ==> #[trigger] path[i] == root[i] {
        assert(root =~= path.subrange(0, root.len() as int));
    }
    if paths::under(path, root) {
        let p = path.subrange(0, root.len() as int);
        assert forall|i: int| 0 <= i < root.len() implies #[trigger] path[i] == root[i] by {
            assert(p[i] == path[i]);
        }
    }
}

/// Two dots take the step before back, and any other step stays.
pub proof fn two_dots_take_a_step_back(p: Seq<Seq<char>>, x: Seq<char>)
    ensures
        x != ".."@ ==> paths::settled(p.push(x)) == paths::settled(p).push(x),
        x == ".."@ && paths::settled(p).len() > 0 ==> paths::settled(p.push(x)) == paths::settled(
            p,
        ).drop_last(),
        x == ".."@ && paths::settled(p).len() == 0 ==> paths::settled(p.push(x)).len() == 0,
{
    assert(p.push(x).drop_last() =~= p);
}

// ---------- order ----------

/// One text comes before another where it is a beginning of it, or where the
/// first character that differs is the smaller.
pub proof fn the_first_difference_decides(a: Seq<char>, b: Seq<char>, k: int)
    requires
        0 <= k <= a.len(),
        k <= b.len(),
        forall|i: int| 0 <= i < k ==> #[trigger] a[i] == b[i],
        k < a.len() && k < b.len() ==> a[k] != b[k],
    ensures
        text::lt(a, b) <==> k < b.len() && (k == a.len() || a[k] < b[k]),
    decreases k,
{
    if k > 0 {
        assert(a[0] == b[0]);
        let (x, y) = (a.drop_first(), b.drop_first());
        assert forall|i: int| 0 <= i < k - 1 implies #[trigger] x[i] == y[i] by {
            assert(x[i] == a[i + 1] && y[i] == b[i + 1]);
        }
        the_first_difference_decides(x, y, k - 1);
    }
}

/// A text holds another where it stands somewhere in it.
pub proof fn what_a_text_holds(a: Seq<char>, p: Seq<char>, b: Seq<char>)
    ensures
        text::holds(a + p + b, p),
        text::begins(p + b, p),
        text::ends(a + p, p),
{
    let s = a + p + b;
    assert(s.subrange(a.len() as int, (a.len() + p.len()) as int) =~= p);
    assert(text::at(s, p, a.len() as int));
    assert((p + b).subrange(0, p.len() as int) =~= p);
    assert((a + p).subrange(a.len() as int, (a.len() + p.len()) as int) =~= p);
}

/// What begins or ends with a text is that text and something behind or in
/// front; what holds it has it somewhere.
pub proof fn what_stands_in_a_text(s: Seq<char>, p: Seq<char>)
    ensures
        text::begins(s, p) ==> s == p + s.skip(p.len() as int),
        text::ends(s, p) ==> s == s.take(s.len() - p.len()) + p,
        text::holds(s, p) ==> exists|i: int|
            0 <= i && i + p.len() <= s.len() && s == s.take(i) + p + #[trigger] s.skip(i + p.len()),
{
    let n = p.len() as int;
    if text::begins(s, p) {
        assert(s =~= s.subrange(0, n) + s.skip(n));
    }
    if text::ends(s, p) {
        let i = s.len() - p.len();
        assert(s =~= s.take(i) + s.subrange(i, i + n));
    }
    if text::holds(s, p) {
        let i = choose|i: int| text::at(s, p, i);
        assert(s =~= s.take(i) + s.subrange(i, i + n) + s.skip(i + n));
    }
}

/// Capital letters become small, and nothing else changes.
pub proof fn capitals_become_small(s: Seq<char>, i: int)
    requires
        0 <= i < s.len(),
    ensures
        text::smalls(s).len() == s.len(),
        'A' <= s[i] <= 'Z' ==> text::smalls(s)[i] as int == s[i] as int + 32,
        !('A' <= s[i] <= 'Z') ==> text::smalls(s)[i] == s[i],
{
}

} // verus!
