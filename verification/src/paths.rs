//! File paths as texts: joining, components, and the test that one path
//! lies under another.
use crate::text;
use vstd::prelude::*;

verus! {

/// `base` with `name` below it; an absolute `name` stands alone.
pub open spec fn join(base: Seq<char>, name: Seq<char>) -> Seq<char> {
    if (name.len() > 0 && name[0] == '/') || base.len() == 0 {
        name
    } else if base.last() == '/' {
        base + name
    } else {
        base + "/"@ + name
    }
}

/// `base` with `name` below it (`Path::join`).
pub fn join_of(base: &str, name: &str) -> (r: String)
    ensures
        r@ == join(base@, name@),
{
    let n = text::chars_of(name);
    let b = text::chars_of(base);
    if (n.len() > 0 && n[0] == '/') || b.len() == 0 {
        name.to_owned()
    } else if b[b.len() - 1] == '/' {
        base.to_owned().concat(name)
    } else {
        base.to_owned().concat("/").concat(name)
    }
}

/// A piece between slashes that names something: not empty, not `.`.
pub open spec fn named(p: Seq<char>) -> bool {
    p.len() > 0 && p != "."@
}

/// The named pieces of a path, in order.
pub open spec fn parts(path: Seq<char>) -> Seq<Seq<char>> {
    text::split(path, '/').filter(|p: Seq<char>| named(p))
}

pub open spec fn absolute(path: Seq<char>) -> bool {
    path.len() > 0 && path[0] == '/'
}

/// Whether a path begins at the root.
pub fn is_absolute(path: &str) -> (r: bool)
    ensures
        r == absolute(path@),
{
    let v = text::chars_of(path);
    v.len() > 0 && v[0] == '/'
}

/// The named pieces of a path, in order (`Path::components`, without the
/// root and `.`).
pub fn parts_of(path: &str) -> (r: Vec<String>)
    ensures
        r.deep_view() == parts(path@),
{
    let pieces = text::split_of(path, '/');
    let ghost d = pieces.deep_view();
    let ghost f = |p: Seq<char>| named(p);
    let mut r: Vec<String> = Vec::new();
    let mut i: usize = 0;
    assert(r.deep_view() =~= d.take(0).filter(f)) by {
        reveal(Seq::filter);
    }
    while i < pieces.len()
        invariant
            d == pieces.deep_view(),
            f == (|p: Seq<char>| named(p)),
            i <= pieces@.len(),
            r.deep_view() == d.take(i as int).filter(f),
        decreases pieces.len() - i,
    {
        let ghost r0 = r.deep_view();
        assert(d.take(i + 1).drop_last() =~= d.take(i as int));
        assert(d.take(i + 1).last() == pieces@[i as int]@);
        if !pieces[i].as_str().is_empty() && !text::eq(pieces[i].as_str(), ".") {
            r.push(pieces[i].clone());
            assert(r.deep_view() =~= r0.push(pieces@[i as int]@));
        }
        assert(r.deep_view() == d.take(i + 1).filter(f)) by {
            reveal(Seq::filter);
        }
        i = i + 1;
    }
    assert(d.take(i as int) =~= d);
    r
}

/// `path` is `root` or lies below it, piece by piece.
pub open spec fn under(path: Seq<Seq<char>>, root: Seq<Seq<char>>) -> bool {
    root.is_prefix_of(path)
}

/// Whether the pieces of a path begin with those of a root.
pub fn is_under(path: &Vec<String>, root: &Vec<String>) -> (r: bool)
    ensures
        r == under(path.deep_view(), root.deep_view()),
{
    let ghost p = path.deep_view();
    let ghost q = root.deep_view();
    if root.len() > path.len() {
        return false;
    }
    let mut i: usize = 0;
    while i < root.len()
        invariant
            p == path.deep_view(),
            q == root.deep_view(),
            root@.len() <= path@.len(),
            i <= root@.len(),
            forall|j: int| 0 <= j < i ==> p[j] == q[j],
        decreases root.len() - i,
    {
        if !text::eq(path[i].as_str(), root[i].as_str()) {
            assert(p[i as int] != q[i as int]);
            assert(!under(p, q)) by {
                if under(p, q) {
                    assert(q[i as int] == p.subrange(0, q.len() as int)[i as int]);
                }
            }
            return false;
        }
        i = i + 1;
    }
    assert(q =~= p.subrange(0, q.len() as int));
    true
}

/// The pieces of a path with each `..` taken back by what stands before it.
pub open spec fn settled(p: Seq<Seq<char>>) -> Seq<Seq<char>>
    decreases p.len(),
{
    if p.len() == 0 {
        p
    } else {
        let s = settled(p.drop_last());
        if p.last() != ".."@ {
            s.push(p.last())
        } else if s.len() > 0 {
            s.drop_last()
        } else {
            s
        }
    }
}

/// The pieces of a path with each `..` taken back.
pub fn settle(p: &Vec<String>) -> (r: Vec<String>)
    ensures
        r.deep_view() == settled(p.deep_view()),
{
    let ghost d = p.deep_view();
    let mut r: Vec<String> = Vec::new();
    let mut i: usize = 0;
    assert(d.take(0) =~= Seq::empty());
    assert(r.deep_view() =~= Seq::empty());
    while i < p.len()
        invariant
            d == p.deep_view(),
            i <= p@.len(),
            r.deep_view() == settled(d.take(i as int)),
        decreases p.len() - i,
    {
        let ghost o = r.deep_view();
        assert(o.len() == r@.len());
        assert(d.take(i + 1).drop_last() =~= d.take(i as int));
        assert(d.take(i + 1).last() == p@[i as int]@);
        if !text::eq(p[i].as_str(), "..") {
            r.push(p[i].clone());
            assert(r.deep_view() =~= o.push(p@[i as int]@));
        } else if r.len() > 0 {
            r.truncate(r.len() - 1);
            assert(r.deep_view() =~= o.drop_last());
        }
        i = i + 1;
    }
    assert(d.take(i as int) =~= d);
    r
}

/// The name of a file without its extension: what stands before the last
/// dot, unless that dot comes first.
pub open spec fn name_stem(name: Seq<char>) -> Seq<char> {
    match text::after_last(name, '.') {
        Some(ext) => if name.len() - ext.len() - 1 > 0 {
            name.take(name.len() - ext.len() - 1)
        } else {
            name
        },
        None => name,
    }
}

/// The stem of the file that a path names; none where it names none.
pub open spec fn stem(path: Seq<char>) -> Seq<char> {
    if parts(path).len() == 0 || parts(path).last() == ".."@ {
        seq![]
    } else {
        name_stem(parts(path).last())
    }
}

pub fn stem_of(path: &str) -> (r: String)
    ensures
        r@ == stem(path@),
{
    let p = parts_of(path);
    let empty = String::new();
    assert(empty@ =~= seq![]);
    if p.len() == 0 {
        return empty;
    }
    assert(parts(path@).last() == p@.last()@);
    let name = p[p.len() - 1].as_str();
    if text::eq(name, "..") {
        return empty;
    }
    match text::rsplit_once(name, '.') {
        Some((a, b)) => {
            proof {
                text::after_last_found(name@, a@, b@, '.');
            }
            assert(name@.take(name@.len() - b@.len() - 1) =~= a@);
            if text::eq(a.as_str(), "") {
                proof {
                    reveal_strlit("");
                }
                name.to_owned()
            } else {
                proof {
                    reveal_strlit("");
                    assert(a@.len() == 0 ==> a@ =~= ""@);
                }
                a
            }
        },
        None => {
            proof {
                text::after_last_missing(name@, '.');
            }
            name.to_owned()
        },
    }
}

} // verus!
