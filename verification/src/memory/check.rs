//! What every memory that is written must meet.
use crate::error::Error;
use crate::memory;
use crate::memory::body;
use crate::memory::{check_slug, Memory, MemoryView};
use crate::paths;
use crate::text;
use vstd::prelude::*;

verus! {

pub open spec fn is_type(s: Seq<char>) -> bool {
    s == "rule"@ || s == "gotcha"@ || s == "decision"@ || s == "recipe"@
}

pub open spec fn is_status(s: Seq<char>) -> bool {
    s == "proposed"@ || s == "accepted"@ || s == "rejected"@ || s == "superseded"@
}

pub open spec fn is_confidence(s: Seq<char>) -> bool {
    s == "low"@ || s == "medium"@ || s == "high"@
}

/// How often `**` stands in a text, each character counted once.
pub open spec fn star_pairs(s: Seq<char>) -> nat
    decreases s.len(),
{
    if s.len() < 2 {
        0
    } else if s[0] == '*' && s[1] == '*' {
        1 + star_pairs(s.skip(2))
    } else {
        star_pairs(s.skip(1))
    }
}

/// A glob that could take too long to match.
pub open spec fn over_budget(pat: Seq<char>) -> bool {
    vstd::utf8::encode_utf8(pat).len() > 200 || star_pairs(pat) > 2
}

pub fn glob_over_budget(pat: &str) -> (r: bool)
    ensures
        r == over_budget(pat@),
{
    if text::byte_len(pat) > 200 {
        return true;
    }
    let v = text::chars_of(pat);
    let mut n: usize = 0;
    let mut i: usize = 0;
    assert(v@.skip(0) =~= v@);
    while i < v.len()
        invariant
            v@ == pat@,
            i <= v@.len(),
            n <= i,
            star_pairs(pat@) == n + star_pairs(v@.skip(i as int)),
        decreases v.len() - i,
    {
        let ghost rest = v@.skip(i as int);
        if i + 1 < v.len() && v[i] == '*' && v[i + 1] == '*' {
            assert(rest.skip(2) =~= v@.skip(i + 2));
            n = n + 1;
            i = i + 2;
        } else {
            assert(rest.skip(1) =~= v@.skip(i + 1));
            i = i + 1;
        }
    }
    n > 2
}

/// The first component of a scope that the project does not declare. One
/// that declares none takes any.
pub open spec fn undeclared(own: Seq<Seq<char>>, declared: Seq<Seq<char>>) -> Option<Seq<char>>
    decreases own.len(),
{
    if own.len() == 0 || declared.len() == 0 {
        None
    } else if !declared.contains(own[0]) {
        Some(own[0])
    } else {
        undeclared(own.drop_first(), declared)
    }
}

/// The first glob that is over budget.
pub open spec fn heavy(globs: Seq<Seq<char>>) -> Option<Seq<char>>
    decreases globs.len(),
{
    if globs.len() == 0 {
        None
    } else if over_budget(globs[0]) {
        Some(globs[0])
    } else {
        heavy(globs.drop_first())
    }
}

/// What is wrong with a memory, if anything.
pub open spec fn fault(m: MemoryView, components: Seq<Seq<char>>) -> Option<Seq<char>> {
    let f = m.front;
    if f.id != paths::stem(m.path) {
        Some("memory id '"@ + f.id + "' must match its filename"@)
    } else if !memory::slug(f.id) {
        Some(memory::bad_slug(f.id))
    } else if !is_type(f.kind) {
        Some("Unknown memory type '"@ + f.kind + "' — one of rule gotcha decision recipe"@)
    } else if !is_status(f.status) {
        Some(
            "Unknown memory status '"@ + f.status
                + "' — one of proposed accepted rejected superseded"@,
        )
    } else if !is_confidence(f.confidence) {
        Some("Unknown confidence '"@ + f.confidence + "' — one of low medium high"@)
    } else if undeclared(f.scope.components, components) is Some {
        Some(
            "Unknown component '"@ + undeclared(f.scope.components, components)->0 + "' — "@
                + m.project + " declares: "@ + text::join(components, ", "@),
        )
    } else if heavy(f.scope.paths) is Some {
        Some(
            "path scope '"@ + heavy(f.scope.paths)->0
                + "' is too complex — ≤200 chars, ≤2 `**` segments"@,
        )
    } else if body::faults(f.id, m.body).len() > 0 {
        Some(body::faults(f.id, m.body)[0])
    } else {
        None
    }
}

fn find_undeclared(own: &Vec<String>, declared: &Vec<String>) -> (r: Option<String>)
    ensures
        r.deep_view() == undeclared(own.deep_view(), declared.deep_view()),
{
    let ghost d = own.deep_view();
    if declared.len() == 0 {
        return None;
    }
    let mut i: usize = 0;
    assert(d.skip(0) =~= d);
    while i < own.len()
        invariant
            d == own.deep_view(),
            declared@.len() > 0,
            i <= own@.len(),
            undeclared(d, declared.deep_view()) == undeclared(
                d.skip(i as int),
                declared.deep_view(),
            ),
        decreases own.len() - i,
    {
        assert(d.skip(i as int)[0] == own@[i as int]@);
        assert(d.skip(i as int).drop_first() =~= d.skip(i + 1));
        if !text::has_name(declared, own[i].as_str()) {
            return Some(own[i].clone());
        }
        i = i + 1;
    }
    None
}

pub(crate) fn find_heavy(globs: &Vec<String>) -> (r: Option<String>)
    ensures
        r.deep_view() == heavy(globs.deep_view()),
{
    let ghost d = globs.deep_view();
    let mut i: usize = 0;
    assert(d.skip(0) =~= d);
    while i < globs.len()
        invariant
            d == globs.deep_view(),
            i <= globs@.len(),
            heavy(d) == heavy(d.skip(i as int)),
        decreases globs.len() - i,
    {
        assert(d.skip(i as int)[0] == globs@[i as int]@);
        assert(d.skip(i as int).drop_first() =~= d.skip(i + 1));
        if glob_over_budget(globs[i].as_str()) {
            return Some(globs[i].clone());
        }
        i = i + 1;
    }
    None
}

fn one_of(a: &str, s: &str, b: &str) -> (r: Error)
    ensures
        r is Rejected,
        r.text() == a@ + s@ + b@,
{
    Error::Rejected(a.to_owned().concat(s).concat(b))
}

fn check_words(mem: &Memory) -> (r: Result<(), Error>)
    ensures
        match r {
            Ok(_) => is_type(mem@.front.kind) && is_status(mem@.front.status) && is_confidence(
                mem@.front.confidence,
            ),
            Err(e) => e is Rejected && (if !is_type(mem@.front.kind) {
                e.text() == "Unknown memory type '"@ + mem@.front.kind
                    + "' — one of rule gotcha decision recipe"@
            } else if !is_status(mem@.front.status) {
                e.text() == "Unknown memory status '"@ + mem@.front.status
                    + "' — one of proposed accepted rejected superseded"@
            } else {
                !is_confidence(mem@.front.confidence) && e.text() == "Unknown confidence '"@
                    + mem@.front.confidence + "' — one of low medium high"@
            }),
        },
{
    let f = &mem.front;
    let k = f.kind.as_str();
    if !text::eq(k, "rule") && !text::eq(k, "gotcha") && !text::eq(k, "decision") && !text::eq(
        k,
        "recipe",
    ) {
        return Err(
            one_of("Unknown memory type '", k, "' — one of rule gotcha decision recipe"),
        );
    }
    let s = f.status.as_str();
    if !text::eq(s, "proposed") && !text::eq(s, "accepted") && !text::eq(s, "rejected")
        && !text::eq(s, "superseded") {
        return Err(
            one_of(
                "Unknown memory status '",
                s,
                "' — one of proposed accepted rejected superseded",
            ),
        );
    }
    let c = f.confidence.as_str();
    if !text::eq(c, "low") && !text::eq(c, "medium") && !text::eq(c, "high") {
        return Err(one_of("Unknown confidence '", c, "' — one of low medium high"));
    }
    Ok(())
}

/// Frontmatter and body, as every write needs them. `components` are those
/// that the project declares.
pub fn check_front(mem: &Memory, components: &Vec<String>) -> (r: Result<(), Error>)
    ensures
        match r {
            Ok(_) => fault(mem@, components.deep_view()) is None,
            Err(e) => e is Rejected && fault(mem@, components.deep_view()) == Some(e.text()),
        },
{
    let f = &mem.front;
    let stem = paths::stem_of(mem.path.as_str());
    if !text::eq(f.id.as_str(), stem.as_str()) {
        return Err(one_of("memory id '", f.id.as_str(), "' must match its filename"));
    }
    if let Err(e) = check_slug(f.id.as_str()) {
        return Err(e);
    }
    if let Err(e) = check_words(mem) {
        return Err(e);
    }
    if let Some(c) = find_undeclared(&f.scope.components, components) {
        let list = text::join_of(components, ", ");
        return Err(
            Error::Rejected(
                "Unknown component '".to_owned().concat(c.as_str()).concat("' — ").concat(
                    mem.project.as_str(),
                ).concat(" declares: ").concat(list.as_str()),
            ),
        );
    }
    if let Some(p) = find_heavy(&f.scope.paths) {
        return Err(
            one_of(
                "path scope '",
                p.as_str(),
                "' is too complex — ≤200 chars, ≤2 `**` segments",
            ),
        );
    }
    let faults = body::lint_body(f.id.as_str(), mem.body.as_str());
    let ghost d = faults.deep_view();
    if faults.len() > 0 {
        assert(d[0] == faults@[0]@);
        return Err(Error::Rejected(faults[0].clone()));
    }
    Ok(())
}

} // verus!
