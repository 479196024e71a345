//! The body of a memory: a fact, why it holds and how to apply it.
use crate::memory::FACT_MAX_BYTES;
use crate::text;
use vstd::prelude::*;

verus! {

/// The sections of a body as they are read, line by line. The section at
/// hand is the fact (0), why (1) or how (2).
pub struct Walk {
    pub fact: Seq<Seq<char>>,
    pub why: Seq<Seq<char>>,
    pub how: Seq<Seq<char>>,
    pub section: int,
}

pub open spec fn blank(line: Seq<char>) -> bool {
    text::trim(line).len() == 0
}

/// What follows a marker on its line, where there is something.
pub open spec fn after_marker(line: Seq<char>, marker: Seq<char>) -> Seq<Seq<char>> {
    let rest = text::trim(text::trim(line).skip(marker.len() as int));
    if rest.len() == 0 {
        seq![]
    } else {
        seq![rest]
    }
}

pub open spec fn step(w: Walk, line: Seq<char>) -> Walk {
    let t = text::trim(line);
    if text::begins(t, "**Why:**"@) {
        Walk { why: w.why + after_marker(line, "**Why:**"@), section: 1, ..w }
    } else if text::begins(t, "**How to apply:**"@) {
        Walk { how: w.how + after_marker(line, "**How to apply:**"@), section: 2, ..w }
    } else if w.section == 0 {
        if t.len() > 0 || w.fact.len() > 0 {
            Walk { fact: w.fact.push(line), ..w }
        } else {
            w
        }
    } else if w.section == 1 {
        Walk { why: w.why.push(line), ..w }
    } else {
        Walk { how: w.how.push(line), ..w }
    }
}

pub open spec fn walk(lines: Seq<Seq<char>>) -> Walk
    decreases lines.len(),
{
    if lines.len() == 0 {
        Walk { fact: seq![], why: seq![], how: seq![], section: 0 }
    } else {
        step(walk(lines.drop_last()), lines.last())
    }
}

/// Without the blank lines at the front.
pub open spec fn strip_front(v: Seq<Seq<char>>) -> Seq<Seq<char>>
    decreases v.len(),
{
    if v.len() > 0 && blank(v[0]) {
        strip_front(v.drop_first())
    } else {
        v
    }
}

/// Without the blank lines at the end.
pub open spec fn strip_back(v: Seq<Seq<char>>) -> Seq<Seq<char>>
    decreases v.len(),
{
    if v.len() > 0 && blank(v.last()) {
        strip_back(v.drop_last())
    } else {
        v
    }
}

pub open spec fn stripped(v: Seq<Seq<char>>) -> Seq<Seq<char>> {
    strip_back(strip_front(v))
}

/// The lines of the fact.
pub open spec fn fact(body: Seq<char>) -> Seq<Seq<char>> {
    stripped(walk(text::lines(body)).fact)
}

pub open spec fn why(body: Seq<char>) -> Seq<char> {
    text::join(stripped(walk(text::lines(body)).why), "\n"@)
}

pub open spec fn how(body: Seq<char>) -> Seq<char> {
    text::join(stripped(walk(text::lines(body)).how), "\n"@)
}

fn is_empty(s: &str) -> (r: bool)
    ensures
        r == (s@.len() == 0),
{
    proof {
        reveal_strlit("");
        assert(s@.len() == 0 ==> s@ =~= ""@);
    }
    text::eq(s, "")
}

pub(crate) fn is_blank(line: &str) -> (r: bool)
    ensures
        r == blank(line@),
{
    is_empty(text::trim_of(line).as_str())
}

fn strip(v: Vec<String>) -> (r: Vec<String>)
    ensures
        r.deep_view() == stripped(v.deep_view()),
{
    let ghost d = v.deep_view();
    let mut v = v;
    while v.len() > 0 && is_blank(v[0].as_str())
        invariant
            strip_front(d) == strip_front(v.deep_view()),
        ensures
            v.deep_view() == strip_front(d),
        decreases v.len(),
    {
        let ghost o = v.deep_view();
        v.remove(0);
        assert(v.deep_view() =~= o.drop_first());
    }
    let ghost e = v.deep_view();
    while v.len() > 0 && is_blank(v[v.len() - 1].as_str())
        invariant
            strip_back(e) == strip_back(v.deep_view()),
        ensures
            v.deep_view() == strip_back(e),
        decreases v.len(),
    {
        let ghost o = v.deep_view();
        v.pop();
        assert(v.deep_view() =~= o.drop_last());
    }
    v
}

fn push_rest(v: &mut Vec<String>, t: &str, marker: &str, line: &str)
    requires
        t@ == text::trim(line@),
        text::begins(t@, marker@),
    ensures
        final(v).deep_view() == old(v).deep_view() + after_marker(line@, marker@),
{
    let ghost o = v.deep_view();
    if let Some(rest) = text::strip_prefix(t, marker) {
        let rest = text::trim_of(rest.as_str());
        if !is_empty(rest.as_str()) {
            v.push(rest);
            assert(v.deep_view() =~= o + seq![rest@]);
        } else {
            assert(v.deep_view() =~= o + seq![]);
        }
    }
}

fn push_line(v: &mut Vec<String>, line: &str)
    ensures
        final(v).deep_view() == old(v).deep_view().push(line@),
{
    let ghost o = v.deep_view();
    v.push(line.to_owned());
    assert(v.deep_view() =~= o.push(line@));
}

/// The lines of the fact, and the other two sections.
pub fn body_parts(body: &str) -> (r: (Vec<String>, String, String))
    ensures
        r.0.deep_view() == fact(body@),
        r.1@ == why(body@),
        r.2@ == how(body@),
{
    let lines = text::lines_of(body);
    let ghost d = lines.deep_view();
    let mut fact: Vec<String> = Vec::new();
    let mut why: Vec<String> = Vec::new();
    let mut how: Vec<String> = Vec::new();
    let mut section: u8 = 0;
    let mut i: usize = 0;
    assert(fact.deep_view() =~= seq![]);
    assert(why.deep_view() =~= seq![]);
    assert(how.deep_view() =~= seq![]);
    while i < lines.len()
        invariant
            d == lines.deep_view(),
            i <= lines@.len(),
            walk(d.take(i as int)).fact == fact.deep_view(),
            walk(d.take(i as int)).why == why.deep_view(),
            walk(d.take(i as int)).how == how.deep_view(),
            walk(d.take(i as int)).section == section,
        decreases lines.len() - i,
    {
        assert(d.take(i + 1).drop_last() =~= d.take(i as int));
        assert(d.take(i + 1).last() == lines@[i as int]@);
        let line = lines[i].as_str();
        let t = text::trim_of(line);
        if text::starts_with(t.as_str(), "**Why:**") {
            section = 1;
            push_rest(&mut why, t.as_str(), "**Why:**", line);
        } else if text::starts_with(t.as_str(), "**How to apply:**") {
            section = 2;
            push_rest(&mut how, t.as_str(), "**How to apply:**", line);
        } else if section == 0 {
            if !is_empty(t.as_str()) || fact.len() > 0 {
                push_line(&mut fact, line);
            }
        } else if section == 1 {
            push_line(&mut why, line);
        } else {
            push_line(&mut how, line);
        }
        i = i + 1;
    }
    assert(d.take(i as int) =~= d);
    let fact = strip(fact);
    let why = strip(why);
    let how = strip(how);
    (fact, text::join_of(&why, "\n"), text::join_of(&how, "\n"))
}

pub open spec fn first_or_empty(v: Seq<Seq<char>>) -> Seq<char> {
    if v.len() > 0 {
        v[0]
    } else {
        seq![]
    }
}

/// The first line of the fact.
pub fn fact_line(body: &str) -> (r: String)
    ensures
        r@ == first_or_empty(fact(body@)),
{
    let (fact, _why, _how) = body_parts(body);
    if fact.len() > 0 {
        fact[0].clone()
    } else {
        let r = String::new();
        assert(r@ =~= seq![]);
        r
    }
}

pub open spec fn apply(body: Seq<char>) -> Seq<char> {
    text::trim(first_or_empty(text::lines(how(body))))
}

/// The first line of how to apply it.
pub fn apply_line(body: &str) -> (r: String)
    ensures
        r@ == apply(body@),
{
    let (_fact, _why, how) = body_parts(body);
    let lines = text::lines_of(how.as_str());
    let ghost d = lines.deep_view();
    if lines.len() > 0 {
        assert(d[0] == lines@[0]@);
        text::trim_of(lines[0].as_str())
    } else {
        let e = String::new();
        assert(e@ =~= seq![]);
        text::trim_of(e.as_str())
    }
}

// ---------- what a body must hold ----------

pub open spec fn not_blank() -> spec_fn(Seq<char>) -> bool {
    |l: Seq<char>| !blank(l)
}

pub open spec fn fact_lines(body: Seq<char>) -> nat {
    fact(body).filter(not_blank()).len()
}

pub open spec fn total_bytes(v: Seq<Seq<char>>) -> nat
    decreases v.len(),
{
    if v.len() == 0 {
        0
    } else {
        total_bytes(v.drop_last()) + vstd::utf8::encode_utf8(v.last()).len()
    }
}

/// What is wrong with a body: a fact is there, of at most 5 lines and 512
/// bytes, and so are the other two sections.
pub open spec fn faults(slug: Seq<char>, body: Seq<char>) -> Seq<Seq<char>> {
    let n = fact_lines(body);
    let bytes = total_bytes(fact(body));
    let lines = if n == 0 {
        seq![slug + ": missing fact (the lines before **Why:**)"@]
    } else if n > 5 {
        seq![slug + ": fact is "@ + text::dec(n) + " lines — the cap is 5"@]
    } else {
        seq![]
    };
    let size = if bytes > FACT_MAX_BYTES {
        seq![
            slug + ": fact is "@ + text::dec(bytes) + " bytes — the cap is "@ + text::dec(
                FACT_MAX_BYTES as nat,
            ),
        ]
    } else {
        seq![]
    };
    let no_why = if blank(why(body)) {
        seq![slug + ": missing '**Why:**' section"@]
    } else {
        seq![]
    };
    let no_how = if blank(how(body)) {
        seq![slug + ": missing '**How to apply:**' section"@]
    } else {
        seq![]
    };
    lines + size + no_why + no_how
}

fn count_lines(v: &Vec<String>) -> (r: usize)
    ensures
        r == v.deep_view().filter(not_blank()).len(),
{
    let ghost d = v.deep_view();
    let mut n: usize = 0;
    let mut i: usize = 0;
    proof {
        reveal(Seq::filter);
        assert(d.take(0) =~= Seq::empty());
    }
    while i < v.len()
        invariant
            d == v.deep_view(),
            i <= v@.len(),
            n <= i,
            n == d.take(i as int).filter(not_blank()).len(),
        decreases v.len() - i,
    {
        proof {
            reveal(Seq::filter);
            assert(d.take(i + 1).drop_last() =~= d.take(i as int));
            assert(d[i as int] == v@[i as int]@);
        }
        if !is_blank(v[i].as_str()) {
            n = n + 1;
        }
        i = i + 1;
    }
    assert(d.take(i as int) =~= d);
    n
}

fn count_bytes(v: &Vec<String>) -> (r: u128)
    ensures
        r == total_bytes(v.deep_view()),
{
    let ghost d = v.deep_view();
    let mut n: u128 = 0;
    let mut i: usize = 0;
    assert(d.take(0) =~= Seq::empty());
    while i < v.len()
        invariant
            d == v.deep_view(),
            i <= v@.len(),
            n == total_bytes(d.take(i as int)),
            n <= i * 0xffff_ffff_ffff_ffff,
        decreases v.len() - i,
    {
        assert(d.take(i + 1).drop_last() =~= d.take(i as int));
        assert(d.take(i + 1).last() == v@[i as int]@);
        assert(i < 0x1_0000_0000_0000_0000);
        n = n + text::byte_len(v[i].as_str()) as u128;
        i = i + 1;
    }
    assert(d.take(i as int) =~= d);
    n
}

/// What is wrong with the body of a memory.
pub fn lint_body(slug: &str, body: &str) -> (r: Vec<String>)
    ensures
        r.deep_view() == faults(slug@, body@),
{
    let (fact, why, how) = body_parts(body);
    let mut out: Vec<String> = Vec::new();
    let ghost f = faults(slug@, body@);
    let n = count_lines(&fact);
    if n == 0 {
        out.push(slug.to_owned().concat(": missing fact (the lines before **Why:**)"));
    } else if n > 5 {
        out.push(
            slug.to_owned().concat(": fact is ").concat(text::dec_of(n as u64).as_str()).concat(
                " lines — the cap is 5",
            ),
        );
    }
    let bytes: u128 = count_bytes(&fact);
    if bytes > FACT_MAX_BYTES as u128 {
        out.push(
            slug.to_owned().concat(": fact is ").concat(
                text::dec_wide_of(bytes).as_str(),
            ).concat(" bytes — the cap is ").concat(
                text::dec_of(FACT_MAX_BYTES as u64).as_str(),
            ),
        );
    }
    if is_blank(why.as_str()) {
        out.push(slug.to_owned().concat(": missing '**Why:**' section"));
    }
    if is_blank(how.as_str()) {
        out.push(slug.to_owned().concat(": missing '**How to apply:**' section"));
    }
    assert(out.deep_view() =~= f);
    out
}

// ---------- laws ----------

/// The fact begins and ends with a line that is not blank.
pub proof fn a_fact_has_no_blank_ends(body: Seq<char>)
    ensures
        fact(body).len() > 0 ==> !blank(fact(body)[0]) && !blank(fact(body).last()),
{
    let v = walk(text::lines(body)).fact;
    front_is_not_blank(v);
    back_is_not_blank(strip_front(v));
}

proof fn front_is_not_blank(v: Seq<Seq<char>>)
    ensures
        strip_front(v).len() > 0 ==> !blank(strip_front(v)[0]),
    decreases v.len(),
{
    if v.len() > 0 && blank(v[0]) {
        front_is_not_blank(v.drop_first());
    }
}

proof fn back_is_not_blank(v: Seq<Seq<char>>)
    ensures
        strip_back(v).len() > 0 ==> !blank(strip_back(v).last()) && strip_back(v)[0] == v[0],
    decreases v.len(),
{
    if v.len() > 0 && blank(v.last()) {
        back_is_not_blank(v.drop_last());
    }
}

} // verus!
