//! Which memories apply to a dispatch, in what order, and what it is told
//! of them.
use crate::memory;
use crate::memory::body;
use crate::memory::body::body_parts;
use crate::memory::quorum;
use crate::memory::quorum::retrieval_status;
use crate::memory::{Memory, MemoryView, Scope, ScopeView, LESSON_MAX_BYTES, LESSON_MAX_ENTRIES};
use crate::order;
use crate::text;
use vstd::prelude::*;

verus! {

// ---------- globs ----------

pub open spec fn double_star(p: Seq<char>) -> bool {
    p.len() >= 2 && p[0] == '*' && p[1] == '*'
}

/// What follows a `**`, without one slash.
pub open spec fn after_double(p: Seq<char>) -> Seq<char> {
    if p.len() > 2 && p[2] == '/' {
        p.skip(3)
    } else {
        p.skip(2)
    }
}

/// A pattern matches a whole path: `*` spans characters of a segment, `**`
/// spans segments, and `?` is one character of a segment.
pub open spec fn glob(p: Seq<char>, s: Seq<char>) -> bool
    decreases p.len(), s.len(),
{
    if p.len() == 0 {
        s.len() == 0
    } else if double_star(p) {
        glob(after_double(p), s) || (s.len() > 0 && glob(p, s.skip(1)))
    } else if p[0] == '*' {
        glob(p.skip(1), s) || (s.len() > 0 && s[0] != '/' && glob(p, s.skip(1)))
    } else if p[0] == '?' {
        s.len() > 0 && s[0] != '/' && glob(p.skip(1), s.skip(1))
    } else {
        s.len() > 0 && s[0] == p[0] && glob(p.skip(1), s.skip(1))
    }
}

fn glob_from(p: &[char], a: usize, s: &[char], b: usize) -> (r: bool)
    requires
        a <= p@.len(),
        b <= s@.len(),
    ensures
        r == glob(p@.skip(a as int), s@.skip(b as int)),
    decreases p@.len() - a,
{
    let ghost pp = p@.skip(a as int);
    if a >= p.len() {
        return b == s.len();
    }
    let c = p[a];
    assert(pp[0] == c);
    if c == '*' {
        let double = a + 1 < p.len() && p[a + 1] == '*';
        let next: usize = if !double {
            a + 1
        } else if a + 2 < p.len() && p[a + 2] == '/' {
            a + 3
        } else {
            a + 2
        };
        assert(double ==> after_double(pp) =~= p@.skip(next as int));
        assert(!double ==> pp.skip(1) =~= p@.skip(next as int));
        let mut i: usize = b;
        loop
            invariant
                a < next <= p@.len(),
                b <= i <= s@.len(),
                pp == p@.skip(a as int),
                pp.len() > 0,
                pp[0] == '*',
                double == double_star(pp),
                double ==> after_double(pp) == p@.skip(next as int),
                !double ==> pp.skip(1) == p@.skip(next as int),
                glob(pp, s@.skip(b as int)) == glob(pp, s@.skip(i as int)),
            decreases s@.len() - i,
        {
            if glob_from(p, next, s, i) {
                return true;
            }
            if i == s.len() {
                return false;
            }
            assert(s@.skip(i as int)[0] == s@[i as int]);
            assert(s@.skip(i as int).skip(1) =~= s@.skip(i + 1));
            if !double && s[i] == '/' {
                return false;
            }
            i = i + 1;
        }
    }
    assert(pp.skip(1) =~= p@.skip(a + 1));
    if b == s.len() {
        return false;
    }
    assert(s@.skip(b as int)[0] == s@[b as int]);
    assert(s@.skip(b as int).skip(1) =~= s@.skip(b + 1));
    if c == '?' {
        s[b] != '/' && glob_from(p, a + 1, s, b + 1)
    } else {
        s[b] == c && glob_from(p, a + 1, s, b + 1)
    }
}

/// A glob matches a whole path, from its first character to its last.
pub fn glob_match(pattern: &str, path: &str) -> (r: bool)
    ensures
        r == glob(pattern@, path@),
{
    let p = text::chars_of(pattern);
    let s = text::chars_of(path);
    assert(p@.skip(0) =~= p@);
    assert(s@.skip(0) =~= s@);
    glob_from(p.as_slice(), 0, s.as_slice(), 0)
}

// ---------- applicability ----------

/// What is known of the target of a dispatch.
#[derive(Clone, Debug, Default)]
pub struct MatchCtx {
    pub components: Vec<String>,
    /// Paths that the work is likely to touch.
    pub paths: Vec<String>,
    pub providers: Vec<String>,
    pub tags: Vec<String>,
}

pub struct CtxView {
    pub components: Seq<Seq<char>>,
    pub paths: Seq<Seq<char>>,
    pub providers: Seq<Seq<char>>,
    pub tags: Seq<Seq<char>>,
}

impl View for MatchCtx {
    type V = CtxView;

    open spec fn view(&self) -> CtxView {
        CtxView {
            components: self.components.deep_view(),
            paths: self.paths.deep_view(),
            providers: self.providers.deep_view(),
            tags: self.tags.deep_view(),
        }
    }
}

pub open spec fn share(a: Seq<Seq<char>>, b: Seq<Seq<char>>) -> bool {
    exists|i: int| 0 <= i < a.len() && b.contains(#[trigger] a[i])
}

pub open spec fn any_glob(globs: Seq<Seq<char>>, paths: Seq<Seq<char>>) -> bool {
    exists|i: int, j: int|
        0 <= i < globs.len() && 0 <= j < paths.len() && glob(
            #[trigger] globs[i],
            #[trigger] paths[j],
        )
}

/// A memory applies where any axis of its scope does.
pub open spec fn applies(s: ScopeView, c: CtxView) -> bool {
    s.project || share(s.components, c.components) || any_glob(s.paths, c.paths) || share(
        s.tags,
        c.tags,
    ) || share(s.providers, c.providers)
}

/// A listing is narrowed by the project, the component and the path alone.
pub open spec fn listed(s: ScopeView, c: CtxView) -> bool {
    s.project || share(s.components, c.components) || any_glob(s.paths, c.paths)
}

fn shares(a: &Vec<String>, b: &Vec<String>) -> (r: bool)
    ensures
        r == share(a.deep_view(), b.deep_view()),
{
    let ghost d = a.deep_view();
    let mut i: usize = 0;
    while i < a.len()
        invariant
            d == a.deep_view(),
            i <= a@.len(),
            forall|k: int| 0 <= k < i ==> !b.deep_view().contains(#[trigger] d[k]),
        decreases a.len() - i,
    {
        assert(d[i as int] == a@[i as int]@);
        if text::has_name(b, a[i].as_str()) {
            assert(b.deep_view().contains(d[i as int]));
            return true;
        }
        i = i + 1;
    }
    false
}

fn some_glob(globs: &Vec<String>, paths: &Vec<String>) -> (r: bool)
    ensures
        r == any_glob(globs.deep_view(), paths.deep_view()),
{
    let ghost g = globs.deep_view();
    let ghost d = paths.deep_view();
    let mut i: usize = 0;
    while i < globs.len()
        invariant
            g == globs.deep_view(),
            d == paths.deep_view(),
            i <= globs@.len(),
            forall|k: int, j: int|
                0 <= k < i && 0 <= j < d.len() ==> !glob(#[trigger] g[k], #[trigger] d[j]),
        decreases globs.len() - i,
    {
        assert(g[i as int] == globs@[i as int]@);
        let mut j: usize = 0;
        while j < paths.len()
            invariant
                g == globs.deep_view(),
                d == paths.deep_view(),
                i < globs@.len(),
                g[i as int] == globs@[i as int]@,
                j <= paths@.len(),
                forall|k: int|
                    0 <= k < j ==> !glob(g[i as int], #[trigger] d[k]),
            decreases paths.len() - j,
        {
            assert(d[j as int] == paths@[j as int]@);
            if glob_match(globs[i].as_str(), paths[j].as_str()) {
                assert(glob(g[i as int], d[j as int]));
                return true;
            }
            j = j + 1;
        }
        i = i + 1;
    }
    false
}

pub fn scope_applies(scope: &Scope, ctx: &MatchCtx) -> (r: bool)
    ensures
        r == applies(scope@, ctx@),
{
    scope.project || shares(&scope.components, &ctx.components) || some_glob(
        &scope.paths,
        &ctx.paths,
    ) || shares(&scope.tags, &ctx.tags) || shares(&scope.providers, &ctx.providers)
}

pub fn matches_ctx(scope: &Scope, ctx: &MatchCtx) -> (r: bool)
    ensures
        r == listed(scope@, ctx@),
{
    scope.project || shares(&scope.components, &ctx.components) || some_glob(
        &scope.paths,
        &ctx.paths,
    )
}

/// What a dispatch of an issue is matched by: its component, its tags, the
/// paths that its commits touched (each once, in order) and the provider.
pub fn issue_ctx(
    component: Option<&str>,
    tags: &Vec<String>,
    touched: &Vec<String>,
    provider: Option<&str>,
) -> (r: MatchCtx)
    ensures
        r@.components == opt_seq(component.deep_view()),
        r@.tags == tags.deep_view(),
        r@.paths == text::name_set(touched.deep_view()),
        r@.providers == opt_seq(provider.deep_view()),
{
    let ghost d = touched.deep_view();
    let mut paths: Vec<String> = Vec::new();
    let mut i: usize = 0;
    assert(d.take(0) =~= Seq::empty());
    assert(paths.deep_view() =~= text::name_set(d.take(0)));
    while i < touched.len()
        invariant
            d == touched.deep_view(),
            i <= touched@.len(),
            paths.deep_view() == text::name_set(d.take(i as int)),
            text::increasing(paths.deep_view()),
        decreases touched.len() - i,
    {
        assert(d.take(i + 1).drop_last() =~= d.take(i as int));
        assert(d.take(i + 1).last() == touched@[i as int]@);
        text::insert_name(&mut paths, touched[i].as_str());
        i = i + 1;
    }
    assert(d.take(i as int) =~= d);
    MatchCtx {
        components: one_or_none(component),
        paths,
        providers: one_or_none(provider),
        tags: text::copy_names(tags),
    }
}

pub open spec fn opt_seq(s: Option<Seq<char>>) -> Seq<Seq<char>> {
    match s {
        Some(x) => seq![x],
        None => seq![],
    }
}

fn one_or_none(s: Option<&str>) -> (r: Vec<String>)
    ensures
        r.deep_view() == opt_seq(s.deep_view()),
{
    let mut v: Vec<String> = Vec::new();
    if let Some(x) = s {
        v.push(x.to_owned());
    }
    assert(v.deep_view() =~= opt_seq(s.deep_view()));
    v
}

// ---------- ranking ----------

pub open spec fn type_rank(kind: Seq<char>) -> int {
    if kind == "rule"@ {
        0
    } else if kind == "gotcha"@ {
        1
    } else if kind == "recipe"@ {
        2
    } else {
        3
    }
}

pub open spec fn confidence_rank(c: Seq<char>) -> int {
    if c == "high"@ {
        0
    } else if c == "medium"@ {
        1
    } else {
        2
    }
}

pub open spec fn verified_at(m: MemoryView) -> Seq<char> {
    match m.front.verified_at {
        Some(v) => v,
        None => seq![],
    }
}

/// `a` does not come after `b`: by type, by confidence, the later verified
/// first, and by slug.
pub open spec fn not_after(a: MemoryView, b: MemoryView) -> bool {
    let (ta, tb) = (type_rank(a.front.kind), type_rank(b.front.kind));
    let (ca, cb) = (confidence_rank(a.front.confidence), confidence_rank(b.front.confidence));
    if ta != tb {
        ta < tb
    } else if ca != cb {
        ca < cb
    } else if verified_at(a) != verified_at(b) {
        text::lt(verified_at(b), verified_at(a))
    } else {
        text::le(a.front.id, b.front.id)
    }
}

pub open spec fn by_rank() -> spec_fn(MemoryView, MemoryView) -> bool {
    |a: MemoryView, b: MemoryView| not_after(a, b)
}

/// A memory that a context is told of.
pub open spec fn hits(c: CtxView) -> spec_fn(MemoryView) -> bool {
    |m: MemoryView| quorum::retrieval(m).0 && applies(m.front.scope, c)
}

fn type_rank_of(kind: &str) -> (r: u8)
    ensures
        r == type_rank(kind@),
{
    if text::eq(kind, "rule") {
        0
    } else if text::eq(kind, "gotcha") {
        1
    } else if text::eq(kind, "recipe") {
        2
    } else {
        3
    }
}

fn confidence_rank_of(c: &str) -> (r: u8)
    ensures
        r == confidence_rank(c@),
{
    if text::eq(c, "high") {
        0
    } else if text::eq(c, "medium") {
        1
    } else {
        2
    }
}

fn verified_at_of(m: &Memory) -> (r: String)
    ensures
        r@ == verified_at(m@),
{
    match &m.front.verified_at {
        Some(v) => v.clone(),
        None => {
            let e = String::new();
            assert(e@ =~= seq![]);
            e
        },
    }
}

fn is_not_after(a: &Memory, b: &Memory) -> (r: bool)
    ensures
        r == not_after(a@, b@),
{
    let ta: u8 = type_rank_of(a.front.kind.as_str());
    let tb: u8 = type_rank_of(b.front.kind.as_str());
    if ta != tb {
        return ta < tb;
    }
    let ca: u8 = confidence_rank_of(a.front.confidence.as_str());
    let cb: u8 = confidence_rank_of(b.front.confidence.as_str());
    if ca != cb {
        return ca < cb;
    }
    let va = verified_at_of(a);
    let vb = verified_at_of(b);
    if !text::eq(va.as_str(), vb.as_str()) {
        return text::less(vb.as_str(), va.as_str());
    }
    proof {
        text::lt_total(a@.front.id, b@.front.id);
    }
    !text::less(b.front.id.as_str(), a.front.id.as_str())
}

pub open spec fn picked(v: Seq<&Memory>) -> Seq<MemoryView> {
    v.map_values(|m: &Memory| m@)
}

/// The memories that a context is told of, in order: rules, gotchas,
/// recipes and decisions; high confidence first; the later verified first.
pub fn match_memories<'a>(pool: &'a Vec<Memory>, ctx: &MatchCtx) -> (r: Vec<&'a Memory>)
    ensures
        picked(r@) == order::sorted(memory::memories(pool@).filter(hits(ctx@)), by_rank()),
{
    let ghost d = memory::memories(pool@);
    let ghost f = hits(ctx@);
    let ghost le = by_rank();
    let mut out: Vec<&Memory> = Vec::new();
    let mut i: usize = 0;
    proof {
        reveal(Seq::filter);
        assert(d.take(0) =~= Seq::empty());
        assert(picked(out@) =~= Seq::empty());
    }
    while i < pool.len()
        invariant
            d == memory::memories(pool@),
            f == hits(ctx@),
            le == by_rank(),
            i <= pool@.len(),
            picked(out@) == order::sorted(d.take(i as int).filter(f), le),
        decreases pool.len() - i,
    {
        proof {
            reveal(Seq::filter);
            assert(d.take(i + 1).drop_last() =~= d.take(i as int));
            assert(d.take(i + 1).last() == pool@[i as int]@);
        }
        let m = &pool[i];
        let (ok, _why) = retrieval_status(m);
        if ok && scope_applies(&m.front.scope, ctx) {
            let ghost kept = d.take(i as int).filter(f);
            assert(kept.push(m@).drop_last() =~= kept);
            let ghost o = picked(out@);
            let ghost mv = m@;
            let mut k: usize = out.len();
            while k > 0 && !is_not_after(out[k - 1], m)
                invariant
                    le == by_rank(),
                    o == picked(out@),
                    mv == m@,
                    k <= out@.len(),
                    forall|j: int| k <= j < o.len() ==> !le(#[trigger] o[j], mv),
                decreases k,
            {
                assert(o[k - 1] == out@[k - 1]@);
                k = k - 1;
            }
            proof {
                if k > 0 {
                    assert(o[k - 1] == out@[k - 1]@);
                }
                order::insert_at(o, mv, le, k as int);
            }
            out.insert(k, m);
            assert(picked(out@) =~= o.insert(k as int, mv));
        }
        i = i + 1;
    }
    assert(d.take(i as int) =~= d);
    out
}

// ---------- lessons ----------

/// The memories that apply to a dispatch of an issue, out of those of its
/// project.
pub fn match_for_issue<'a>(
    component: Option<&str>,
    tags: &Vec<String>,
    touched: &Vec<String>,
    provider: Option<&str>,
    pool: &'a Vec<Memory>,
) -> (r: Vec<&'a Memory>)
    ensures
        picked(r@) == order::sorted(
            memory::memories(pool@).filter(
                hits(
                    (CtxView {
                        components: opt_seq(component.deep_view()),
                        paths: text::name_set(touched.deep_view()),
                        providers: opt_seq(provider.deep_view()),
                        tags: tags.deep_view(),
                    }),
                ),
            ),
            by_rank(),
        ),
{
    let ctx = issue_ctx(component, tags, touched, provider);
    match_memories(pool, &ctx)
}

pub open spec fn lesson(m: MemoryView) -> Seq<char> {
    "- `"@ + m.front.id + "` ("@ + m.front.kind + "): "@ + text::trim(
        text::join(body::fact(m.body), " "@),
    ) + "\n  apply: "@ + body::apply(m.body) + "\n"@
}

/// The lessons file as it grows: its text and the slugs in it.
pub struct Lessons {
    pub text: Seq<char>,
    pub slugs: Seq<Seq<char>>,
}

pub open spec fn bytes(s: Seq<char>) -> nat {
    vstd::utf8::encode_utf8(s).len()
}

/// The entries of a file that has room for `limit` bytes.
pub open spec fn lessons(v: Seq<MemoryView>, limit: int) -> Lessons
    decreases v.len(),
{
    if v.len() == 0 {
        Lessons { text: "# Lessons — matched project memories\n\n"@, slugs: seq![] }
    } else {
        let l = lessons(v.drop_last(), limit);
        let m = v.last();
        if bytes(l.text) + bytes(lesson(m)) > limit {
            l
        } else {
            Lessons { text: l.text + lesson(m), slugs: l.slugs.push(m.front.id) }
        }
    }
}

pub open spec fn at_most(v: Seq<MemoryView>, n: nat) -> Seq<MemoryView> {
    if v.len() > n {
        v.take(n as int)
    } else {
        v
    }
}

/// The note on what was left out.
pub open spec fn note(n: nat) -> Seq<char> {
    "\n("@ + text::dec(n) + " more matched — `cadence memory ls` lists them)\n"@
}

/// The file of `n` matched memories, of which some are in it: what was
/// left out is noted, and there is none where nothing is in it.
pub open spec fn noted(l: Lessons, n: nat) -> (Seq<char>, Seq<Seq<char>>) {
    if l.slugs.len() == 0 {
        (seq![], seq![])
    } else if l.slugs.len() < n {
        (l.text + note((n - l.slugs.len()) as nat), l.slugs)
    } else {
        (l.text, l.slugs)
    }
}

/// The lessons file of a dispatch: at most 12 entries and 4 KiB, the note
/// on a tail that was cut counted. Room for the note is kept back only
/// where it does not fit otherwise.
pub open spec fn lessons_file(v: Seq<MemoryView>) -> (Seq<char>, Seq<Seq<char>>) {
    let first = at_most(v, LESSON_MAX_ENTRIES as nat);
    let full = noted(lessons(first, LESSON_MAX_BYTES as int), v.len());
    if bytes(full.0) <= LESSON_MAX_BYTES {
        full
    } else {
        noted(lessons(first, LESSON_MAX_BYTES - bytes(note(v.len()))), v.len())
    }
}

fn lesson_of(m: &Memory) -> (r: String)
    ensures
        r@ == lesson(m@),
{
    let (fact, _why, _how) = body_parts(m.body.as_str());
    let fact = text::join_of(&fact, " ");
    let fact = text::trim_of(fact.as_str());
    let how = body::apply_line(m.body.as_str());
    "- `".to_owned().concat(m.front.id.as_str()).concat("` (").concat(m.front.kind.as_str()).concat(
        "): ",
    ).concat(fact.as_str()).concat("\n  apply: ").concat(how.as_str()).concat("\n")
}

fn note_of(n: usize) -> (r: String)
    ensures
        r@ == note(n as nat),
{
    "\n(".to_owned().concat(text::dec_of(n as u64).as_str()).concat(
        " more matched — `cadence memory ls` lists them)\n",
    )
}

/// The file with `room` bytes of its size kept back.
fn render_within(matched: &Vec<&Memory>, room: usize) -> (r: (String, Vec<String>))
    ensures
        (r.0@, r.1.deep_view()) == noted(
            lessons(
                at_most(picked(matched@), LESSON_MAX_ENTRIES as nat),
                LESSON_MAX_BYTES - room,
            ),
            picked(matched@).len(),
        ),
{
    let ghost d = picked(matched@);
    let ghost limit = LESSON_MAX_BYTES - room;
    let n: usize = if matched.len() > LESSON_MAX_ENTRIES {
        LESSON_MAX_ENTRIES
    } else {
        matched.len()
    };
    let ghost kept = at_most(d, LESSON_MAX_ENTRIES as nat);
    assert(kept =~= d.take(n as int));
    let mut out = "# Lessons — matched project memories\n\n".to_owned();
    let mut slugs: Vec<String> = Vec::new();
    let mut i: usize = 0;
    assert(d.take(0) =~= Seq::empty());
    assert(slugs.deep_view() =~= seq![]);
    while i < n
        invariant
            d == picked(matched@),
            limit == LESSON_MAX_BYTES - room,
            i <= n <= matched@.len(),
            slugs@.len() <= i,
            out@ == lessons(d.take(i as int), limit).text,
            slugs.deep_view() == lessons(d.take(i as int), limit).slugs,
        decreases n - i,
    {
        assert(d.take(i + 1).drop_last() =~= d.take(i as int));
        let m = matched[i];
        assert(d.take(i + 1).last() == m@);
        let entry = lesson_of(m);
        let used: usize = text::byte_len(out.as_str());
        let more: usize = text::byte_len(entry.as_str());
        if room <= LESSON_MAX_BYTES && used <= LESSON_MAX_BYTES - room && more <= LESSON_MAX_BYTES
            - room - used {
            let ghost o = slugs.deep_view();
            out = out.concat(entry.as_str());
            slugs.push(m.front.id.clone());
            assert(slugs.deep_view() =~= o.push(m@.front.id));
        }
        i = i + 1;
    }
    assert(slugs.deep_view().len() == slugs@.len());
    if slugs.len() == 0 {
        let e = String::new();
        let none: Vec<String> = Vec::new();
        assert(e@ =~= seq![]);
        assert(none.deep_view() =~= seq![]);
        return (e, none);
    }
    if slugs.len() < matched.len() {
        out = out.concat(note_of(matched.len() - slugs.len()).as_str());
        assert(out@ =~= lessons(kept, limit).text + note((d.len() - slugs@.len()) as nat));
    }
    (out, slugs)
}

/// Renders the lessons file, with the slugs that are in it.
pub fn render_lessons(matched: &Vec<&Memory>) -> (r: (String, Vec<String>))
    ensures
        (r.0@, r.1.deep_view()) == lessons_file(picked(matched@)),
        bytes(r.0@) <= LESSON_MAX_BYTES,
        r.1@.len() <= LESSON_MAX_ENTRIES,
{
    proof {
        lessons_stay_small(picked(matched@));
    }
    let full = render_within(matched, 0);
    if text::byte_len(full.0.as_str()) <= LESSON_MAX_BYTES {
        assert(full.1.deep_view().len() == full.1@.len());
        return full;
    }
    let note = note_of(matched.len());
    let r = render_within(matched, text::byte_len(note.as_str()));
    assert(r.1.deep_view().len() == r.1@.len());
    r
}

// ---------- rules ----------

/// A rule of the whole project that may be retrieved.
pub open spec fn project_rule() -> spec_fn(MemoryView) -> bool {
    |m: MemoryView| quorum::retrieval(m).0 && m.front.scope.project && m.front.kind == "rule"@
}

pub open spec fn by_slug() -> spec_fn(MemoryView, MemoryView) -> bool {
    |a: MemoryView, b: MemoryView| text::le(a.front.id, b.front.id)
}

pub(crate) fn place_by_slug<'a>(v: &mut Vec<&'a Memory>, m: &'a Memory)
    ensures
        picked(final(v)@) == order::insert(picked(old(v)@), m@, by_slug()),
{
    let ghost o = picked(v@);
    let ghost le = by_slug();
    let ghost mv = m@;
    let mut k: usize = v.len();
    while k > 0 && text::less(m.front.id.as_str(), v[k - 1].front.id.as_str())
        invariant
            le == by_slug(),
            o == picked(v@),
            mv == m@,
            k <= v@.len(),
            forall|j: int| k <= j < o.len() ==> !le(#[trigger] o[j], mv),
        decreases k,
    {
        assert(o[k - 1] == v@[k - 1]@);
        proof {
            text::lt_total(o[k - 1].front.id, mv.front.id);
        }
        k = k - 1;
    }
    proof {
        if k > 0 {
            assert(o[k - 1] == v@[k - 1]@);
            text::lt_total(o[k - 1].front.id, mv.front.id);
        }
        order::insert_at(o, mv, le, k as int);
    }
    v.insert(k, m);
    assert(picked(v@) =~= o.insert(k as int, mv));
}

/// The rules of a project, for its briefing.
pub fn project_rules<'a>(pool: &'a Vec<Memory>) -> (r: Vec<&'a Memory>)
    ensures
        picked(r@) == order::sorted(memory::memories(pool@).filter(project_rule()), by_slug()),
{
    let ghost d = memory::memories(pool@);
    let ghost f = project_rule();
    let mut out: Vec<&Memory> = Vec::new();
    let mut i: usize = 0;
    proof {
        reveal(Seq::filter);
        assert(d.take(0) =~= Seq::empty());
        assert(picked(out@) =~= Seq::empty());
    }
    while i < pool.len()
        invariant
            d == memory::memories(pool@),
            f == project_rule(),
            i <= pool@.len(),
            picked(out@) == order::sorted(d.take(i as int).filter(f), by_slug()),
        decreases pool.len() - i,
    {
        proof {
            reveal(Seq::filter);
            assert(d.take(i + 1).drop_last() =~= d.take(i as int));
            assert(d.take(i + 1).last() == pool@[i as int]@);
        }
        let m = &pool[i];
        let (ok, _why) = retrieval_status(m);
        if ok && m.front.scope.project && text::eq(m.front.kind.as_str(), "rule") {
            let ghost kept = d.take(i as int).filter(f);
            assert(kept.push(m@).drop_last() =~= kept);
            place_by_slug(&mut out, m);
        }
        i = i + 1;
    }
    assert(d.take(i as int) =~= d);
    out
}

// ---------- laws ----------

/// A pattern without wildcards matches itself alone.
pub proof fn plain_globs_match_themselves(p: Seq<char>, s: Seq<char>)
    requires
        forall|i: int| 0 <= i < p.len() ==> p[i] != '*' && p[i] != '?',
    ensures
        glob(p, s) <==> p == s,
    decreases p.len(),
{
    if p.len() > 0 {
        if s.len() > 0 {
            plain_globs_match_themselves(p.skip(1), s.skip(1));
            if p.skip(1) == s.skip(1) && p[0] == s[0] {
                assert forall|i: int| 0 <= i < p.len() implies p[i] == s[i] by {
                    if i > 0 {
                        assert(p.skip(1)[i - 1] == s.skip(1)[i - 1]);
                    }
                }
                assert(p.len() == s.len()) by {
                    assert(p.skip(1).len() == s.skip(1).len());
                }
                assert(p =~= s);
            }
        }
    } else {
        assert(s.len() == 0 ==> p =~= s);
    }
}

/// One `*` alone matches whatever has no slash.
pub proof fn a_star_stays_in_its_segment(s: Seq<char>)
    ensures
        glob(seq!['*'], s) <==> !s.contains('/'),
    decreases s.len(),
{
    let p = seq!['*'];
    assert(p.skip(1) =~= Seq::empty());
    assert(!double_star(p));
    assert(glob(p.skip(1), s) == (s.len() == 0));
    if s.len() > 0 {
        a_star_stays_in_its_segment(s.skip(1));
        if s.contains('/') && s[0] != '/' {
            let k = choose|k: int| 0 <= k < s.len() && s[k] == '/';
            assert(s.skip(1)[k - 1] == '/');
        }
        if s.skip(1).contains('/') {
            let k = choose|k: int| 0 <= k < s.skip(1).len() && s.skip(1)[k] == '/';
            assert(s[k + 1] == '/');
        }
    }
}

/// One `?` takes one character, whatever it is, but no slash.
pub proof fn a_question_mark_takes_one_character(s: Seq<char>)
    ensures
        glob(seq!['?'], s) <==> s.len() == 1 && s[0] != '/',
{
    let p = seq!['?'];
    assert(p.skip(1) =~= Seq::empty());
    if s.len() > 0 {
        assert(glob(p.skip(1), s.skip(1)) == (s.skip(1).len() == 0));
    }
}

/// `**` alone matches every path.
pub proof fn a_double_star_matches_all(s: Seq<char>)
    ensures
        glob(seq!['*', '*'], s),
    decreases s.len(),
{
    let p = seq!['*', '*'];
    assert(after_double(p) =~= Seq::empty());
    assert(glob(after_double(p), s) == (s.len() == 0));
    if s.len() > 0 {
        a_double_star_matches_all(s.skip(1));
    }
}

/// Only what may be retrieved is matched.
pub proof fn only_retrievable_memories_match(pool: Seq<MemoryView>, c: CtxView, i: int)
    requires
        0 <= i < pool.filter(hits(c)).len(),
    ensures
        quorum::retrieval(pool.filter(hits(c))[i]).0,
        pool.contains(pool.filter(hits(c))[i]),
{
    picked_from(pool, hits(c), i);
}

pub(crate) proof fn picked_has(pool: Seq<MemoryView>, f: spec_fn(MemoryView) -> bool, i: int)
    requires
        0 <= i < pool.len(),
        f(pool[i]),
    ensures
        pool.filter(f).contains(pool[i]),
    decreases pool.len(),
{
    reveal(Seq::filter);
    let rest = pool.drop_last();
    let w = rest.filter(f);
    if i < pool.len() - 1 {
        assert(rest[i] == pool[i]);
        picked_has(rest, f, i);
        let k = choose|k: int| 0 <= k < w.len() && w[k] == pool[i];
        if f(pool.last()) {
            assert(w.push(pool.last())[k] == pool[i]);
        }
    } else {
        assert(w.push(pool.last())[w.len() as int] == pool[i]);
    }
}

pub(crate) proof fn picked_from(pool: Seq<MemoryView>, f: spec_fn(MemoryView) -> bool, i: int)
    requires
        0 <= i < pool.filter(f).len(),
    ensures
        f(pool.filter(f)[i]),
        pool.contains(pool.filter(f)[i]),
    decreases pool.len(),
{
    reveal(Seq::filter);
    let rest = pool.drop_last();
    if i < rest.filter(f).len() {
        picked_from(rest, f, i);
        let k = choose|k: int| 0 <= k < rest.len() && rest[k] == rest.filter(f)[i];
        assert(pool[k] == rest.filter(f)[i]);
    } else {
        assert(pool[pool.len() - 1] == pool.last());
    }
}

proof fn entries_fit(v: Seq<MemoryView>, limit: int)
    ensures
        lessons(v, limit).slugs.len() > 0 ==> bytes(lessons(v, limit).text) <= limit,
        lessons(v, limit).slugs.len() <= v.len(),
    decreases v.len(),
{
    if v.len() > 0 {
        entries_fit(v.drop_last(), limit);
        let l = lessons(v.drop_last(), limit);
        let m = v.last();
        if bytes(l.text) + bytes(lesson(m)) <= limit {
            text::bytes_add(l.text, lesson(m));
        }
    }
}

proof fn notes_grow(a: nat, b: nat)
    requires
        a <= b,
    ensures
        bytes(note(a)) <= bytes(note(b)),
{
    let end = " more matched — `cadence memory ls` lists them)\n"@;
    text::dec_grows(a, b);
    text::bytes_add("\n("@, text::dec(a));
    text::bytes_add("\n("@, text::dec(b));
    text::bytes_add("\n("@ + text::dec(a), end);
    text::bytes_add("\n("@ + text::dec(b), end);
}

/// A lessons file stays within its size, the note of a cut tail counted,
/// and holds at most 12 entries.
pub proof fn lessons_stay_small(v: Seq<MemoryView>)
    ensures
        bytes(lessons_file(v).0) <= LESSON_MAX_BYTES,
        lessons_file(v).1.len() <= LESSON_MAX_ENTRIES,
        lessons_file(v).1.len() <= v.len(),
        lessons_file(v).1.len() == 0 ==> lessons_file(v).0.len() == 0,
{
    let first = at_most(v, LESSON_MAX_ENTRIES as nat);
    let limit = LESSON_MAX_BYTES - bytes(note(v.len()));
    entries_fit(first, LESSON_MAX_BYTES as int);
    entries_fit(first, limit);
    let l = lessons(first, limit);
    if l.slugs.len() > 0 {
        let n = (v.len() - l.slugs.len()) as nat;
        notes_grow(n, v.len());
        text::bytes_add(l.text, note(n));
    }
}

} // verus!
