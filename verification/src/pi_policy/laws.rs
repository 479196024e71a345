//! Which models and packages pi may load, told by the operator's policy and
//! what is installed.
use crate::hash;
use crate::json;
use crate::json::JsonView;
use crate::model_defaults;
use crate::paths;
use crate::pi_policy;
use crate::pi_policy::package;
use crate::pi_policy::package::{ContentView, EntryView, FactsView, PackView, PinView};
use crate::pi_policy::ModelsView;
use crate::text;
use crate::text_laws;
use vstd::prelude::*;

verus! {

// ---------- models ----------

/// The operator lets the role use the model: by the role's own list where
/// there is one, else by the common one.
pub open spec fn lets(m: ModelsView, role: Seq<char>, model: Seq<char>) -> bool {
    if role == "master"@ {
        match m.master_allow {
            Some(v) => v.contains(model),
            None => m.allow.contains(model),
        }
    } else {
        match m.worker_allow {
            Some(v) => v.contains(model),
            None => m.allow.contains(model),
        }
    }
}

/// A launch runs the model asked for, where the operator lets it, and is
/// refused where not.
pub proof fn an_asked_model_is_run_where_let(m: ModelsView, role: Seq<char>, model: Seq<char>)
    ensures
        pi_policy::launch(Some(m), role, Some(model)) is Ok <==> lets(m, role, model),
        lets(m, role, model) ==> pi_policy::launch(Some(m), role, Some(model)) == Ok::<
            Seq<char>,
            Seq<char>,
        >(model),
        pi_policy::refusal(Some(m), role, model) is None <==> lets(m, role, model),
{
}

/// A launch that asks for none runs the role's default, where there is one
/// and the operator lets it.
pub proof fn the_default_model_is_run_where_let(m: ModelsView, role: Seq<char>)
    ensures
        ({
            let d = if role == "master"@ {
                m.master
            } else {
                m.worker
            };
            &&& d is None ==> pi_policy::launch(Some(m), role, None) is Err
            &&& d matches Some(x) ==> (pi_policy::launch(Some(m), role, None) is Ok <==> lets(
                m,
                role,
                x,
            ))
            &&& pi_policy::launch(Some(m), role, None) matches Ok(x) ==> d == Some(x)
        }),
{
}

/// A model as the table may hold it: an id without white space around it.
pub open spec fn good_model(model: Seq<char>) -> bool {
    text::trim(model) == model && model_defaults::model_id(model) is Ok
}

pub open spec fn good_models(v: Seq<Seq<char>>) -> bool {
    forall|i: int| 0 <= i < v.len() ==> good_model(#[trigger] v[i])
}

proof fn models_are_good(v: Seq<Seq<char>>)
    ensures
        pi_policy::models_fault(v) is None <==> good_models(v),
    decreases v.len(),
{
    if v.len() > 0 {
        let w = v.drop_first();
        models_are_good(w);
        assert(forall|i: int| 0 < i < v.len() ==> #[trigger] v[i] == w[i - 1]);
        assert((pi_policy::model_fault(v[0]) is None) == good_model(v[0]));
        if good_models(v) {
            assert forall|i: int| 0 <= i < w.len() implies good_model(#[trigger] w[i]) by {
                assert(w[i] == v[i + 1]);
            }
        }
        if good_model(v[0]) && good_models(w) {
            assert forall|i: int| 0 <= i < v.len() implies good_model(#[trigger] v[i]) by {
                if i > 0 {
                    assert(good_model(w[i - 1]));
                }
            }
        }
    }
}

proof fn pins_are_good(v: Seq<Seq<char>>)
    ensures
        pi_policy::pins_fault(v) is None <==> forall|i: int|
            0 <= i < v.len() ==> package::pin(#[trigger] v[i]) is Ok,
    decreases v.len(),
{
    if v.len() > 0 {
        let w = v.drop_first();
        pins_are_good(w);
        assert(forall|i: int| 0 < i < v.len() ==> #[trigger] v[i] == w[i - 1]);
        if forall|i: int| 0 <= i < v.len() ==> package::pin(#[trigger] v[i]) is Ok {
            assert forall|i: int| 0 <= i < w.len() implies package::pin(#[trigger] w[i]) is Ok by {
                assert(w[i] == v[i + 1]);
            }
        }
        if package::pin(v[0]) is Ok && pi_policy::pins_fault(w) is None {
            assert forall|i: int| 0 <= i < v.len() implies package::pin(#[trigger] v[i]) is Ok by {
                if i > 0 {
                    assert(package::pin(w[i - 1]) is Ok);
                }
            }
        }
    }
}

/// A policy is accepted exactly where every model and every pin in it is
/// good.
pub proof fn what_policy_is_accepted(m: ModelsView, providers: Seq<Seq<char>>)
    ensures
        pi_policy::table_fault(m, providers) is None <==> {
            &&& good_models(m.allow)
            &&& m.master_allow matches Some(v) ==> good_models(v)
            &&& m.worker_allow matches Some(v) ==> good_models(v)
            &&& m.master matches Some(x) ==> good_model(x)
            &&& m.worker matches Some(x) ==> good_model(x)
            &&& forall|i: int|
                0 <= i < providers.len() ==> package::pin(#[trigger] providers[i]) is Ok
        },
{
    models_are_good(m.allow);
    models_are_good(pi_policy::opt_list(m.master_allow));
    models_are_good(pi_policy::opt_list(m.worker_allow));
    models_are_good(pi_policy::opt_one(m.master));
    models_are_good(pi_policy::opt_one(m.worker));
    pins_are_good(providers);
    if let Some(x) = m.master {
        assert(seq![x][0] == x);
        assert(good_models(seq![x]) == good_model(x));
    }
    if let Some(x) = m.worker {
        assert(seq![x][0] == x);
        assert(good_models(seq![x]) == good_model(x));
    }
}

// ---------- pins ----------

/// A step of a package name: letters, digits, dots, dashes and underscores,
/// but no path back.
pub open spec fn good_step(s: Seq<char>) -> bool {
    &&& s.len() > 0
    &&& s != "."@
    &&& s != ".."@
    &&& forall|i: int|
        0 <= i < s.len() ==> text::ascii_alnum(#[trigger] s[i]) || s[i] == '.' || s[i] == '-'
            || s[i] == '_'
}

/// A version: letters, digits, dots, dashes, underscores and plus signs.
pub open spec fn good_version(v: Seq<char>) -> bool {
    v.len() > 0 && forall|i: int|
        0 <= i < v.len() ==> text::ascii_alnum(#[trigger] v[i]) || v[i] == '.' || v[i] == '-'
            || v[i] == '_' || v[i] == '+'
}

/// A content pin: `sha256-` and 64 small hex digits.
pub open spec fn good_digest(d: Seq<char>) -> bool {
    exists|h: Seq<char>|
        d == "sha256-"@ + h && h.len() == 64 && forall|i: int|
            0 <= i < h.len() ==> ('0' <= #[trigger] h[i] <= '9' || 'a' <= h[i] <= 'f')
}

proof fn step_is_good(s: Seq<char>)
    ensures
        package::segment_ok(s) == good_step(s),
        good_step(s) ==> !s.contains('/') && !s.contains('@'),
{
    if good_step(s) {
        assert forall|i: int| 0 <= i < s.len() implies package::name_char(#[trigger] s[i]) by {}
    }
    if package::segment_ok(s) {
        assert forall|i: int| 0 <= i < s.len() implies text::ascii_alnum(#[trigger] s[i]) || s[i]
            == '.' || s[i] == '-' || s[i] == '_' by {
            assert(package::name_char(s[i]));
        }
    }
}

/// A package name without a scope is one step.
pub proof fn a_plain_name_is_one_step(name: Seq<char>)
    requires
        !name.contains('/'),
        name.len() > 0 ==> name[0] != '@',
    ensures
        package::name_ok(name) <==> good_step(name),
{
    text_laws::one_piece(name, '/');
    step_is_good(name);
    let v = seq![name];
    assert(v[0] == name);
    if package::name_ok(name) {
        assert(package::segment_ok(text::split(name, '/')[0]));
    }
}

/// A package name with a scope is two steps behind an at sign.
pub proof fn a_scoped_name_is_two_steps(scope: Seq<char>, name: Seq<char>)
    requires
        !scope.contains('/'),
        !name.contains('/'),
    ensures
        package::name_ok(seq!['@'] + scope + seq!['/'] + name) <==> good_step(scope) && good_step(
            name,
        ),
{
    let full = seq!['@'] + scope + seq!['/'] + name;
    assert(full.drop_first() =~= scope + seq!['/'] + name);
    text_laws::the_first_piece_stands_alone(scope, name, '/');
    text_laws::one_piece(name, '/');
    step_is_good(scope);
    step_is_good(name);
    let v = text::split(package::unscoped(full), '/');
    assert(v =~= seq![scope, name]);
    assert(v[0] == scope && v[1] == name);
}

proof fn no_mark(v: Seq<char>, c: char)
    requires
        good_version(v),
        c == '@' || c == '#',
    ensures
        !v.contains(c),
{
    if v.contains(c) {
        let i = choose|i: int| 0 <= i < v.len() && v[i] == c;
        assert(text::ascii_alnum(v[i]) || v[i] == '.' || v[i] == '-' || v[i] == '_' || v[i] == '+');
    }
}

proof fn digest_is_good(d: Seq<char>)
    ensures
        package::digest_ok(d) == good_digest(d),
        good_digest(d) ==> !d.contains('@'),
{
    reveal_strlit("sha256-");
    if package::digest_ok(d) {
        let h = d.skip(7);
        assert(d =~= d.subrange(0, 7) + h);
        assert forall|i: int| 0 <= i < h.len() implies ('0' <= #[trigger] h[i] <= '9' || 'a' <= h[i]
            <= 'f') by {
            assert(hash::lower_hex(d[i + 7]));
        }
        assert(good_digest(d));
    }
    if good_digest(d) {
        let h = choose|h: Seq<char>|
            d == "sha256-"@ + h && h.len() == 64 && forall|i: int|
                0 <= i < h.len() ==> ('0' <= #[trigger] h[i] <= '9' || 'a' <= h[i] <= 'f');
        assert(d.subrange(0, 7) =~= "sha256-"@);
        assert forall|i: int| 7 <= i < d.len() implies hash::lower_hex(#[trigger] d[i]) by {
            assert(d[i] == h[i - 7]);
        }
        assert forall|i: int| 0 <= i < d.len() implies d[i] != '@' by {
            if i < 7 {
                assert(d[i] == "sha256-"@[i]);
            } else {
                assert(d[i] == h[i - 7]);
            }
        }
    }
}

/// A pin is a package name, an at sign and a version; it may have a content
/// digest behind a hash sign.
pub proof fn what_a_pin_says(name: Seq<char>, version: Seq<char>, digest: Seq<char>)
    requires
        good_version(version),
    ensures
        package::pin(name + seq!['@'] + version) is Ok <==> package::name_ok(name),
        package::name_ok(name) ==> package::pin(name + seq!['@'] + version) == Ok::<
            PinView,
            Seq<char>,
        >(PinView { name, version, digest: None }),
        !digest.contains('@') ==> {
            let full = name + seq!['@'] + version + seq!['#'] + digest;
            &&& package::pin(full) is Ok <==> package::name_ok(name) && good_digest(digest)
            &&& package::pin(full) matches Ok(p) ==> p == (PinView {
                name,
                version,
                digest: Some(digest),
            })
        },
{
    no_mark(version, '@');
    no_mark(version, '#');
    digest_is_good(digest);
    assert forall|i: int| 0 <= i < version.len() implies package::name_char(#[trigger] version[i])
        || version[i] == '+' by {}
    let plain = name + seq!['@'] + version;
    text::after_last_found(plain, name, version, '@');
    text::first_missing(version, '#');
    assert(plain.take(plain.len() - version.len() - 1) =~= name);
    if !digest.contains('@') {
        let rest = version + seq!['#'] + digest;
        let full = name + seq!['@'] + version + seq!['#'] + digest;
        assert(full =~= name + seq!['@'] + rest);
        assert forall|i: int| 0 <= i < rest.len() implies rest[i] != '@' by {
            if i < version.len() {
                assert(version.contains(version[i]));
            } else if i > version.len() {
                assert(rest[i] == digest[i - version.len() - 1]);
                assert(digest.contains(digest[i - version.len() - 1]));
            }
        }
        assert(!rest.contains('@'));
        text::after_last_found(full, name, rest, '@');
        text::first_found(rest, version, digest, '#');
        assert(full.take(full.len() - rest.len() - 1) =~= name);
    }
}

/// Without an at sign nothing is pinned.
pub proof fn a_pin_needs_its_mark(spec: Seq<char>)
    requires
        !spec.contains('@'),
    ensures
        package::pin(spec) is Err,
{
    text::after_last_missing(spec, '@');
}

// ---------- content ----------

proof fn low_bytes_differ(a: nat, b: nat, k: nat)
    requires
        package::low_bytes(a, k) == package::low_bytes(b, k),
        a < b ==> k > 0,
    ensures
        k > 0 ==> a % 256 == b % 256 && package::low_bytes(a / 256, (k - 1) as nat)
            == package::low_bytes(b / 256, (k - 1) as nat),
{
    if k > 0 {
        let x = package::low_bytes(a, k);
        let y = package::low_bytes(b, k);
        assert(x[0] == (a % 256) as u8 && y[0] == (b % 256) as u8);
        assert(x.skip(1) =~= package::low_bytes(a / 256, (k - 1) as nat));
        assert(y.skip(1) =~= package::low_bytes(b / 256, (k - 1) as nat));
    }
}

proof fn low_bytes_len(n: nat, k: nat)
    ensures
        package::low_bytes(n, k).len() == k,
    decreases k,
{
    if k > 0 {
        low_bytes_len(n / 256, (k - 1) as nat);
    }
}

proof fn same_length(a: u64, b: u64)
    requires
        package::low_bytes(a as nat, 8) == package::low_bytes(b as nat, 8),
    ensures
        a == b,
{
    let (x, y): (nat, nat) = (a as nat, b as nat);
    low_bytes_differ(x, y, 8);
    let (x1, y1) = (x / 256, y / 256);
    low_bytes_differ(x1, y1, 7);
    let (x2, y2) = (x1 / 256, y1 / 256);
    low_bytes_differ(x2, y2, 6);
    let (x3, y3) = (x2 / 256, y2 / 256);
    low_bytes_differ(x3, y3, 5);
    let (x4, y4) = (x3 / 256, y3 / 256);
    low_bytes_differ(x4, y4, 4);
    let (x5, y5) = (x4 / 256, y4 / 256);
    low_bytes_differ(x5, y5, 3);
    let (x6, y6) = (x5 / 256, y5 / 256);
    low_bytes_differ(x6, y6, 2);
    let (x7, y7) = (x6 / 256, y6 / 256);
    low_bytes_differ(x7, y7, 1);
    assert(x7 / 256 == 0 && y7 / 256 == 0);
}

/// A file that changed in length or content, or that became a link, and a
/// link that leads elsewhere, enters the digest with other bytes.
pub proof fn changed_content_has_other_bytes(rel: Seq<char>, a: ContentView, b: ContentView)
    requires
        a != b,
    ensures
        package::frame(PackView { rel, content: a }) != package::frame(
            PackView { rel, content: b },
        ),
{
    let fa = package::frame(PackView { rel, content: a });
    let fb = package::frame(PackView { rel, content: b });
    if fa == fb {
        let r = vstd::utf8::encode_utf8(rel);
        let h = 2 + r.len() as int;
        match (a, b) {
            (ContentView::File(m, x), ContentView::File(n, y)) => {
                low_bytes_len(m as nat, 8);
                low_bytes_len(n as nat, 8);
                assert(fa.subrange(h, h + 8) =~= package::low_bytes(m as nat, 8));
                assert(fb.subrange(h, h + 8) =~= package::low_bytes(n as nat, 8));
                same_length(m, n);
                assert(fa.skip(h + 8) =~= x);
                assert(fb.skip(h + 8) =~= y);
            },
            (ContentView::Link(s), ContentView::Link(t)) => {
                assert(fa.skip(h) =~= vstd::utf8::encode_utf8(s));
                assert(fb.skip(h) =~= vstd::utf8::encode_utf8(t));
                vstd::utf8::encode_utf8_decode_utf8(s);
                vstd::utf8::encode_utf8_decode_utf8(t);
            },
            _ => {
                assert(fa[0] != fb[0]);
            },
        }
        assert(false);
    }
}

/// Every file of the package is in what is hashed, behind the one before.
pub proof fn every_file_is_hashed(v: Seq<PackView>, x: PackView)
    ensures
        package::frames(v.push(x)) == package::frames(v) + package::frame(x),
        package::frames(seq![]).len() == 0,
        package::frame(x).len() > 0,
        package::covered()(x) <==> forall|i: int|
            0 <= i < text::split(x.rel, '/').len() ==> #[trigger] text::split(x.rel, '/')[i]
                != "node_modules"@,
{
    assert(v.push(x).drop_last() =~= v);
    let p = text::split(x.rel, '/');
    if p.contains("node_modules"@) {
        let i = choose|i: int| 0 <= i < p.len() && p[i] == "node_modules"@;
        assert(p[i] == "node_modules"@);
    } else {
        assert forall|i: int| 0 <= i < p.len() implies #[trigger] p[i] != "node_modules"@ by {
            assert(p.contains(p[i]));
        }
    }
}

// ---------- packages ----------

/// An entry of a package may load: a relative path without a step back, that
/// is a file and leads to one in the package.
pub open spec fn loads(dir: Seq<char>, e: JsonView, facts: Seq<EntryView>, i: int) -> bool {
    &&& e is Str
    &&& !(e->Str_0.len() > 0 && e->Str_0[0] == '/')
    &&& forall|k: int|
        0 <= k < paths::parts(e->Str_0).len() ==> #[trigger] paths::parts(e->Str_0)[k] != ".."@
    &&& i < facts.len()
    &&& facts[i].is_file
    &&& facts[i].target matches Some(t) && paths::under(paths::parts(t), paths::parts(dir))
}

proof fn entry_loads(dir: Seq<char>, rel: Seq<char>, f: EntryView)
    ensures
        package::entry_real(dir, rel, f) is Ok <==> {
            &&& !(rel.len() > 0 && rel[0] == '/')
            &&& forall|k: int|
                0 <= k < paths::parts(rel).len() ==> #[trigger] paths::parts(rel)[k] != ".."@
            &&& f.is_file
            &&& f.target matches Some(t) && paths::under(paths::parts(t), paths::parts(dir))
        },
        package::entry_real(dir, rel, f) matches Ok(t) ==> f.target == Some(t),
{
    let p = paths::parts(rel);
    if p.contains(".."@) {
        let k = choose|k: int| 0 <= k < p.len() && p[k] == ".."@;
        assert(p[k] == ".."@);
    } else {
        assert forall|k: int| 0 <= k < p.len() implies #[trigger] p[k] != ".."@ by {
            assert(p.contains(p[k]));
        }
    }
}

proof fn entries_load(
    spec: Seq<char>,
    dir: Seq<char>,
    entries: Seq<JsonView>,
    facts: Seq<EntryView>,
)
    ensures
        package::entries_real(spec, dir, entries, facts) is Ok <==> forall|i: int|
            0 <= i < entries.len() ==> loads(dir, #[trigger] entries[i], facts, i),
        package::entries_real(spec, dir, entries, facts) matches Ok(v) ==> v.len() == entries.len()
            && forall|i: int| 0 <= i < v.len() ==> facts[i].target == Some(#[trigger] v[i]),
    decreases entries.len(),
{
    if entries.len() > 0 {
        let w = entries.drop_last();
        let last = entries.len() - 1;
        entries_load(spec, dir, w, facts);
        assert(forall|i: int| 0 <= i < w.len() ==> #[trigger] entries[i] == w[i]);
        assert(entries[last] == entries.last());
        if let JsonView::Str(rel) = entries.last() {
            entry_loads(dir, rel, package::fact_at(facts, last));
            assert((package::entry_real(dir, rel, package::fact_at(facts, last)) is Ok) == loads(
                dir,
                entries[last],
                facts,
                last,
            ));
        }
        if forall|i: int|
            0 <= i < entries.len() ==> loads(dir, #[trigger] entries[i], facts, i) {
            assert forall|i: int| 0 <= i < w.len() implies loads(
                dir,
                #[trigger] w[i],
                facts,
                i,
            ) by {
                assert(entries[i] == w[i]);
            }
        }
        if let Ok(v) = package::entries_real(spec, dir, entries, facts) {
            let u = package::entries_real(spec, dir, w, facts)->Ok_0;
            assert forall|i: int| 0 <= i < v.len() implies facts[i].target == Some(
                #[trigger] v[i],
            ) by {
                if i < last {
                    assert(v[i] == u[i]);
                }
            }
        }
    }
}

/// A package loads exactly where it is installed at the pinned version, in a
/// directory that lies under the root, with the pinned content where content
/// is pinned, and every entry it declares, at least one, may load.
pub proof fn what_package_loads(
    spec: Seq<char>,
    root: Seq<char>,
    p: PinView,
    j: JsonView,
    entries: Seq<JsonView>,
    f: FactsView,
)
    requires
        package::pin(spec) == Ok::<PinView, Seq<char>>(p),
        json::field(j, "pi"@) is Some,
        json::field(json::field(j, "pi"@)->0, "extensions"@) == Some(JsonView::Arr(entries)),
        p.version.len() > 0,
    ensures
        ({
            let r = package::resolved(spec, root, Some(Ok(j)), f);
            &&& r is Ok <==> {
                &&& json::field(j, "version"@) == Some(JsonView::Str(p.version))
                &&& entries.len() > 0
                &&& f.root_real is Some && f.dir_real is Some
                &&& paths::under(paths::parts(f.dir_real->0), paths::parts(f.root_real->0))
                &&& p.digest matches Some(want) ==> f.digest == Ok::<Seq<char>, Seq<char>>(want)
                &&& forall|i: int|
                    0 <= i < entries.len() ==> loads(
                        f.dir_real->0,
                        #[trigger] entries[i],
                        f.entries,
                        i,
                    )
            }
            &&& r matches Ok(x) ==> f.dir_real == Some(x.dir) && x.entries.len() == entries.len()
                && forall|i: int|
                0 <= i < x.entries.len() ==> f.entries[i].target == Some(#[trigger] x.entries[i])
        }),
{
    reveal_strlit("");
    if f.dir_real is Some {
        entries_load(spec, f.dir_real->0, entries, f.entries);
    }
}

/// A package that is not installed, or whose manifest cannot be read, does
/// not load.
pub proof fn what_is_not_installed_does_not_load(
    spec: Seq<char>,
    root: Seq<char>,
    e: Seq<char>,
    f: FactsView,
)
    ensures
        package::resolved(spec, root, None, f) is Err,
        package::resolved(spec, root, Some(Err(e)), f) is Err,
{
}

} // verus!
