//! Extension packages: the pin that names one, the digest of its content,
//! and the test that what is installed is what was pinned.
use crate::error::Error;
use crate::hash;
use crate::json;
use crate::json::{Json, JsonView};
use crate::order;
use crate::paths;
use crate::text;
use vstd::prelude::*;

verus! {

// ---------- the pin ----------

/// A pinned package: `name@version`, with a digest of its content behind
/// a `#` where the pin carries one.
#[derive(Debug, Clone)]
pub struct Pin {
    pub name: String,
    pub version: String,
    pub digest: Option<String>,
}

pub struct PinView {
    pub name: Seq<char>,
    pub version: Seq<char>,
    pub digest: Option<Seq<char>>,
}

impl View for Pin {
    type V = PinView;

    open spec fn view(&self) -> PinView {
        PinView {
            name: self.name@,
            version: self.version@,
            digest: self.digest.deep_view(),
        }
    }
}

pub open spec fn name_char(c: char) -> bool {
    text::ascii_alnum(c) || c == '.' || c == '-' || c == '_'
}

pub open spec fn all_name_chars(s: Seq<char>) -> bool {
    forall|i: int| 0 <= i < s.len() ==> name_char(#[trigger] s[i])
}

pub open spec fn segment_ok(s: Seq<char>) -> bool {
    s.len() > 0 && s != "."@ && s != ".."@ && all_name_chars(s)
}

pub open spec fn scoped(name: Seq<char>) -> bool {
    name.len() > 0 && name[0] == '@'
}

/// A name without its one scoping `@`.
pub open spec fn unscoped(name: Seq<char>) -> Seq<char> {
    if scoped(name) {
        name.drop_first()
    } else {
        name
    }
}

/// A package's name: one segment, or `@`, a scope and a segment.
pub open spec fn name_ok(name: Seq<char>) -> bool {
    let segments = text::split(unscoped(name), '/');
    &&& segments.len() == (if scoped(name) {
        2int
    } else {
        1
    })
    &&& forall|i: int| 0 <= i < segments.len() ==> segment_ok(#[trigger] segments[i])
}

pub open spec fn version_ok(v: Seq<char>) -> bool {
    v.len() > 0 && forall|i: int|
        0 <= i < v.len() ==> name_char(#[trigger] v[i]) || v[i] == '+'
}

/// `sha256-` and 64 lower-case hex digits.
pub open spec fn digest_ok(d: Seq<char>) -> bool {
    text::begins(d, "sha256-"@) && d.len() == 71 && forall|i: int|
        7 <= i < d.len() ==> hash::lower_hex(#[trigger] d[i])
}

/// The pin that a text writes, or what is wrong with it.
pub open spec fn pin(spec: Seq<char>) -> Result<PinView, Seq<char>> {
    match text::after_last(spec, '@') {
        None => Err("expected 'name@version' (a pin is required)"@),
        Some(rest) => {
            let name = spec.take(spec.len() - rest.len() - 1);
            let version = text::before_first(rest, '#');
            let digest = text::after_first(rest, '#');
            if !name_ok(name) || !version_ok(version) {
                Err("expected 'name@version' or '@scope/name@version'"@)
            } else if digest is Some && !digest_ok(digest->0) {
                Err("the content pin must be '#sha256-<64 lowercase hex>' (CAD-572)"@)
            } else {
                Ok(PinView { name, version, digest })
            }
        },
    }
}

fn is_name_char(c: char) -> (r: bool)
    ensures
        r == name_char(c),
{
    text::is_ascii_alnum(c) || c == '.' || c == '-' || c == '_'
}

fn is_segment(s: &str) -> (r: bool)
    ensures
        r == segment_ok(s@),
{
    if s.unicode_len() == 0 || text::eq(s, ".") || text::eq(s, "..") {
        return false;
    }
    let v = text::chars_of(s);
    let mut i: usize = 0;
    while i < v.len()
        invariant
            v@ == s@,
            i <= v@.len(),
            forall|k: int| 0 <= k < i ==> name_char(#[trigger] s@[k]),
        decreases v.len() - i,
    {
        if !is_name_char(v[i]) {
            assert(!name_char(s@[i as int]));
            return false;
        }
        i = i + 1;
    }
    true
}

fn is_name(name: &str) -> (r: bool)
    ensures
        r == name_ok(name@),
{
    let has_scope = name.unicode_len() > 0 && name.get_char(0) == '@';
    let from: usize = if has_scope {
        1
    } else {
        0
    };
    let bare = text::tail(name, from);
    assert(bare@ =~= unscoped(name@));
    let segments = text::split_of(bare.as_str(), '/');
    let ghost d = segments.deep_view();
    assert(d.len() == segments@.len());
    let want: usize = if has_scope {
        2
    } else {
        1
    };
    if segments.len() != want {
        return false;
    }
    let mut i: usize = 0;
    while i < segments.len()
        invariant
            d == segments.deep_view(),
            d == text::split(unscoped(name@), '/'),
            i <= segments@.len(),
            forall|k: int| 0 <= k < i ==> segment_ok(#[trigger] d[k]),
        decreases segments.len() - i,
    {
        assert(d[i as int] == segments@[i as int]@);
        if !is_segment(segments[i].as_str()) {
            assert(!segment_ok(d[i as int]));
            return false;
        }
        i = i + 1;
    }
    true
}

fn is_version(s: &str) -> (r: bool)
    ensures
        r == version_ok(s@),
{
    if s.unicode_len() == 0 {
        return false;
    }
    let v = text::chars_of(s);
    let mut i: usize = 0;
    while i < v.len()
        invariant
            v@ == s@,
            i <= v@.len(),
            forall|k: int| 0 <= k < i ==> name_char(#[trigger] s@[k]) || s@[k] == '+',
        decreases v.len() - i,
    {
        if !is_name_char(v[i]) && v[i] != '+' {
            assert(!name_char(s@[i as int]));
            return false;
        }
        i = i + 1;
    }
    true
}

fn is_digest(s: &str) -> (r: bool)
    ensures
        r == digest_ok(s@),
{
    if !text::starts_with(s, "sha256-") || s.unicode_len() != 71 {
        return false;
    }
    let v = text::chars_of(s);
    let mut i: usize = 7;
    while i < v.len()
        invariant
            v@ == s@,
            v@.len() == 71,
            7 <= i <= v@.len(),
            forall|k: int| 7 <= k < i ==> hash::lower_hex(#[trigger] s@[k]),
        decreases v.len() - i,
    {
        let c = v[i];
        if !('0' <= c && c <= '9') && !('a' <= c && c <= 'f') {
            assert(!hash::lower_hex(s@[i as int]));
            return false;
        }
        i = i + 1;
    }
    true
}

/// Reads a pin. The version stands behind the last `@`.
pub fn parse_package_pin(spec: &str) -> (r: Result<Pin, Error>)
    ensures
        match (r, pin(spec@)) {
            (Ok(p), Ok(q)) => p@ == q,
            (Err(e), Err(why)) => e is Rejected && e.text() == why,
            _ => false,
        },
{
    let (name, rest) = match text::rsplit_once(spec, '@') {
        Some(p) => p,
        None => {
            proof {
                text::after_last_missing(spec@, '@');
            }
            return Err(
                Error::Rejected("expected 'name@version' (a pin is required)".to_owned()),
            );
        },
    };
    proof {
        text::after_last_found(spec@, name@, rest@, '@');
        assert(spec@.take(spec@.len() - rest@.len() - 1) =~= name@);
    }
    let (version, digest) = match text::split_once(rest.as_str(), '#') {
        Some((v, d)) => {
            proof {
                text::first_found(rest@, v@, d@, '#');
            }
            (v, Some(d))
        },
        None => {
            proof {
                text::first_missing(rest@, '#');
            }
            (rest, None)
        },
    };
    if !is_name(name.as_str()) || !is_version(version.as_str()) {
        return Err(
            Error::Rejected("expected 'name@version' or '@scope/name@version'".to_owned()),
        );
    }
    if let Some(d) = &digest {
        if !is_digest(d.as_str()) {
            return Err(
                Error::Rejected(
                    "the content pin must be '#sha256-<64 lowercase hex>' (CAD-572)".to_owned(),
                ),
            );
        }
    }
    Ok(Pin { name, version, digest })
}

// ---------- the digest ----------

/// A file of this many bytes is the largest that is digested.
pub const DIGEST_FILE_CAP: u64 = 8388608;

/// What stands in a package: a file with its length and bytes, or a link,
/// whose target is its content and is never followed.
#[derive(Debug, Clone)]
pub enum Content {
    File { len: u64, bytes: Vec<u8> },
    Link { target: String },
}

/// An entry of a package, by its path below the package's directory.
#[derive(Debug, Clone)]
pub struct PackFile {
    pub rel: String,
    pub content: Content,
}

pub enum ContentView {
    File(u64, Seq<u8>),
    Link(Seq<char>),
}

pub struct PackView {
    pub rel: Seq<char>,
    pub content: ContentView,
}

impl View for PackFile {
    type V = PackView;

    open spec fn view(&self) -> PackView {
        PackView {
            rel: self.rel@,
            content: match self.content {
                Content::File { len, bytes } => ContentView::File(len, bytes@),
                Content::Link { target } => ContentView::Link(target@),
            },
        }
    }
}

pub open spec fn pack_views(v: Seq<PackFile>) -> Seq<PackView> {
    v.map_values(|f: PackFile| f@)
}

/// The path lies in a dependency, which a pin does not cover.
pub open spec fn dependency(rel: Seq<char>) -> bool {
    text::split(rel, '/').contains("node_modules"@)
}

/// The path lies in a dependency.
pub fn is_dependency(rel: &str) -> (r: bool)
    ensures
        r == dependency(rel@),
{
    text::has_name(&text::split_of(rel, '/'), "node_modules")
}

/// The kind of a directory entry.
#[derive(Debug, Clone, Copy, PartialEq, Eq, Structural)]
pub enum Kind {
    File,
    Link,
    Other,
}

/// Whether an entry can be digested: a link, or a file within the bound.
pub fn check_entry(path: &str, kind: Kind, len: u64) -> (r: Result<(), Error>)
    ensures
        match kind {
            Kind::Link => r is Ok,
            Kind::File => if len > DIGEST_FILE_CAP {
                r is Err && (r->Err_0) is Rejected && (r->Err_0).text() == "package digest: "@
                    + path@ + " exceeds the 8388608-byte bound"@
            } else {
                r is Ok
            },
            Kind::Other => r is Err && (r->Err_0) is Rejected && (r->Err_0).text()
                == "package digest: "@ + path@ + " is not a regular file"@,
        },
{
    match kind {
        Kind::Link => Ok(()),
        Kind::File => if len > DIGEST_FILE_CAP {
            Err(
                Error::Rejected(
                    "package digest: ".to_owned().concat(path).concat(
                        " exceeds the 8388608-byte bound",
                    ),
                ),
            )
        } else {
            Ok(())
        },
        Kind::Other => Err(
            Error::Rejected(
                "package digest: ".to_owned().concat(path).concat(" is not a regular file"),
            ),
        ),
    }
}

/// The `k` lowest bytes of a number, the lowest first.
pub open spec fn low_bytes(n: nat, k: nat) -> Seq<u8>
    decreases k,
{
    if k == 0 {
        seq![]
    } else {
        seq![(n % 256) as u8] + low_bytes(n / 256, (k - 1) as nat)
    }
}

/// The bytes that an entry feeds to the digest.
pub open spec fn frame(f: PackView) -> Seq<u8> {
    let rel = vstd::utf8::encode_utf8(f.rel);
    match f.content {
        ContentView::File(len, bytes) => seq![102u8] + rel + seq![0u8] + low_bytes(len as nat, 8)
            + bytes,
        ContentView::Link(target) => seq![108u8] + rel + seq![0u8] + vstd::utf8::encode_utf8(
            target,
        ),
    }
}

pub open spec fn frames(v: Seq<PackView>) -> Seq<u8>
    decreases v.len(),
{
    if v.len() == 0 {
        seq![]
    } else {
        frames(v.drop_last()) + frame(v.last())
    }
}

pub open spec fn by_rel() -> spec_fn(PackView, PackView) -> bool {
    |a: PackView, b: PackView| text::le(a.rel, b.rel)
}

/// The entries that a pin covers.
pub open spec fn covered() -> spec_fn(PackView) -> bool {
    |f: PackView| !dependency(f.rel)
}

/// The digest of a package's content.
pub open spec fn digest(v: Seq<PackView>) -> Seq<char> {
    "sha256-"@ + hash::sha256_hex(frames(order::sorted(v.filter(covered()), by_rel())))
}

fn append(out: &mut Vec<u8>, b: &Vec<u8>)
    ensures
        final(out)@ == old(out)@ + b@,
{
    let ghost o = out@;
    let mut i: usize = 0;
    assert(o + b@.take(0) =~= o);
    while i < b.len()
        invariant
            i <= b@.len(),
            out@ == o + b@.take(i as int),
        decreases b.len() - i,
    {
        out.push(b[i]);
        assert(o + b@.take(i + 1) =~= (o + b@.take(i as int)).push(b@[i as int]));
        i = i + 1;
    }
    assert(b@.take(i as int) =~= b@);
}

fn append_low_bytes(out: &mut Vec<u8>, n: u64)
    ensures
        final(out)@ == old(out)@ + low_bytes(n as nat, 8),
{
    let ghost o = out@;
    let ghost all = low_bytes(n as nat, 8);
    let mut m: u64 = n;
    let mut k: usize = 0;
    assert(o + all =~= out@ + all);
    while k < 8
        invariant
            k <= 8,
            o + all == out@ + low_bytes(m as nat, (8 - k) as nat),
        decreases 8 - k,
    {
        let ghost before = out@;
        let ghost rest = low_bytes((m / 256) as nat, (7 - k) as nat);
        out.push((m % 256) as u8);
        assert(out@ + rest =~= before + (seq![(m % 256) as u8] + rest));
        m = m / 256;
        k = k + 1;
    }
    assert(out@ + low_bytes(m as nat, 0) =~= out@);
}

fn append_frame(out: &mut Vec<u8>, f: &PackFile)
    ensures
        final(out)@ == old(out)@ + frame(f@),
{
    let ghost o = out@;
    let rel = text::bytes_of(f.rel.as_str());
    match &f.content {
        Content::File { len, bytes } => {
            out.push(102);
            append(out, &rel);
            out.push(0);
            append_low_bytes(out, *len);
            append(out, bytes);
        },
        Content::Link { target } => {
            out.push(108);
            append(out, &rel);
            out.push(0);
            append(out, &text::bytes_of(target.as_str()));
        },
    }
    assert(out@ =~= o + frame(f@));
}

fn keep_covered(files: Vec<PackFile>) -> (r: Vec<PackFile>)
    ensures
        pack_views(r@) == pack_views(files@).filter(covered()),
{
    let ghost d = pack_views(files@);
    let ghost all = files@;
    let ghost f = covered();
    let mut out: Vec<PackFile> = Vec::new();
    proof {
        reveal(Seq::filter);
        assert(d.take(0) =~= seq![]);
        assert(pack_views(out@) =~= d.take(0).filter(f));
    }
    for x in it: files
        invariant
            it.seq() == all,
            d == pack_views(all),
            f == covered(),
            pack_views(out@) == d.take(it.index()).filter(f),
    {
        let ghost n = it.index();
        let ghost o = out@;
        proof {
            reveal(Seq::filter);
            assert(d.take(n + 1).drop_last() =~= d.take(n));
            assert(d.take(n + 1).last() == x@);
        }
        if !is_dependency(x.rel.as_str()) {
            let ghost xv = x@;
            out.push(x);
            assert(pack_views(out@) =~= pack_views(o).push(xv));
        }
    }
    assert(d.take(d.len() as int) =~= d);
    out
}

fn sort_files(files: Vec<PackFile>) -> (r: Vec<PackFile>)
    ensures
        pack_views(r@) == order::sorted(pack_views(files@), by_rel()),
{
    let mut out: Vec<PackFile> = Vec::new();
    let ghost le = by_rel();
    let ghost d = pack_views(files@);
    assert(pack_views(out@) =~= order::sorted(d.take(0), le));
    for x in it: files
        invariant
            it.seq() == files@,
            d == pack_views(files@),
            le == by_rel(),
            pack_views(out@) == order::sorted(d.take(it.index()), le),
    {
        let ghost n = it.index();
        assert(d.take(n + 1).drop_last() =~= d.take(n));
        assert(d.take(n + 1).last() == x@);
        let ghost o = pack_views(out@);
        let ghost xv = x@;
        let mut k: usize = out.len();
        while k > 0 && text::less(x.rel.as_str(), out[k - 1].rel.as_str())
            invariant
                le == by_rel(),
                o == pack_views(out@),
                k <= out@.len(),
                forall|i: int| k <= i < o.len() ==> !le(#[trigger] o[i], x@),
            decreases k,
        {
            proof {
                assert(o[k - 1] == out@[k - 1]@);
                text::lt_total(x.rel@, out@[k - 1].rel@);
            }
            k = k - 1;
        }
        proof {
            if k > 0 {
                assert(o[k - 1] == out@[k - 1]@);
                text::lt_total(x.rel@, out@[k - 1].rel@);
            }
            order::insert_at(o, xv, le, k as int);
        }
        out.insert(k, x);
        assert(pack_views(out@) =~= o.insert(k as int, xv));
    }
    assert(d.take(d.len() as int) =~= d);
    out
}

/// The digest of a package's content: `sha256-` and 64 hex digits. The
/// entries count in the order of their paths, whatever order they come in,
/// and those of dependencies do not count.
pub fn package_digest(files: Vec<PackFile>) -> (r: String)
    ensures
        r@ == digest(pack_views(files@)),
{
    let kept = keep_covered(files);
    let files = sort_files(kept);
    let ghost d = pack_views(files@);
    let mut out: Vec<u8> = Vec::new();
    let mut i: usize = 0;
    assert(d.take(0) =~= seq![]);
    assert(out@ =~= frames(d.take(0)));
    while i < files.len()
        invariant
            d == pack_views(files@),
            i <= files@.len(),
            out@ == frames(d.take(i as int)),
        decreases files.len() - i,
    {
        assert(d.take(i + 1).drop_last() =~= d.take(i as int));
        assert(d.take(i + 1).last() == files@[i as int]@);
        append_frame(&mut out, &files[i]);
        i = i + 1;
    }
    assert(d.take(i as int) =~= d);
    "sha256-".to_owned().concat(hash::sha256_hex_of(out.as_slice()).as_str())
}

// ---------- what is installed ----------

/// What the file system says of a declared entry: whether a file stands
/// at its path, and where that path really leads.
#[derive(Debug, Clone)]
pub struct EntryFacts {
    pub is_file: bool,
    pub target: Option<String>,
}

/// What the file system says of a package. The digest is read only where
/// the pin carries one.
#[derive(Debug)]
pub struct Facts {
    /// Where the root of the packages really is.
    pub root_real: Option<String>,
    /// Where the package's directory really is.
    pub dir_real: Option<String>,
    pub digest: Result<String, String>,
    /// The declared entries, in order.
    pub entries: Vec<EntryFacts>,
}

pub struct EntryView {
    pub is_file: bool,
    pub target: Option<Seq<char>>,
}

pub struct FactsView {
    pub root_real: Option<Seq<char>>,
    pub dir_real: Option<Seq<char>>,
    pub digest: Result<Seq<char>, Seq<char>>,
    pub entries: Seq<EntryView>,
}

impl View for EntryFacts {
    type V = EntryView;

    open spec fn view(&self) -> EntryView {
        EntryView { is_file: self.is_file, target: self.target.deep_view() }
    }
}

impl View for Facts {
    type V = FactsView;

    open spec fn view(&self) -> FactsView {
        FactsView {
            root_real: self.root_real.deep_view(),
            dir_real: self.dir_real.deep_view(),
            digest: match self.digest {
                Ok(s) => Ok(s@),
                Err(e) => Err(e@),
            },
            entries: self.entries@.map_values(|e: EntryFacts| e@),
        }
    }
}

/// A package that may load: its real directory, and the real paths of the
/// files that it declares.
#[derive(Debug, Clone)]
pub struct ProviderPackage {
    pub dir: String,
    pub entries: Vec<String>,
}

pub struct PackageView {
    pub dir: Seq<char>,
    pub entries: Seq<Seq<char>>,
}

impl View for ProviderPackage {
    type V = PackageView;

    open spec fn view(&self) -> PackageView {
        PackageView { dir: self.dir@, entries: self.entries.deep_view() }
    }
}

pub open spec fn about(spec: Seq<char>) -> Seq<char> {
    "pi provider package '"@ + spec + "': "@
}

/// The extensions that an installed package declares, or why it is not the
/// pinned one.
pub open spec fn declared(
    spec: Seq<char>,
    p: PinView,
    root: Seq<char>,
    manifest: Option<Result<JsonView, Seq<char>>>,
) -> Result<Seq<JsonView>, Seq<char>> {
    match manifest {
        None => Err(
            "pi provider package '"@ + spec + "' is not installed under "@ + root
                + " — install it as the operator first (`pi install "@ + p.name + "@"@ + p.version
                + "`) (CAD-559)"@,
        ),
        Some(Err(e)) => Err(about(spec) + "package.json is not valid JSON: "@ + e),
        Some(Ok(j)) => {
            let installed = match json::field_str(j, "version"@) {
                Some(v) => v,
                None => ""@,
            };
            let entries = match json::field(j, "pi"@) {
                Some(pi) => match json::field(pi, "extensions"@) {
                    Some(JsonView::Arr(v)) => v,
                    _ => seq![],
                },
                None => seq![],
            };
            if installed != p.version {
                Err(
                    "pi provider package '"@ + p.name + "' is installed at version '"@ + installed
                        + "', not the pinned '"@ + p.version
                        + "' — align the install or the pin in pm.yaml [pi].providers (CAD-559)"@,
                )
            } else if entries.len() == 0 {
                Err(
                    "pi provider package '"@ + spec
                        + "' declares no pi.extensions — nothing would load; fix the package or drop the pin"@,
                )
            } else {
                Ok(entries)
            }
        },
    }
}

/// The real directory of the package, which must lie under the real root:
/// a path can look right and lead elsewhere through a link.
pub open spec fn contained(
    spec: Seq<char>,
    p: PinView,
    root: Seq<char>,
    f: FactsView,
) -> Result<Seq<char>, Seq<char>> {
    match (f.root_real, f.dir_real) {
        (None, _) => Err(
            "pi npm root "@ + root
                + " does not resolve — install the pinned package under it as the operator first (CAD-568)"@,
        ),
        (Some(r), None) => Err(
            about(spec) + "package dir "@ + paths::join(root, p.name) + " does not resolve"@,
        ),
        (Some(r), Some(d)) => if paths::under(paths::parts(d), paths::parts(r)) {
            Ok(d)
        } else {
            Err(
                about(spec) + "package dir escapes the npm root "@ + r
                    + " via a symlink — refusing (CAD-568)"@,
            )
        },
    }
}

/// Why the content is not the pinned one.
pub open spec fn drift(spec: Seq<char>, p: PinView, f: FactsView) -> Option<Seq<char>> {
    match (p.digest, f.digest) {
        (None, _) => None,
        (Some(want), Err(e)) => Some(e),
        (Some(want), Ok(found)) => if found == want {
            None
        } else {
            Some(
                about(spec) + "package content drifted from the pin (pinned "@ + want
                    + ", installed "@ + found
                    + ") — reinstall the pinned package or, after an intentional change, update the digest in pm.yaml [pi].providers (CAD-572)"@,
            )
        },
    }
}

pub open spec fn below(dir: Seq<char>, parts: Seq<Seq<char>>) -> Seq<char>
    decreases parts.len(),
{
    if parts.len() == 0 {
        dir
    } else {
        paths::join(below(dir, parts.drop_last()), parts.last())
    }
}

/// The path of a declared entry below the package's directory.
pub open spec fn entry_place(dir: Seq<char>, rel: Seq<char>) -> Result<Seq<char>, Seq<char>> {
    if paths::absolute(rel) {
        Err("pi.extensions entry '"@ + rel + "' must be relative to the package dir"@)
    } else if paths::parts(rel).contains(".."@) {
        Err("pi.extensions entry '"@ + rel + "' escapes the package dir"@)
    } else {
        Ok(below(dir, paths::parts(rel)))
    }
}

/// The real path of a declared entry, which must lie in the package.
pub open spec fn entry_real(dir: Seq<char>, rel: Seq<char>, f: EntryView) -> Result<
    Seq<char>,
    Seq<char>,
> {
    match entry_place(dir, rel) {
        Err(e) => Err(e),
        Ok(path) => if !f.is_file {
            Err("pi.extensions entry '"@ + rel + "' does not exist at "@ + path)
        } else {
            match f.target {
                None => Err("pi.extensions entry '"@ + rel + "' does not resolve at "@ + path),
                Some(target) => if paths::under(paths::parts(target), paths::parts(dir)) {
                    Ok(target)
                } else {
                    Err(
                        "pi.extensions entry '"@ + rel
                            + "' escapes the package dir via a symlink (resolves to "@ + target
                            + ")"@,
                    )
                },
            }
        },
    }
}

pub open spec fn fact_at(v: Seq<EntryView>, i: int) -> EntryView {
    if 0 <= i < v.len() {
        v[i]
    } else {
        EntryView { is_file: false, target: None }
    }
}

/// The real paths of the declared entries, up to the first that is
/// refused.
pub open spec fn entries_real(
    spec: Seq<char>,
    dir: Seq<char>,
    entries: Seq<JsonView>,
    facts: Seq<EntryView>,
) -> Result<Seq<Seq<char>>, Seq<char>>
    decreases entries.len(),
{
    if entries.len() == 0 {
        Ok(seq![])
    } else {
        match entries_real(spec, dir, entries.drop_last(), facts) {
            Err(e) => Err(e),
            Ok(v) => match entries.last() {
                JsonView::Str(rel) => match entry_real(dir, rel, fact_at(facts, entries.len() - 1)) {
                    Err(e) => Err(about(spec) + e),
                    Ok(target) => Ok(v.push(target)),
                },
                _ => Err(about(spec) + "pi.extensions entries must be strings"@),
            },
        }
    }
}

/// The package of a pin, from what its manifest holds and what the file
/// system says; any drift refuses.
pub open spec fn resolved(
    spec: Seq<char>,
    root: Seq<char>,
    manifest: Option<Result<JsonView, Seq<char>>>,
    f: FactsView,
) -> Result<PackageView, Seq<char>> {
    match pin(spec) {
        Err(e) => Err(e),
        Ok(p) => match declared(spec, p, root, manifest) {
            Err(e) => Err(e),
            Ok(entries) => match contained(spec, p, root, f) {
                Err(e) => Err(e),
                Ok(dir) => match drift(spec, p, f) {
                    Some(e) => Err(e),
                    None => match entries_real(spec, dir, entries, f.entries) {
                        Err(e) => Err(e),
                        Ok(v) => Ok(PackageView { dir, entries: v }),
                    },
                },
            },
        },
    }
}

fn about_of(spec: &str) -> (r: String)
    ensures
        r@ == about(spec@),
{
    "pi provider package '".to_owned().concat(spec).concat("': ")
}

/// The extensions that a package declares, from its parsed manifest.
pub fn declared_extensions(j: &Json) -> (r: Vec<Json>)
    ensures
        r@.map_values(|x: Json| x@) == match json::field(j@, "pi"@) {
            Some(pi) => match json::field(pi, "extensions"@) {
                Some(JsonView::Arr(v)) => v,
                _ => seq![],
            },
            None => seq![],
        },
{
    let mut out: Vec<Json> = Vec::new();
    assert(out@.map_values(|x: Json| x@) =~= seq![]);
    let list = match j.get("pi") {
        Some(pi) => pi.get("extensions"),
        None => None,
    };
    if let Some(x) = list {
        if let Json::Arr(v) = x {
            proof {
                json::items_view(*x, *v);
            }
            let ghost d = v@.map_values(|x: Json| x@);
            let mut i: usize = 0;
            assert(out@.map_values(|x: Json| x@) =~= d.take(0));
            while i < v.len()
                invariant
                    d == v@.map_values(|x: Json| x@),
                    i <= v@.len(),
                    out@.map_values(|x: Json| x@) == d.take(i as int),
                decreases v.len() - i,
            {
                let ghost o = out@;
                let c = json::copy(&v[i]);
                let ghost cv = c@;
                out.push(c);
                assert(out@.map_values(|x: Json| x@) =~= o.map_values(|x: Json| x@).push(cv));
                assert(d.take(i + 1) =~= d.take(i as int).push(d[i as int]));
                i = i + 1;
            }
            assert(d.take(i as int) =~= d);
        }
    }
    out
}

fn read_declared(spec: &str, p: &Pin, root: &str, manifest: &Option<Result<Json, String>>) -> (r: Result<
    Vec<Json>,
    String,
>)
    ensures
        match (r, declared(spec@, p@, root@, manifest_view(*manifest))) {
            (Ok(v), Ok(w)) => v@.map_values(|x: Json| x@) == w,
            (Err(e), Err(f)) => e@ == f,
            _ => false,
        },
{
    let j = match manifest {
        None => {
            return Err(
                "pi provider package '".to_owned().concat(spec).concat(
                    "' is not installed under ",
                ).concat(root).concat(
                    " — install it as the operator first (`pi install ",
                ).concat(p.name.as_str()).concat("@").concat(p.version.as_str()).concat(
                    "`) (CAD-559)",
                ),
            );
        },
        Some(Err(e)) => {
            return Err(
                about_of(spec).concat("package.json is not valid JSON: ").concat(e.as_str()),
            );
        },
        Some(Ok(j)) => j,
    };
    let installed = match j.get_str("version") {
        Some(v) => v,
        None => "",
    };
    if !text::eq(installed, p.version.as_str()) {
        return Err(
            "pi provider package '".to_owned().concat(p.name.as_str()).concat(
                "' is installed at version '",
            ).concat(installed).concat("', not the pinned '").concat(p.version.as_str()).concat(
                "' — align the install or the pin in pm.yaml [pi].providers (CAD-559)",
            ),
        );
    }
    let entries = declared_extensions(j);
    assert(entries@.map_values(|x: Json| x@).len() == entries@.len());
    if entries.len() == 0 {
        return Err(
            "pi provider package '".to_owned().concat(spec).concat(
                "' declares no pi.extensions — nothing would load; fix the package or drop the pin",
            ),
        );
    }
    Ok(entries)
}

fn read_contained(spec: &str, p: &Pin, root: &str, f: &Facts) -> (r: Result<String, String>)
    ensures
        match (r, contained(spec@, p@, root@, f@)) {
            (Ok(s), Ok(t)) => s@ == t,
            (Err(e), Err(g)) => e@ == g,
            _ => false,
        },
{
    match (&f.root_real, &f.dir_real) {
        (None, _) => Err(
            "pi npm root ".to_owned().concat(root).concat(
                " does not resolve — install the pinned package under it as the operator first (CAD-568)",
            ),
        ),
        (Some(_), None) => Err(
            about_of(spec).concat("package dir ").concat(
                paths::join_of(root, p.name.as_str()).as_str(),
            ).concat(" does not resolve"),
        ),
        (Some(r), Some(d)) => if paths::is_under(
            &paths::parts_of(d.as_str()),
            &paths::parts_of(r.as_str()),
        ) {
            Ok(d.clone())
        } else {
            Err(
                about_of(spec).concat("package dir escapes the npm root ").concat(
                    r.as_str(),
                ).concat(" via a symlink — refusing (CAD-568)"),
            )
        },
    }
}

fn read_drift(spec: &str, p: &Pin, f: &Facts) -> (r: Option<String>)
    ensures
        r.deep_view() == drift(spec@, p@, f@),
{
    let want = match &p.digest {
        Some(d) => d,
        None => {
            return None;
        },
    };
    match &f.digest {
        Err(e) => Some(e.clone()),
        Ok(found) => if text::eq(found.as_str(), want.as_str()) {
            None
        } else {
            Some(
                about_of(spec).concat("package content drifted from the pin (pinned ").concat(
                    want.as_str(),
                ).concat(", installed ").concat(found.as_str()).concat(
                    ") — reinstall the pinned package or, after an intentional change, update the digest in pm.yaml [pi].providers (CAD-572)",
                ),
            )
        },
    }
}

/// The path of a declared entry: relative, and never above the package.
pub fn entry_path(dir: &str, rel: &str) -> (r: Result<String, String>)
    ensures
        match (r, entry_place(dir@, rel@)) {
            (Ok(s), Ok(t)) => s@ == t,
            (Err(e), Err(g)) => e@ == g,
            _ => false,
        },
{
    if paths::is_absolute(rel) {
        return Err(
            "pi.extensions entry '".to_owned().concat(rel).concat(
                "' must be relative to the package dir",
            ),
        );
    }
    let parts = paths::parts_of(rel);
    if text::has_name(&parts, "..") {
        return Err(
            "pi.extensions entry '".to_owned().concat(rel).concat("' escapes the package dir"),
        );
    }
    let ghost d = parts.deep_view();
    let mut path = dir.to_owned();
    let mut i: usize = 0;
    assert(d.take(0) =~= seq![]);
    while i < parts.len()
        invariant
            d == parts.deep_view(),
            i <= parts@.len(),
            path@ == below(dir@, d.take(i as int)),
        decreases parts.len() - i,
    {
        assert(d.take(i + 1).drop_last() =~= d.take(i as int));
        assert(d.take(i + 1).last() == parts@[i as int]@);
        path = paths::join_of(path.as_str(), parts[i].as_str());
        i = i + 1;
    }
    assert(d.take(i as int) =~= d);
    Ok(path)
}

/// The real path of a declared entry.
pub fn entry_file(dir: &str, rel: &str, f: &EntryFacts) -> (r: Result<String, String>)
    ensures
        match (r, entry_real(dir@, rel@, f@)) {
            (Ok(s), Ok(t)) => s@ == t,
            (Err(e), Err(g)) => e@ == g,
            _ => false,
        },
{
    let path = match entry_path(dir, rel) {
        Ok(p) => p,
        Err(e) => {
            return Err(e);
        },
    };
    if !f.is_file {
        return Err(
            "pi.extensions entry '".to_owned().concat(rel).concat("' does not exist at ").concat(
                path.as_str(),
            ),
        );
    }
    match &f.target {
        None => Err(
            "pi.extensions entry '".to_owned().concat(rel).concat("' does not resolve at ").concat(
                path.as_str(),
            ),
        ),
        Some(target) => if paths::is_under(
            &paths::parts_of(target.as_str()),
            &paths::parts_of(dir),
        ) {
            Ok(target.clone())
        } else {
            Err(
                "pi.extensions entry '".to_owned().concat(rel).concat(
                    "' escapes the package dir via a symlink (resolves to ",
                ).concat(target.as_str()).concat(")"),
            )
        },
    }
}

proof fn entries_fail(
    spec: Seq<char>,
    dir: Seq<char>,
    entries: Seq<JsonView>,
    facts: Seq<EntryView>,
    n: int,
    e: Seq<char>,
)
    requires
        0 <= n <= entries.len(),
        entries_real(spec, dir, entries.take(n), facts) == Err::<Seq<Seq<char>>, Seq<char>>(e),
    ensures
        entries_real(spec, dir, entries, facts) == Err::<Seq<Seq<char>>, Seq<char>>(e),
    decreases entries.len(),
{
    if n < entries.len() {
        assert(entries.drop_last().take(n) =~= entries.take(n));
        entries_fail(spec, dir, entries.drop_last(), facts, n, e);
    } else {
        assert(entries.take(n) =~= entries);
    }
}

fn read_entries(spec: &str, dir: &str, entries: &Vec<Json>, facts: &Vec<EntryFacts>) -> (r: Result<
    Vec<String>,
    String,
>)
    ensures
        match (
            r,
            entries_real(
                spec@,
                dir@,
                entries@.map_values(|x: Json| x@),
                facts@.map_values(|e: EntryFacts| e@),
            ),
        ) {
            (Ok(v), Ok(w)) => v.deep_view() == w,
            (Err(e), Err(g)) => e@ == g,
            _ => false,
        },
{
    let ghost d = entries@.map_values(|x: Json| x@);
    let ghost fv = facts@.map_values(|e: EntryFacts| e@);
    let mut out: Vec<String> = Vec::new();
    let mut i: usize = 0;
    assert(d.take(0) =~= seq![]);
    assert(out.deep_view() =~= seq![]);
    while i < entries.len()
        invariant
            d == entries@.map_values(|x: Json| x@),
            fv == facts@.map_values(|e: EntryFacts| e@),
            i <= entries@.len(),
            entries_real(spec@, dir@, d.take(i as int), fv) == Ok::<Seq<Seq<char>>, Seq<char>>(
                out.deep_view(),
            ),
        decreases entries.len() - i,
    {
        let ghost o = out.deep_view();
        assert(d.take(i + 1).drop_last() =~= d.take(i as int));
        assert(d.take(i + 1).last() == entries@[i as int]@);
        let none = EntryFacts { is_file: false, target: None };
        let fact = if i < facts.len() {
            &facts[i]
        } else {
            &none
        };
        assert(fact@ == fact_at(fv, i as int));
        let rel = match entries[i].as_str() {
            Some(s) => s,
            None => {
                let e = about_of(spec).concat("pi.extensions entries must be strings");
                proof {
                    entries_fail(spec@, dir@, d, fv, i + 1, e@);
                }
                return Err(e);
            },
        };
        match entry_file(dir, rel, fact) {
            Ok(real_path) => {
                let ghost rv = real_path@;
                out.push(real_path);
                assert(out.deep_view() =~= o.push(rv));
            },
            Err(e) => {
                let e = about_of(spec).concat(e.as_str());
                proof {
                    entries_fail(spec@, dir@, d, fv, i + 1, e@);
                }
                return Err(e);
            },
        }
        i = i + 1;
    }
    assert(d.take(i as int) =~= d);
    Ok(out)
}

pub open spec fn manifest_view(m: Option<Result<Json, String>>) -> Option<
    Result<JsonView, Seq<char>>,
> {
    match m {
        None => None,
        Some(Ok(j)) => Some(Ok(j@)),
        Some(Err(e)) => Some(Err(e@)),
    }
}

/// The package of a pin, from its parsed manifest.
pub fn resolve_parsed(
    spec: &str,
    root: &str,
    manifest: Option<Result<Json, String>>,
    f: &Facts,
) -> (r: Result<ProviderPackage, Error>)
    ensures
        match (r, resolved(spec@, root@, manifest_view(manifest), f@)) {
            (Ok(p), Ok(q)) => p@ == q,
            (Err(e), Err(why)) => e is Rejected && e.text() == why,
            _ => false,
        },
{
    let p = match parse_package_pin(spec) {
        Ok(p) => p,
        Err(e) => {
            return Err(e);
        },
    };
    let entries = match read_declared(spec, &p, root, &manifest) {
        Ok(v) => v,
        Err(e) => {
            return Err(Error::Rejected(e));
        },
    };
    let dir = match read_contained(spec, &p, root, f) {
        Ok(d) => d,
        Err(e) => {
            return Err(Error::Rejected(e));
        },
    };
    if let Some(e) = read_drift(spec, &p, f) {
        return Err(Error::Rejected(e));
    }
    match read_entries(spec, dir.as_str(), &entries, &f.entries) {
        Ok(entries) => Ok(ProviderPackage { dir, entries }),
        Err(e) => Err(Error::Rejected(e)),
    }
}

/// The package of a pin, from the text of its manifest where there is one,
/// and from what the file system says of it.
pub fn resolve_package(spec: &str, root: &str, manifest: Option<&str>, f: &Facts) -> (r: Result<
    ProviderPackage,
    Error,
>)
    ensures
        match (
            r,
            resolved(
                spec@,
                root@,
                match manifest {
                    Some(t) => Some(json::parsed(t@)),
                    None => None,
                },
                f@,
            ),
        ) {
            (Ok(p), Ok(q)) => p@ == q,
            (Err(e), Err(why)) => e is Rejected && e.text() == why,
            _ => false,
        },
{
    let m = match manifest {
        Some(t) => Some(json::parse(t)),
        None => None,
    };
    resolve_parsed(spec, root, m, f)
}

// ---------- laws ----------

proof fn entries_inside(
    spec: Seq<char>,
    dir: Seq<char>,
    entries: Seq<JsonView>,
    facts: Seq<EntryView>,
    i: int,
)
    requires
        entries_real(spec, dir, entries, facts) is Ok,
        0 <= i < (entries_real(spec, dir, entries, facts)->Ok_0).len(),
    ensures
        paths::under(
            paths::parts((entries_real(spec, dir, entries, facts)->Ok_0)[i]),
            paths::parts(dir),
        ),
    decreases entries.len(),
{
    let v = entries_real(spec, dir, entries.drop_last(), facts)->Ok_0;
    if i < v.len() {
        entries_inside(spec, dir, entries.drop_last(), facts, i);
    }
}

/// What loads lies where it was pinned: the package under the root, every
/// file in the package, at the pinned version and with the pinned content.
pub proof fn only_the_pinned_package_loads(
    spec: Seq<char>,
    root: Seq<char>,
    manifest: Option<Result<JsonView, Seq<char>>>,
    f: FactsView,
)
    requires
        resolved(spec, root, manifest, f) is Ok,
    ensures
        ({
            let k = resolved(spec, root, manifest, f)->Ok_0;
            let p = pin(spec)->Ok_0;
            &&& f.root_real is Some
            &&& paths::under(paths::parts(k.dir), paths::parts(f.root_real->0))
            &&& forall|i: int|
                0 <= i < k.entries.len() ==> paths::under(
                    paths::parts(#[trigger] k.entries[i]),
                    paths::parts(k.dir),
                )
            &&& p.digest is Some ==> f.digest == Ok::<Seq<char>, Seq<char>>(p.digest->0)
            &&& manifest is Some && manifest->0 is Ok
            &&& json::field_str((manifest->0)->Ok_0, "version"@) == Some(p.version)
        }),
{
    let k = resolved(spec, root, manifest, f)->Ok_0;
    let p = pin(spec)->Ok_0;
    let entries = declared(spec, p, root, manifest)->Ok_0;
    assert forall|i: int| 0 <= i < k.entries.len() implies paths::under(
        paths::parts(#[trigger] k.entries[i]),
        paths::parts(k.dir),
    ) by {
        entries_inside(spec, k.dir, entries, f.entries, i);
    }
    reveal_strlit("");
    assert(p.version.len() > 0);
}

/// A dependency's files are no part of the digest.
pub proof fn dependencies_do_not_count(v: Seq<PackView>, f: PackView)
    requires
        dependency(f.rel),
    ensures
        digest(v.push(f)) == digest(v),
{
    reveal(Seq::filter);
    assert(v.push(f).drop_last() =~= v);
}

/// No two entries have the same path.
pub open spec fn distinct(v: Seq<PackView>) -> bool {
    forall|i: int, j: int| 0 <= i < j < v.len() ==> (#[trigger] v[i]).rel != (#[trigger] v[j]).rel
}

proof fn filter_distinct(v: Seq<PackView>, f: spec_fn(PackView) -> bool)
    requires
        distinct(v),
    ensures
        distinct(v.filter(f)),
        forall|x: PackView| #[trigger] v.filter(f).contains(x) <==> (v.contains(x) && f(x)),
    decreases v.len(),
{
    reveal(Seq::filter);
    if v.len() > 0 {
        let rest = v.drop_last();
        let w = rest.filter(f);
        let r = v.filter(f);
        assert(distinct(rest)) by {
            assert forall|i: int, j: int| 0 <= i < j < rest.len() implies (#[trigger] rest[i]).rel
                != (#[trigger] rest[j]).rel by {
                assert(v[i].rel != v[j].rel);
            }
        }
        filter_distinct(rest, f);
        assert forall|i: int, j: int| 0 <= i < j < r.len() implies (#[trigger] r[i]).rel != (
        #[trigger] r[j]).rel by {
            if j < w.len() {
                assert(r[i] == w[i] && r[j] == w[j]);
            } else {
                assert(w.contains(r[i]));
                let k = choose|k: int| 0 <= k < rest.len() && rest[k] == r[i];
                assert(v[k].rel != v[v.len() - 1].rel);
            }
        }
        assert forall|x: PackView| #[trigger] r.contains(x) <==> (v.contains(x) && f(x)) by {
            if r.contains(x) {
                let k = choose|k: int| 0 <= k < r.len() && r[k] == x;
                if k < w.len() {
                    assert(w[k] == x);
                    assert(w.contains(x));
                    let m = choose|m: int| 0 <= m < rest.len() && rest[m] == x;
                    assert(v[m] == x);
                } else {
                    assert(v[v.len() - 1] == x);
                }
            }
            if v.contains(x) && f(x) {
                let k = choose|k: int| 0 <= k < v.len() && v[k] == x;
                if k < rest.len() {
                    assert(rest[k] == x);
                    assert(w.contains(x));
                    let m = choose|m: int| 0 <= m < w.len() && w[m] == x;
                    assert(r[m] == x);
                } else {
                    assert(r[r.len() - 1] == x);
                }
            }
        }
    }
}

pub open spec fn rels(v: Seq<PackView>) -> Seq<Seq<char>> {
    v.map_values(|f: PackView| f.rel)
}

/// Sorting entries with distinct paths puts the paths in increasing order
/// and keeps the entries.
proof fn sorted_increases(v: Seq<PackView>)
    requires
        distinct(v),
    ensures
        text::increasing(rels(order::sorted(v, by_rel()))),
        forall|x: PackView| order::sorted(v, by_rel()).contains(x) <==> v.contains(x),
{
    broadcast use vstd::seq_lib::group_to_multiset_ensures;

    let s = order::sorted(v, by_rel());
    assert(order::total(by_rel())) by {
        assert forall|a: PackView, b: PackView| #[trigger] by_rel()(a, b) || by_rel()(b, a) by {
            text::lt_total(a.rel, b.rel);
        }
        assert forall|a: PackView, b: PackView, c: PackView| #[trigger]
            by_rel()(a, b) && #[trigger] by_rel()(b, c) implies by_rel()(a, c) by {
            text::lt_total(a.rel, b.rel);
            text::lt_total(b.rel, c.rel);
            text::lt_total(a.rel, c.rel);
            if text::lt(a.rel, b.rel) && text::lt(b.rel, c.rel) {
                text::lt_transitive(a.rel, b.rel, c.rel);
            }
        }
    }
    order::sorted_is_a_sort(v, by_rel());
    assert(v.no_duplicates()) by {
        assert forall|i: int, j: int| 0 <= i < v.len() && 0 <= j < v.len() && i != j implies v[i]
            != v[j] by {
            if i < j {
                assert(v[i].rel != v[j].rel);
            } else {
                assert(v[j].rel != v[i].rel);
            }
        }
    }
    v.lemma_multiset_has_no_duplicates();
    s.lemma_multiset_has_no_duplicates_conv();
    assert forall|x: PackView| s.contains(x) <==> v.contains(x) by {
        assert(s.to_multiset().count(x) == v.to_multiset().count(x));
    }
    assert forall|i: int, j: int| 0 <= i < j < s.len() implies text::lt(
        #[trigger] rels(s)[i],
        #[trigger] rels(s)[j],
    ) by {
        assert(by_rel()(s[i], s[j]));
        assert(s.contains(s[i]) && s.contains(s[j]));
        let a = choose|a: int| 0 <= a < v.len() && v[a] == s[i];
        let b = choose|b: int| 0 <= b < v.len() && v[b] == s[j];
        assert(a != b);
        assert(v[a].rel != v[b].rel) by {
            if a < b {
            } else {
                assert(v[b].rel != v[a].rel);
            }
        }
        text::lt_total(s[i].rel, s[j].rel);
    }
}

/// The order in which a package's entries are found does not count.
pub proof fn the_order_does_not_count(a: Seq<PackView>, b: Seq<PackView>)
    requires
        distinct(a),
        distinct(b),
        forall|x: PackView| a.contains(x) <==> b.contains(x),
    ensures
        digest(a) == digest(b),
{
    let fa = a.filter(covered());
    let fb = b.filter(covered());
    filter_distinct(a, covered());
    filter_distinct(b, covered());
    sorted_increases(fa);
    sorted_increases(fb);
    let s = order::sorted(fa, by_rel());
    let t = order::sorted(fb, by_rel());
    assert forall|x: PackView| s.contains(x) <==> t.contains(x) by {
        assert(fa.contains(x) <==> (a.contains(x) && covered()(x)));
        assert(fb.contains(x) <==> (b.contains(x) && covered()(x)));
    }
    assert forall|x: Seq<char>| rels(s).contains(x) <==> rels(t).contains(x) by {
        if rels(s).contains(x) {
            let i = choose|i: int| 0 <= i < s.len() && rels(s)[i] == x;
            assert(s.contains(s[i]));
            let j = choose|j: int| 0 <= j < t.len() && t[j] == s[i];
            assert(rels(t)[j] == x);
        }
        if rels(t).contains(x) {
            let i = choose|i: int| 0 <= i < t.len() && rels(t)[i] == x;
            assert(t.contains(t[i]));
            let j = choose|j: int| 0 <= j < s.len() && s[j] == t[i];
            assert(rels(s)[j] == x);
        }
    }
    text::increasing_unique(rels(s), rels(t));
    assert(s.len() == t.len()) by {
        assert(rels(s).len() == s.len() && rels(t).len() == t.len());
    }
    assert forall|i: int| 0 <= i < s.len() implies s[i] == t[i] by {
        assert(s.contains(s[i]));
        let j = choose|j: int| 0 <= j < t.len() && t[j] == s[i];
        assert(rels(t)[j] == rels(t)[i]) by {
            assert(rels(s)[i] == s[i].rel);
        }
        if j < i {
            assert(text::lt(rels(t)[j], rels(t)[i]));
            text::lt_total(rels(t)[j], rels(t)[i]);
        } else if i < j {
            assert(text::lt(rels(t)[i], rels(t)[j]));
            text::lt_total(rels(t)[i], rels(t)[j]);
        }
    }
    assert(s =~= t);
}

} // verus!
