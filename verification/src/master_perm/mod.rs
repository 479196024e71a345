//! The master asks the operator for permission.
//!
//! A refused, well-formed command becomes a request. The operator allows
//! it once, saves an allow or a deny rule, or rejects it. The never-list
//! (merge, rollout, secrets, audit approve, the master's own files, the
//! state directory) is absolute: not requestable, not approvable, and no
//! rule covers it.
pub mod class_laws;
pub mod laws;
pub mod list_laws;
pub mod record;
pub mod rule_laws;
pub mod show;

use crate::error::Error;
use crate::paths;
use crate::text;
use vstd::prelude::*;

verus! {

/// How long a request can be decided, and how long a grant can be used.
pub const TTL_SECS: i64 = 900;

pub const PERMISSIONS_FILE: &'static str = "permissions.yaml";

pub const ARG_MAX: usize = 64;

pub const ARG_LEN: usize = 512;

pub const CMD_MAX: usize = 4096;

pub const REASON_MAX: usize = 500;

/// The alias of the master.
pub const ALIAS: &'static str = "master";

#[derive(Clone, Copy, Debug, PartialEq, Eq, Structural)]
pub enum Risk {
    Low,
    Medium,
    High,
}

impl Risk {
    pub open spec fn name(self) -> Seq<char> {
        match self {
            Risk::Low => "low"@,
            Risk::Medium => "medium"@,
            Risk::High => "high"@,
        }
    }

    pub fn as_str(self) -> (r: &'static str)
        ensures
            r@ == self.name(),
    {
        match self {
            Risk::Low => "low",
            Risk::Medium => "medium",
            Risk::High => "high",
        }
    }
}

/// What a command is to the operator.
#[derive(Clone, Debug)]
pub enum Class {
    /// It is on the static allowlist: there is nothing to ask.
    Allowlisted,
    /// The operator may approve it.
    Requestable { risk: Risk },
    /// Refused whatever was granted.
    Never { why: &'static str },
    /// Not one plain command.
    IllFormed { why: &'static str },
}

pub enum ClassView {
    Allowlisted,
    Requestable(Risk),
    Never(Seq<char>),
    IllFormed(Seq<char>),
}

impl View for Class {
    type V = ClassView;

    open spec fn view(&self) -> ClassView {
        match *self {
            Class::Allowlisted => ClassView::Allowlisted,
            Class::Requestable { risk } => ClassView::Requestable(risk),
            Class::Never { why } => ClassView::Never(why@),
            Class::IllFormed { why } => ClassView::IllFormed(why@),
        }
    }
}

// ---------- the rules file ----------

pub open spec fn alias_char(c: char) -> bool {
    text::ascii_alnum(c) || c == '-' || c == '_'
}

/// A short slug.
pub open spec fn alias(s: Seq<char>) -> bool {
    0 < s.len() <= 64 && forall|i: int| 0 <= i < s.len() ==> alias_char(#[trigger] s[i])
}

fn is_alias(s: &str) -> (r: bool)
    ensures
        r == alias(s@),
{
    let v = text::chars_of(s);
    if v.len() == 0 || v.len() > 64 {
        return false;
    }
    let mut i: usize = 0;
    while i < v.len()
        invariant
            v@ == s@,
            i <= v@.len(),
            forall|k: int| 0 <= k < i ==> alias_char(#[trigger] v@[k]),
        decreases v.len() - i,
    {
        if !(text::is_ascii_alnum(v[i]) || v[i] == '-' || v[i] == '_') {
            assert(!alias_char(s@[i as int]));
            return false;
        }
        i = i + 1;
    }
    true
}

/// Where the rules of an agent are.
pub open spec fn rules_path(pm_dir: Seq<char>, alias: Seq<char>) -> Seq<char> {
    paths::join(paths::join(paths::join(pm_dir, "agents"@), alias), PERMISSIONS_FILE@)
}

/// The rules of an agent: `agents/<alias>/permissions.yaml`.
pub fn rules_file(pm_dir: &str, alias: &str) -> (r: Result<String, Error>)
    ensures
        match r {
            Ok(p) => self::alias(alias@) && p@ == rules_path(pm_dir@, alias@),
            Err(e) => !self::alias(alias@) && e is Rejected && e.text()
                == "a permissions file is agents/<alias>/permissions.yaml — the alias is a short slug"@,
        },
{
    if !is_alias(alias) {
        return Err(
            Error::Rejected(
                "a permissions file is agents/<alias>/permissions.yaml — the alias is a short slug".to_owned(),
            ),
        );
    }
    let dir = paths::join_of(pm_dir, "agents");
    let dir = paths::join_of(dir.as_str(), alias);
    Ok(paths::join_of(dir.as_str(), PERMISSIONS_FILE))
}

// ---------- one plain command ----------

pub open spec fn arg_char(c: char) -> bool {
    text::ascii_alnum(c) || c == '.' || c == '_' || c == '/' || c == '=' || c == ':' || c == '-'
}

/// An argument without a shell metacharacter.
pub open spec fn plain_arg(a: Seq<char>) -> bool {
    0 < a.len() <= ARG_LEN && forall|i: int| 0 <= i < a.len() ==> arg_char(#[trigger] a[i])
}

pub(crate) fn arg_ok(a: &str) -> (r: bool)
    ensures
        r == plain_arg(a@),
{
    let v = text::chars_of(a);
    if v.len() == 0 || v.len() > ARG_LEN {
        return false;
    }
    let mut i: usize = 0;
    while i < v.len()
        invariant
            v@ == a@,
            i <= v@.len(),
            forall|k: int| 0 <= k < i ==> arg_char(#[trigger] v@[k]),
        decreases v.len() - i,
    {
        let c = v[i];
        if !(text::is_ascii_alnum(c) || c == '.' || c == '_' || c == '/' || c == '=' || c == ':' || c
            == '-') {
            assert(!arg_char(a@[i as int]));
            return false;
        }
        i = i + 1;
    }
    true
}

pub open spec fn all_plain(argv: Seq<Seq<char>>) -> bool {
    forall|i: int| 0 <= i < argv.len() ==> plain_arg(#[trigger] argv[i])
}

/// Why a command is not one plain command, if it is not.
pub open spec fn form_fault(argv: Seq<Seq<char>>) -> Option<Seq<char>> {
    if argv.len() == 0 || argv.len() > ARG_MAX {
        Some("one plain command, 1-64 arguments — no pipes, chaining or quotes"@)
    } else if vstd::utf8::encode_utf8(text::join(argv, " "@)).len() > CMD_MAX || !all_plain(argv) {
        Some(
            "no pipes, chaining (`;`, `&&`, `||`), redirects, `$(…)`, backticks, quotes or escapes — run one plain command"@,
        )
    } else {
        None
    }
}

/// One plain command: no shell metacharacter in any argument.
pub fn well_formed(argv: &Vec<String>) -> (r: Result<(), Error>)
    ensures
        match r {
            Ok(_) => form_fault(argv.deep_view()) is None,
            Err(e) => e is Rejected && form_fault(argv.deep_view()) == Some(e.text()),
        },
{
    if argv.len() == 0 || argv.len() > ARG_MAX {
        return Err(
            Error::Rejected(
                "one plain command, 1-64 arguments — no pipes, chaining or quotes".to_owned(),
            ),
        );
    }
    let ghost d = argv.deep_view();
    let mut ok = true;
    let mut i: usize = 0;
    while i < argv.len()
        invariant
            d == argv.deep_view(),
            i <= argv@.len(),
            ok == forall|k: int| 0 <= k < i ==> plain_arg(#[trigger] d[k]),
        decreases argv.len() - i,
    {
        assert(d[i as int] == argv@[i as int]@);
        if !arg_ok(argv[i].as_str()) {
            ok = false;
        }
        i = i + 1;
    }
    let joined = text::join_of(argv, " ");
    if text::byte_len(joined.as_str()) > CMD_MAX || !ok {
        return Err(
            Error::Rejected(
                "no pipes, chaining (`;`, `&&`, `||`), redirects, `$(…)`, backticks, quotes or escapes — run one plain command".to_owned(),
            ),
        );
    }
    Ok(())
}

/// The name of a program: the last part of its path.
pub open spec fn tool(arg: Seq<char>) -> Seq<char> {
    let p = paths::parts(arg);
    if p.len() == 0 || p.last() == ".."@ {
        arg
    } else {
        p.last()
    }
}

fn tool_name(arg: &str) -> (r: String)
    ensures
        r@ == tool(arg@),
{
    let p = paths::parts_of(arg);
    let ghost d = p.deep_view();
    if p.len() == 0 {
        return arg.to_owned();
    }
    assert(d.last() == p@.last()@);
    if text::eq(p[p.len() - 1].as_str(), "..") {
        arg.to_owned()
    } else {
        p[p.len() - 1].clone()
    }
}

/// The programs that only read.
pub open spec fn reads(name: Seq<char>) -> bool {
    name == "ls"@ || name == "cat"@ || name == "grep"@ || name == "find"@
}

fn is_reader(name: &str) -> (r: bool)
    ensures
        r == reads(name@),
{
    text::eq(name, "ls") || text::eq(name, "cat") || text::eq(name, "grep") || text::eq(
        name,
        "find",
    )
}

/// The program of a command; empty where there is none.
pub open spec fn program(argv: Seq<Seq<char>>) -> Seq<char> {
    if argv.len() > 0 {
        tool(argv[0])
    } else {
        tool(""@)
    }
}

fn program_of(argv: &Vec<String>) -> (r: String)
    ensures
        r@ == program(argv.deep_view()),
{
    let ghost d = argv.deep_view();
    if argv.len() > 0 {
        assert(d[0] == argv@[0]@);
        tool_name(argv[0].as_str())
    } else {
        tool_name("")
    }
}

/// A bare reading program, not a path to some other one.
pub fn readonly_tool(argv: &Vec<String>) -> (r: bool)
    ensures
        r == (argv@.len() > 0 && !argv@[0]@.contains('/') && reads(tool(argv@[0]@))),
{
    if argv.len() == 0 {
        return false;
    }
    !text::contains_char(argv[0].as_str(), '/') && is_reader(tool_name(argv[0].as_str()).as_str())
}

/// The command with its program named plainly, where it is a known one.
pub open spec fn normal(argv: Seq<Seq<char>>) -> Seq<Seq<char>> {
    if argv.len() > 0 && (tool(argv[0]) == "cadence"@ || reads(tool(argv[0]))) {
        argv.update(0, tool(argv[0]))
    } else {
        argv
    }
}

pub fn normalize_argv(argv: &Vec<String>) -> (r: Vec<String>)
    ensures
        r.deep_view() == normal(argv.deep_view()),
{
    let ghost d = argv.deep_view();
    let mut out = text::copy_names(argv);
    if out.len() > 0 {
        assert(d[0] == argv@[0]@);
        let name = tool_name(argv[0].as_str());
        if text::eq(name.as_str(), "cadence") || is_reader(name.as_str()) {
            let ghost n = name@;
            let ghost o = out.deep_view();
            out.set(0, name);
            assert(out.deep_view() =~= o.update(0, n));
        }
    }
    out
}

// ---------- the allowlist ----------

/// The words that an allowlist entry wants after the program, and whether
/// more must follow. Entries of another form say nothing.
pub open spec fn wanted(entry: Seq<char>) -> Option<(Seq<Seq<char>>, bool)> {
    if !text::begins(entry, "Bash("@) {
        None
    } else {
        let t = entry.skip("Bash("@.len() as int);
        if t.len() == 0 || t.last() != ')' {
            None
        } else {
            let inner = t.drop_last();
            let args = text::ends(inner, " *"@);
            let stem = if args {
                inner.take(inner.len() - " *"@.len())
            } else {
                inner
            };
            let words = text::words(stem);
            if !args && inner.len() > 0 && inner.last() == '*' {
                None
            } else if words.len() < 2 {
                None
            } else {
                Some((words.drop_first(), args))
            }
        }
    }
}

pub open spec fn starts(rest: Seq<Seq<char>>, want: Seq<Seq<char>>) -> bool {
    want.len() <= rest.len() && rest.take(want.len() as int) == want
}

/// An entry allows a command.
pub open spec fn entry_allows(entry: Seq<char>, argv: Seq<Seq<char>>) -> bool {
    match wanted(entry) {
        Some((want, args)) => {
            let rest = argv.drop_first();
            starts(rest, want) && (if args {
                rest.len() > want.len()
            } else {
                rest.len() == want.len()
            })
        },
        None => false,
    }
}

/// The static allowlist holds the command.
pub open spec fn on_allowlist(argv: Seq<Seq<char>>, list: Seq<Seq<char>>) -> bool {
    argv.len() > 0 && program(argv) == "cadence"@ && exists|i: int|
        0 <= i < list.len() && entry_allows(#[trigger] list[i], argv)
}

fn wanted_of(entry: &str) -> (r: Option<(Vec<String>, bool)>)
    ensures
        match (r, wanted(entry@)) {
            (Some(p), Some(w)) => p.0.deep_view() == w.0 && p.1 == w.1,
            (None, None) => true,
            _ => false,
        },
{
    proof {
        reveal_strlit(" *");
    }
    let t = match text::strip_prefix(entry, "Bash(") {
        Some(t) => t,
        None => {
            return None;
        },
    };
    let v = text::chars_of(t.as_str());
    if v.len() == 0 || v[v.len() - 1] != ')' {
        return None;
    }
    let inner = text::string_of(v.as_slice(), 0, v.len() - 1);
    assert(inner@ =~= t@.drop_last());
    let n: usize = v.len() - 1;
    let args = text::ends_with(inner.as_str(), " *");
    if !args && n > 0 && v[n - 1] == '*' {
        return None;
    }
    let stem = if args {
        text::string_of(v.as_slice(), 0, n - 2)
    } else {
        text::string_of(v.as_slice(), 0, n)
    };
    proof {
        if args {
            assert(stem@ =~= inner@.take(inner@.len() - 2));
        } else {
            assert(stem@ =~= inner@);
        }
    }
    let mut words = text::words_of(stem.as_str());
    if words.len() < 2 {
        return None;
    }
    let ghost d = words.deep_view();
    words.remove(0);
    assert(words.deep_view() =~= d.drop_first());
    Some((words, args))
}

fn allows(entry: &str, argv: &Vec<String>) -> (r: bool)
    requires
        argv@.len() > 0,
    ensures
        r == entry_allows(entry@, argv.deep_view()),
{
    let (want, args) = match wanted_of(entry) {
        Some(p) => p,
        None => {
            return false;
        },
    };
    let ghost d = argv.deep_view();
    let ghost rest = d.drop_first();
    let ghost w = want.deep_view();
    let n: usize = argv.len() - 1;
    if args {
        if n <= want.len() {
            return false;
        }
    } else if n != want.len() {
        return false;
    }
    let mut i: usize = 0;
    while i < want.len()
        invariant
            d == argv.deep_view(),
            rest == d.drop_first(),
            w == want.deep_view(),
            want@.len() <= argv@.len() - 1,
            wanted(entry@) == Some((w, args)),
            i <= want@.len(),
            forall|k: int| 0 <= k < i ==> rest[k] == w[k],
        decreases want.len() - i,
    {
        assert(rest[i as int] == argv@[i + 1]@);
        assert(w[i as int] == want@[i as int]@);
        if !text::eq(want[i].as_str(), argv[i + 1].as_str()) {
            assert(rest.take(w.len() as int)[i as int] != w[i as int]);
            return false;
        }
        i = i + 1;
    }
    assert(rest.take(w.len() as int) =~= w);
    true
}

/// Whether the static allowlist holds a command.
pub fn allowlisted(argv: &Vec<String>, list: &Vec<String>) -> (r: bool)
    ensures
        r == on_allowlist(argv.deep_view(), list.deep_view()),
{
    if argv.len() == 0 || !text::eq(program_of(argv).as_str(), "cadence") {
        return false;
    }
    let ghost d = list.deep_view();
    let mut i: usize = 0;
    while i < list.len()
        invariant
            d == list.deep_view(),
            argv@.len() > 0,
            program(argv.deep_view()) == "cadence"@,
            i <= list@.len(),
            forall|k: int| 0 <= k < i ==> !entry_allows(#[trigger] d[k], argv.deep_view()),
        decreases list.len() - i,
    {
        assert(d[i as int] == list@[i as int]@);
        if allows(list[i].as_str(), argv) {
            assert(entry_allows(d[i as int], argv.deep_view()));
            return true;
        }
        i = i + 1;
    }
    false
}

// ---------- the never-list ----------

pub open spec fn tools(argv: Seq<Seq<char>>) -> Seq<Seq<char>> {
    argv.map_values(|a: Seq<char>| tool(a))
}

/// `a` followed by `b`.
pub open spec fn pair(t: Seq<Seq<char>>, a: Seq<char>, b: Seq<char>) -> bool {
    exists|i: int| 0 <= i < t.len() - 1 && #[trigger] t[i] == a && t[i + 1] == b
}

/// The master's own files.
pub open spec fn protected(arg: Seq<char>) -> bool {
    let p = arg.map_values(
        |c: char|
            if c == '\\' {
                '/'
            } else {
                c
            },
    );
    ||| text::holds(p, "agents/master/SOUL.md"@)
    ||| text::holds(p, "agents/master/AGENT.md"@)
    ||| text::holds(p, "agents/master/permissions.yaml"@)
    ||| text::ends(p, "/permissions.yaml"@) && text::holds(p, "agents/master"@)
}

/// A path is a directory or below it.
pub open spec fn inside(path: Seq<char>, root: Seq<char>) -> bool {
    paths::absolute(path) == paths::absolute(root) && paths::under(
        paths::parts(path),
        paths::parts(root),
    )
}

pub open spec fn inside_any(path: Seq<char>, roots: Seq<Seq<char>>) -> bool {
    exists|i: int| 0 <= i < roots.len() && inside(path, #[trigger] roots[i])
}

/// What is known of the places that a command names: `resolved` holds, for
/// each argument, the real path that it leads to from the directory, where
/// that exists.
pub struct Facts {
    pub cwd: String,
    pub resolved: Vec<Option<String>>,
    /// The real roots of the registered checkouts.
    pub checkouts: Vec<String>,
    /// The real state directories.
    pub state_dirs: Vec<String>,
}

/// An argument that is written as a path.
pub open spec fn marked(a: Seq<char>) -> bool {
    a.len() > 0 && (a[0] == '/' || a[0] == '.')
}

/// Where nothing is at a path yet, it lies in a directory as it is written,
/// or once each `..` in it is taken back.
pub open spec fn lands(path: Seq<char>, root: Seq<char>) -> bool {
    paths::absolute(path) == paths::absolute(root) && (paths::under(
        paths::parts(path),
        paths::parts(root),
    ) || paths::under(paths::settled(paths::parts(path)), paths::parts(root)))
}

/// An argument with nothing there would be in a state directory. From
/// inside that directory a bare word is no path that the command touches.
pub open spec fn would_touch(cwd: Seq<char>, a: Seq<char>, root: Seq<char>) -> bool {
    lands(paths::join(cwd, a), root) && (marked(a) || !inside(cwd, root))
}

/// An argument that names a place in a state directory: what it leads to
/// from the directory is in one.
pub open spec fn names_state(f: Facts, argv: Seq<Seq<char>>, i: int) -> bool {
    let a = argv[i];
    let dirs = f.state_dirs.deep_view();
    ||| text::holds(a, ".local/state/cadence"@)
    ||| text::holds(a, ".local/share/cadence"@)
    ||| match f.resolved@[i] {
        Some(p) => inside_any(p@, dirs),
        None => exists|k: int| 0 <= k < dirs.len() && would_touch(f.cwd@, a, #[trigger] dirs[k]),
    }
}

pub open spec fn touches(f: Facts, argv: Seq<Seq<char>>) -> bool {
    exists|i: int| 0 <= i < argv.len() && #[trigger] names_state(f, argv, i)
}

pub open spec fn has_secret(t: Seq<Seq<char>>) -> bool {
    exists|i: int| 0 <= i < t.len() && text::begins(#[trigger] t[i], "secret"@)
}

pub open spec fn names_protected(argv: Seq<Seq<char>>) -> bool {
    exists|i: int| 0 <= i < argv.len() && protected(#[trigger] argv[i])
}

pub open spec fn decides(t: Seq<Seq<char>>) -> bool {
    ||| pair(t, "daemon"@, "restart"@)
    ||| pair(t, "daemon"@, "stop"@)
    ||| pair(t, "master"@, "allow-once"@)
    ||| pair(t, "master"@, "always-allow"@)
    ||| pair(t, "master"@, "reject"@)
    ||| pair(t, "master"@, "revoke-permission"@)
}

/// Why a command is never requestable, if it is not.
pub open spec fn never(argv: Seq<Seq<char>>, f: Facts) -> Option<Seq<char>> {
    let t = tools(argv);
    let cadence = program(argv) == "cadence"@;
    if t.contains("merge"@) && (cadence || (t.len() > 0 && t[0] == "git"@)) {
        Some("merge is never requestable"@)
    } else if cadence && t.contains("rollout"@) {
        Some("rollout is never requestable"@)
    } else if cadence && has_secret(t) {
        Some("secret commands are never requestable"@)
    } else if cadence && decides(t) {
        Some("daemon restart and permission decisions are never requestable"@)
    } else if cadence && pair(t, "audit"@, "approve"@) {
        Some("audit approve is never requestable"@)
    } else if names_protected(argv) {
        Some("the master's SOUL.md, AGENT.md and permissions.yaml are never requestable"@)
    } else if touches(f, argv) {
        Some("the daemon state dir is never requestable"@)
    } else {
        None
    }
}

fn tools_of(argv: &Vec<String>) -> (r: Vec<String>)
    ensures
        r.deep_view() == tools(argv.deep_view()),
{
    let ghost d = argv.deep_view();
    let ghost w = tools(d);
    let mut out: Vec<String> = Vec::new();
    let mut i: usize = 0;
    assert(out.deep_view() =~= w.take(0));
    while i < argv.len()
        invariant
            d == argv.deep_view(),
            w == tools(d),
            i <= argv@.len(),
            out.deep_view() == w.take(i as int),
        decreases argv.len() - i,
    {
        assert(d[i as int] == argv@[i as int]@);
        let ghost o = out.deep_view();
        out.push(tool_name(argv[i].as_str()));
        assert(out.deep_view() =~= o.push(w[i as int]));
        assert(w.take(i + 1) =~= o.push(w[i as int]));
        i = i + 1;
    }
    assert(w.take(i as int) =~= w);
    out
}

fn has_pair(t: &Vec<String>, a: &str, b: &str) -> (r: bool)
    ensures
        r == pair(t.deep_view(), a@, b@),
{
    let ghost d = t.deep_view();
    if t.len() == 0 {
        return false;
    }
    let mut i: usize = 0;
    while i < t.len() - 1
        invariant
            d == t.deep_view(),
            t@.len() > 0,
            i <= t@.len() - 1,
            forall|k: int| 0 <= k < i ==> !(#[trigger] d[k] == a@ && d[k + 1] == b@),
        decreases t.len() - i,
    {
        assert(d[i as int] == t@[i as int]@);
        assert(d[i + 1] == t@[i + 1]@);
        if text::eq(t[i].as_str(), a) && text::eq(t[i + 1].as_str(), b) {
            assert(d[i as int] == a@);
            return true;
        }
        i = i + 1;
    }
    false
}

fn is_protected(arg: &str) -> (r: bool)
    ensures
        r == protected(arg@),
{
    let v = text::chars_of(arg);
    let ghost w = arg@.map_values(
        |c: char|
            if c == '\\' {
                '/'
            } else {
                c
            },
    );
    let mut p = String::new();
    let mut i: usize = 0;
    assert(p@ =~= w.take(0));
    while i < v.len()
        invariant
            v@ == arg@,
            w == arg@.map_values(
                |c: char|
                    if c == '\\' {
                        '/'
                    } else {
                        c
                    },
            ),
            i <= v@.len(),
            p@ == w.take(i as int),
        decreases v.len() - i,
    {
        let ghost o = p@;
        if v[i] == '\\' {
            p.push('/');
        } else {
            p.push(v[i]);
        }
        assert(p@ =~= o.push(w[i as int]));
        assert(w.take(i + 1) =~= o.push(w[i as int]));
        i = i + 1;
    }
    assert(w.take(i as int) =~= w);
    let p = p.as_str();
    text::contains(p, "agents/master/SOUL.md") || text::contains(p, "agents/master/AGENT.md")
        || text::contains(p, "agents/master/permissions.yaml") || (text::ends_with(
        p,
        "/permissions.yaml",
    ) && text::contains(p, "agents/master"))
}

fn any_protected(argv: &Vec<String>) -> (r: bool)
    ensures
        r == names_protected(argv.deep_view()),
{
    let ghost d = argv.deep_view();
    let mut i: usize = 0;
    while i < argv.len()
        invariant
            d == argv.deep_view(),
            i <= argv@.len(),
            forall|k: int| 0 <= k < i ==> !protected(#[trigger] d[k]),
        decreases argv.len() - i,
    {
        assert(d[i as int] == argv@[i as int]@);
        if is_protected(argv[i].as_str()) {
            assert(protected(d[i as int]));
            return true;
        }
        i = i + 1;
    }
    false
}

fn any_secret(t: &Vec<String>) -> (r: bool)
    ensures
        r == has_secret(t.deep_view()),
{
    let ghost d = t.deep_view();
    let mut i: usize = 0;
    while i < t.len()
        invariant
            d == t.deep_view(),
            i <= t@.len(),
            forall|k: int| 0 <= k < i ==> !text::begins(#[trigger] d[k], "secret"@),
        decreases t.len() - i,
    {
        assert(d[i as int] == t@[i as int]@);
        if text::starts_with(t[i].as_str(), "secret") {
            assert(text::begins(d[i as int], "secret"@));
            return true;
        }
        i = i + 1;
    }
    false
}

fn is_inside_any(path: &str, roots: &Vec<String>) -> (r: bool)
    ensures
        r == inside_any(path@, roots.deep_view()),
{
    let ghost d = roots.deep_view();
    let parts = paths::parts_of(path);
    let abs = paths::is_absolute(path);
    let mut i: usize = 0;
    while i < roots.len()
        invariant
            d == roots.deep_view(),
            parts.deep_view() == paths::parts(path@),
            abs == paths::absolute(path@),
            i <= roots@.len(),
            forall|k: int| 0 <= k < i ==> !inside(path@, #[trigger] d[k]),
        decreases roots.len() - i,
    {
        assert(d[i as int] == roots@[i as int]@);
        let r = roots[i].as_str();
        if abs == paths::is_absolute(r) && paths::is_under(&parts, &paths::parts_of(r)) {
            assert(inside(path@, d[i as int]));
            return true;
        }
        i = i + 1;
    }
    false
}

fn would_touch_any(cwd: &str, a: &str, roots: &Vec<String>) -> (r: bool)
    ensures
        r == exists|k: int|
            0 <= k < roots@.len() && would_touch(cwd@, a@, #[trigger] roots.deep_view()[k]),
{
    let ghost d = roots.deep_view();
    let path = paths::join_of(cwd, a);
    let parts = paths::parts_of(path.as_str());
    let settled = paths::settle(&parts);
    let abs = paths::is_absolute(path.as_str());
    let home = paths::parts_of(cwd);
    let home_abs = paths::is_absolute(cwd);
    let v = text::chars_of(a);
    let is_marked = v.len() > 0 && (v[0] == '/' || v[0] == '.');
    let mut i: usize = 0;
    while i < roots.len()
        invariant
            d == roots.deep_view(),
            path@ == paths::join(cwd@, a@),
            parts.deep_view() == paths::parts(path@),
            settled.deep_view() == paths::settled(paths::parts(path@)),
            abs == paths::absolute(path@),
            home.deep_view() == paths::parts(cwd@),
            home_abs == paths::absolute(cwd@),
            is_marked == marked(a@),
            i <= roots@.len(),
            forall|k: int| 0 <= k < i ==> !would_touch(cwd@, a@, #[trigger] d[k]),
        decreases roots.len() - i,
    {
        assert(d[i as int] == roots@[i as int]@);
        let root = paths::parts_of(roots[i].as_str());
        let root_abs = paths::is_absolute(roots[i].as_str());
        let lands = abs == root_abs && (paths::is_under(&parts, &root) || paths::is_under(
            &settled,
            &root,
        ));
        if lands && (is_marked || !(home_abs == root_abs && paths::is_under(&home, &root))) {
            assert(would_touch(cwd@, a@, d[i as int]));
            return true;
        }
        i = i + 1;
    }
    false
}

fn touches_state(argv: &Vec<String>, f: &Facts) -> (r: bool)
    requires
        f.resolved@.len() == argv@.len(),
    ensures
        r == touches(*f, argv.deep_view()),
{
    let ghost d = argv.deep_view();
    let mut i: usize = 0;
    while i < argv.len()
        invariant
            d == argv.deep_view(),
            f.resolved@.len() == argv@.len(),
            i <= argv@.len(),
            forall|k: int| 0 <= k < i ==> !#[trigger] names_state(*f, d, k),
        decreases argv.len() - i,
    {
        let a = argv[i].as_str();
        assert(d[i as int] == a@);
        let hit = text::contains(a, ".local/state/cadence") || text::contains(
            a,
            ".local/share/cadence",
        ) || match &f.resolved[i] {
            Some(p) => is_inside_any(p.as_str(), &f.state_dirs),
            None => would_touch_any(f.cwd.as_str(), a, &f.state_dirs),
        };
        if hit {
            assert(names_state(*f, d, i as int));
            return true;
        }
        assert(!names_state(*f, d, i as int));
        i = i + 1;
    }
    false
}

pub fn never_why(argv: &Vec<String>, f: &Facts) -> (r: Option<&'static str>)
    requires
        f.resolved@.len() == argv@.len(),
    ensures
        r.deep_view() == never(argv.deep_view(), *f),
{
    let t = tools_of(argv);
    let ghost d = t.deep_view();
    let cadence = text::eq(program_of(argv).as_str(), "cadence");
    let git = t.len() > 0 && text::eq(t[0].as_str(), "git");
    assert(t@.len() > 0 ==> d[0] == t@[0]@);
    if text::has_name(&t, "merge") && (cadence || git) {
        return Some("merge is never requestable");
    }
    if cadence && text::has_name(&t, "rollout") {
        return Some("rollout is never requestable");
    }
    if cadence && any_secret(&t) {
        return Some("secret commands are never requestable");
    }
    if cadence && (has_pair(&t, "daemon", "restart") || has_pair(&t, "daemon", "stop") || has_pair(
        &t,
        "master",
        "allow-once",
    ) || has_pair(&t, "master", "always-allow") || has_pair(&t, "master", "reject") || has_pair(
        &t,
        "master",
        "revoke-permission",
    )) {
        return Some("daemon restart and permission decisions are never requestable");
    }
    if cadence && has_pair(&t, "audit", "approve") {
        return Some("audit approve is never requestable");
    }
    if any_protected(argv) {
        return Some("the master's SOUL.md, AGENT.md and permissions.yaml are never requestable");
    }
    if touches_state(argv, f) {
        return Some("the daemon state dir is never requestable");
    }
    None
}

// ---------- requestable commands ----------

pub open spec fn writes(w: Seq<char>) -> bool {
    w == "new"@ || w == "put"@ || w == "write"@ || w == "edit"@ || w == "rm"@ || w == "delete"@ || w
        == "set"@ || w == "dispatch"@ || w == "send"@ || w == "remove"@
}

pub open spec fn risk(argv: Seq<Seq<char>>) -> Risk {
    if reads(program(argv)) {
        Risk::Low
    } else if exists|i: int| 0 <= i < argv.len() && writes(#[trigger] argv[i]) {
        Risk::High
    } else {
        Risk::Medium
    }
}

fn is_write(w: &str) -> (r: bool)
    ensures
        r == writes(w@),
{
    text::eq(w, "new") || text::eq(w, "put") || text::eq(w, "write") || text::eq(w, "edit")
        || text::eq(w, "rm") || text::eq(w, "delete") || text::eq(w, "set") || text::eq(
        w,
        "dispatch",
    ) || text::eq(w, "send") || text::eq(w, "remove")
}

fn risk_of(argv: &Vec<String>) -> (r: Risk)
    ensures
        r == risk(argv.deep_view()),
{
    if is_reader(program_of(argv).as_str()) {
        return Risk::Low;
    }
    let ghost d = argv.deep_view();
    let mut i: usize = 0;
    while i < argv.len()
        invariant
            d == argv.deep_view(),
            !reads(program(d)),
            i <= argv@.len(),
            forall|k: int| 0 <= k < i ==> !writes(#[trigger] d[k]),
        decreases argv.len() - i,
    {
        assert(d[i as int] == argv@[i as int]@);
        if is_write(argv[i].as_str()) {
            assert(writes(d[i as int]));
            return Risk::High;
        }
        i = i + 1;
    }
    Risk::Medium
}

/// The positions after the program that are no flags, from `n` on.
pub open spec fn operands(argv: Seq<Seq<char>>, n: int) -> Seq<int>
    decreases argv.len() - n,
{
    if n >= argv.len() {
        seq![]
    } else if argv[n].len() > 0 && argv[n][0] == '-' {
        operands(argv, n + 1)
    } else {
        seq![n] + operands(argv, n + 1)
    }
}

/// The arguments that name files: all operands, but for the pattern of
/// `grep`.
pub open spec fn files(argv: Seq<Seq<char>>) -> Seq<int> {
    let all = operands(argv, 1);
    if program(argv) == "grep"@ && all.len() > 0 {
        all.drop_first()
    } else {
        all
    }
}

/// Every file that a reading command names exists and is in a registered
/// checkout, and it names one.
pub open spec fn in_checkouts(argv: Seq<Seq<char>>, f: Facts) -> bool {
    &&& f.checkouts@.len() > 0
    &&& files(argv).len() > 0
    &&& forall|k: int|
        0 <= k < files(argv).len() ==> {
            let i = #[trigger] files(argv)[k];
            f.resolved@[i] is Some && inside_any(f.resolved@[i]->0@, f.checkouts.deep_view())
        }
}

fn operands_of(argv: &Vec<String>) -> (r: Vec<usize>)
    ensures
        r@.len() == operands(argv.deep_view(), 1).len(),
        forall|k: int|
            0 <= k < r@.len() ==> #[trigger] r@[k] == operands(argv.deep_view(), 1)[k] && r@[k]
                < argv@.len(),
{
    let ghost d = argv.deep_view();
    let ghost all = operands(d, 1);
    let mut out: Vec<usize> = Vec::new();
    let mut i: usize = 1;
    assert(all.skip(0) =~= all);
    while i < argv.len()
        invariant
            d == argv.deep_view(),
            all == operands(d, 1),
            1 <= i,
            out@.len() <= all.len(),
            operands(d, i as int) == all.skip(out@.len() as int),
            forall|k: int| 0 <= k < out@.len() ==> #[trigger] out@[k] == all[k] && out@[k] < argv@.len(),
        decreases argv.len() - i,
    {
        assert(d[i as int] == argv@[i as int]@);
        let v = text::chars_of(argv[i].as_str());
        if !(v.len() > 0 && v[0] == '-') {
            let ghost rest = operands(d, i as int);
            assert(rest[0] == i);
            assert(all.skip(out@.len() as int).len() == all.len() - out@.len());
            assert(all[out@.len() as int] == rest[0]);
            assert(rest.skip(1) =~= operands(d, i + 1));
            assert(all.skip(out@.len() as int).skip(1) =~= all.skip(out@.len() as int + 1));
            out.push(i);
        }
        i = i + 1;
    }
    assert(operands(d, i as int).len() == 0);
    out
}

fn paths_in_checkouts(argv: &Vec<String>, f: &Facts) -> (r: bool)
    requires
        f.resolved@.len() == argv@.len(),
    ensures
        r == in_checkouts(argv.deep_view(), *f),
{
    if f.checkouts.len() == 0 {
        return false;
    }
    let ghost d = argv.deep_view();
    let all = operands_of(argv);
    let skip: usize = if all.len() > 0 && text::eq(program_of(argv).as_str(), "grep") {
        1
    } else {
        0
    };
    assert(files(d).len() == all@.len() - skip);
    assert(forall|k: int| 0 <= k < files(d).len() ==> files(d)[k] == all@[k + skip]);
    if all.len() == skip {
        return false;
    }
    let mut k: usize = skip;
    while k < all.len()
        invariant
            d == argv.deep_view(),
            f.resolved@.len() == argv@.len(),
            f.checkouts@.len() > 0,
            skip <= 1,
            skip <= k <= all@.len(),
            files(d).len() == all@.len() - skip,
            files(d).len() > 0,
            forall|j: int| 0 <= j < files(d).len() ==> files(d)[j] == all@[j + skip],
            forall|j: int| 0 <= j < all@.len() ==> #[trigger] all@[j] < argv@.len(),
            forall|j: int|
                0 <= j < k - skip ==> {
                    let i = #[trigger] files(d)[j];
                    f.resolved@[i] is Some && inside_any(
                        f.resolved@[i]->0@,
                        f.checkouts.deep_view(),
                    )
                },
        decreases all.len() - k,
    {
        let i = all[k];
        assert(files(d)[k - skip] == i);
        match &f.resolved[i] {
            None => {
                return false;
            },
            Some(p) => {
                if !is_inside_any(p.as_str(), &f.checkouts) {
                    return false;
                }
            },
        }
        k = k + 1;
    }
    true
}

/// What a command is to the operator: ill-formed, never, allowlisted,
/// requestable, in that order.
pub open spec fn class(argv: Seq<Seq<char>>, f: Facts, list: Seq<Seq<char>>) -> ClassView {
    if form_fault(argv) is Some {
        ClassView::IllFormed(
            if argv.len() == 0 || argv.len() > ARG_MAX {
                "one plain command"@
            } else {
                "no pipes, chaining, redirects, quotes or escapes"@
            },
        )
    } else if never(argv, f) is Some {
        ClassView::Never(never(argv, f)->0)
    } else if on_allowlist(argv, list) {
        ClassView::Allowlisted
    } else if program(argv) == "cadence"@ {
        ClassView::Requestable(risk(argv))
    } else if reads(program(argv)) && in_checkouts(argv, f) {
        ClassView::Requestable(Risk::Low)
    } else {
        ClassView::Never(
            "only a cadence verb, or ls/cat/grep/find inside a registered project checkout, can be requested"@,
        )
    }
}

/// Classifies a command. `f` holds what is known of its arguments, and
/// `list` is the static allowlist.
pub fn classify(argv: &Vec<String>, f: &Facts, list: &Vec<String>) -> (r: Class)
    requires
        f.resolved@.len() == argv@.len(),
    ensures
        r@ == class(normal(argv.deep_view()), *f, list.deep_view()),
{
    let argv = normalize_argv(argv);
    if well_formed(&argv).is_err() {
        return Class::IllFormed {
            why: if argv.len() == 0 || argv.len() > ARG_MAX {
                "one plain command"
            } else {
                "no pipes, chaining, redirects, quotes or escapes"
            },
        };
    }
    if let Some(why) = never_why(&argv, f) {
        return Class::Never { why };
    }
    if allowlisted(&argv, list) {
        return Class::Allowlisted;
    }
    let name = program_of(&argv);
    if text::eq(name.as_str(), "cadence") {
        return Class::Requestable { risk: risk_of(&argv) };
    }
    if is_reader(name.as_str()) && paths_in_checkouts(&argv, f) {
        return Class::Requestable { risk: Risk::Low };
    }
    Class::Never {
        why: "only a cadence verb, or ls/cat/grep/find inside a registered project checkout, can be requested",
    }
}

// ---------- laws ----------

/// What is on the never-list is neither allowlisted nor requestable,
/// whatever else is known.
pub proof fn the_never_list_is_absolute(argv: Seq<Seq<char>>, f: Facts, list: Seq<Seq<char>>)
    requires
        never(argv, f) is Some,
    ensures
        class(argv, f, list) is Never || class(argv, f, list) is IllFormed,
{
}

/// The state directories are untouchable: a well-formed command with an
/// argument that leads into one is never requestable nor allowlisted,
/// whatever its program and the checkouts are.
pub proof fn state_is_untouchable(
    argv: Seq<Seq<char>>,
    f: Facts,
    list: Seq<Seq<char>>,
    i: int,
)
    requires
        form_fault(argv) is None,
        0 <= i < argv.len(),
        f.resolved@[i] is Some,
        inside_any(f.resolved@[i]->0@, f.state_dirs.deep_view()),
    ensures
        class(argv, f, list) is Never,
{
    assert(names_state(f, argv, i));
}

/// A foreign program can never be requested: only `cadence`, or a program
/// that reads inside a registered checkout.
pub proof fn foreign_programs_are_never(argv: Seq<Seq<char>>, f: Facts, list: Seq<Seq<char>>)
    requires
        program(argv) != "cadence"@,
        !reads(program(argv)) || f.checkouts@.len() == 0,
    ensures
        class(argv, f, list) is Never || class(argv, f, list) is IllFormed,
{
}

/// A command with a shell metacharacter in an argument is ill-formed.
pub proof fn metacharacters_are_ill_formed(
    argv: Seq<Seq<char>>,
    f: Facts,
    list: Seq<Seq<char>>,
    i: int,
    k: int,
)
    requires
        0 <= i < argv.len(),
        0 <= k < argv[i].len(),
        !arg_char(argv[i][k]),
    ensures
        class(argv, f, list) is IllFormed,
{
    assert(!plain_arg(argv[i]));
}

/// Every agent has a rules file of its own.
pub proof fn rules_are_per_agent(pm_dir: Seq<char>, a: Seq<char>, b: Seq<char>)
    requires
        alias(a),
        alias(b),
        rules_path(pm_dir, a) == rules_path(pm_dir, b),
    ensures
        a == b,
{
    reveal_strlit("agents");
    reveal_strlit("permissions.yaml");
    reveal_strlit("/");
    let dir = paths::join(pm_dir, "agents"@);
    assert("agents"@.len() == 6 && "agents"@[5] == 's');
    assert(dir.len() > 0 && dir.last() == 's');
    assert(alias_char(a[0]) && alias_char(b[0]));
    assert(alias_char(a.last()) && alias_char(b.last()));
    let tail = "/"@ + PERMISSIONS_FILE@;
    let head = dir + "/"@;
    assert(paths::join(dir, a) =~= head + a);
    assert(paths::join(dir, b) =~= head + b);
    assert(rules_path(pm_dir, a) =~= head + a + tail);
    assert(rules_path(pm_dir, b) =~= head + b + tail);
    assert(a.len() == b.len());
    assert forall|i: int| 0 <= i < a.len() implies a[i] == b[i] by {
        assert((head + a + tail)[head.len() + i] == a[i]);
        assert((head + b + tail)[head.len() + i] == b[i]);
    }
    assert(a =~= b);
}

} // verus!
