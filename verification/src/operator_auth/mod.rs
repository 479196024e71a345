//! Operator identity for the web board: the operator secret, single-use
//! login links and sessions.
//!
//! The secret is 32 random bytes as hex in a file that only its owner may
//! read; every reader refuses a loose file, naming the fix, and repairs
//! nothing. Of a link's nonce and of a session's token and key only the
//! digest is kept.
pub mod gate_laws;
pub mod laws;
pub mod session;
pub mod table;

use crate::error::Error;
use crate::hash;
use crate::paths;
use crate::text;
use vstd::prelude::*;

verus! {

pub const DIR: &'static str = "operator";

pub const SECRET: &'static str = "secret";

pub const SESSIONS: &'static str = "sessions.json";

/// How long a login link lives.
pub const LINK_TTL_SECS: i64 = 120;

/// A session unused this long is gone.
pub const IDLE_SECS: i64 = 86400;

/// No session outlives this.
pub const ABSOLUTE_SECS: i64 = 604800;

/// How often the last use of a session is written, at most.
pub const TOUCH_EVERY_SECS: i64 = 60;

/// How long a public session lives.
pub const PUBLIC_SESSION_SECS: i64 = 3600;

/// Where a login link may be exchanged and a session used. A session never
/// crosses from one to another.
#[derive(Clone, Copy, Debug, PartialEq, Eq, Structural)]
pub enum Origin {
    /// The board on this host.
    Loopback,
    /// Through the proven proxy of the tailnet.
    Tailnet,
    /// On the board's public name.
    Public,
}

impl Origin {
    pub open spec fn name(self) -> Seq<char> {
        match self {
            Origin::Loopback => "loopback"@,
            Origin::Tailnet => "tailnet"@,
            Origin::Public => "public"@,
        }
    }

    pub fn parse(raw: &str) -> (r: Option<Origin>)
        ensures
            match r {
                Some(o) => raw@ == o.name(),
                None => raw@ != "loopback"@ && raw@ != "tailnet"@ && raw@ != "public"@,
            },
    {
        if text::eq(raw, "loopback") {
            Some(Origin::Loopback)
        } else if text::eq(raw, "tailnet") {
            Some(Origin::Tailnet)
        } else if text::eq(raw, "public") {
            Some(Origin::Public)
        } else {
            None
        }
    }

    pub fn as_str(self) -> (r: &'static str)
        ensures
            r@ == self.name(),
    {
        match self {
            Origin::Loopback => "loopback",
            Origin::Tailnet => "tailnet",
            Origin::Public => "public",
        }
    }
}

// ---------- credentials ----------

/// The shape of a credential: 64 lower-case hex digits.
pub open spec fn credential(s: Seq<char>) -> bool {
    s.len() == 64 && forall|i: int| 0 <= i < s.len() ==> hash::lower_hex(#[trigger] s[i])
}

pub fn well_formed(credential: &str) -> (r: bool)
    ensures
        r == self::credential(credential@),
{
    let v = text::chars_of(credential);
    if v.len() != 64 {
        return false;
    }
    let mut i: usize = 0;
    while i < v.len()
        invariant
            v@ == credential@,
            i <= v@.len(),
            forall|k: int| 0 <= k < i ==> hash::lower_hex(#[trigger] v@[k]),
        decreases v.len() - i,
    {
        let c = v[i];
        if !(('0' <= c && c <= '9') || ('a' <= c && c <= 'f')) {
            assert(!hash::lower_hex(credential@[i as int]));
            return false;
        }
        i = i + 1;
    }
    true
}

/// A fresh credential. Which one rests on chance.
pub fn random_credential() -> (r: Result<String, Error>)
    ensures
        match r {
            Ok(s) => credential(s@),
            Err(e) => e is Internal,
        },
{
    match hash::random_bytes() {
        Ok(b) => {
            let s = hash::hex_of(b.as_slice());
            proof {
                hash::hex_len(b@);
                hash::hex_is_lower(b@);
            }
            Ok(s)
        },
        Err(e) => Err(Error::Internal("getrandom: ".to_owned().concat(e.as_str()))),
    }
}

/// The only form in which a credential is kept: its SHA-256 in hex.
pub open spec fn digest_of(s: Seq<char>) -> Seq<char> {
    hash::sha256_hex(vstd::utf8::encode_utf8(s))
}

pub fn digest(credential: &str) -> (r: String)
    ensures
        r@ == digest_of(credential@),
        self::credential(r@),
{
    let r = hash::sha256_text(credential);
    proof {
        hash::hex_is_lower(hash::sha256(vstd::utf8::encode_utf8(credential@)));
    }
    r
}

/// Two credentials have the same digest.
pub open spec fn twins(a: Seq<char>, b: Seq<char>) -> bool {
    hash::sha256(vstd::utf8::encode_utf8(a)) == hash::sha256(vstd::utf8::encode_utf8(b))
}

/// Whether two credentials are the same, by their digests: every byte is
/// visited, so that the time taken says nothing of where they differ.
pub fn same_credential(presented: &str, expected: &str) -> (r: bool)
    ensures
        r == twins(presented@, expected@),
        presented@ == expected@ ==> r,
{
    let a = hash::sha256_of(text::bytes_of(presented).as_slice());
    let b = hash::sha256_of(text::bytes_of(expected).as_slice());
    let mut acc: u8 = 0;
    let mut i: usize = 0;
    while i < a.len()
        invariant
            a@.len() == 32,
            b@.len() == 32,
            i <= 32,
            acc == 0 <==> forall|k: int| 0 <= k < i ==> a@[k] == b@[k],
        decreases a.len() - i,
    {
        let x = a[i];
        let y = b[i];
        let ghost before = acc;
        acc = acc | (x ^ y);
        assert(before | (x ^ y) == 0u8 <==> before == 0u8 && x == y) by (bit_vector);
        i = i + 1;
    }
    proof {
        if acc == 0 {
            assert(a@ =~= b@);
        }
    }
    acc == 0
}

// ---------- strict modes ----------

/// What is known of a file or a directory without following a link.
#[derive(Debug, Clone, Copy)]
pub struct Meta {
    /// It is what it should be: a real directory, or a regular file.
    pub right_kind: bool,
    pub uid: u32,
    pub mode: u32,
}

/// A group or other bit is set.
pub open spec fn loose(mode: u32) -> bool {
    mode % 64 != 0
}

/// The permission bits, as three octal digits.
pub open spec fn octal(mode: u32) -> Seq<char> {
    let m = (mode % 512) as int;
    seq![text::digit(m / 64), text::digit(m / 8 % 8), text::digit(m % 8)]
}

fn octal_of(mode: u32) -> (r: String)
    ensures
        r@ == octal(mode),
{
    let m: u32 = mode % 512;
    let a = text::dec_of((m / 64) as u64);
    let b = text::dec_of((m / 8 % 8) as u64);
    let c = text::dec_of((m % 8) as u64);
    assert(a@ =~= seq![text::digit((m / 64) as int)]);
    assert(b@ =~= seq![text::digit((m / 8 % 8) as int)]);
    assert(c@ =~= seq![text::digit((m % 8) as int)]);
    let r = a.concat(b.as_str()).concat(c.as_str());
    assert(r@ =~= octal(mode));
    r
}

pub open spec fn foreign_text(path: Seq<char>, uid: u32, euid: u32) -> Seq<char> {
    path + " is owned by uid "@ + text::dec(uid as nat) + ", not this user (uid "@ + text::dec(
        euid as nat,
    ) + ") — refusing it"@
}

fn foreign_text_of(path: &str, uid: u32, euid: u32) -> (r: String)
    ensures
        r@ == foreign_text(path@, uid, euid),
{
    path.to_owned().concat(" is owned by uid ").concat(text::dec_of(uid as u64).as_str()).concat(
        ", not this user (uid ",
    ).concat(text::dec_of(euid as u64).as_str()).concat(") — refusing it")
}

/// What kind of file is read.
#[derive(Debug, Clone, Copy, PartialEq, Eq, Structural)]
pub enum Kind {
    Dir,
    Secret,
    Private,
}

pub open spec fn kind_text(kind: Kind, path: Seq<char>) -> Seq<char> {
    match kind {
        Kind::Dir => path
            + " is not a directory (a symlink or a file) — refusing it; move it aside and run `cadence ui login --rotate`"@,
        _ => path + " is not a regular file — refusing it"@,
    }
}

pub open spec fn loose_text(kind: Kind, path: Seq<char>, mode: u32) -> Seq<char> {
    let head = path + " has mode "@ + octal(mode);
    match kind {
        Kind::Dir => head + "; it must be private — run `chmod 700 "@ + path + "`"@,
        Kind::Secret => head
            + "; it must be readable by this user only — run `chmod 600 "@ + path
            + "`, then `cadence ui login --rotate` (another user may have read it)"@,
        Kind::Private => head + "; it must be private — run `chmod 600 "@ + path + "`"@,
    }
}

/// Why a file is refused: its kind, its owner, or a group or other bit.
/// Nothing is repaired.
pub open spec fn mode_fault(kind: Kind, path: Seq<char>, m: Meta, euid: u32) -> Option<Seq<char>> {
    if !m.right_kind {
        Some(kind_text(kind, path))
    } else if m.uid != euid {
        Some(foreign_text(path, m.uid, euid))
    } else if loose(m.mode) {
        Some(loose_text(kind, path, m.mode))
    } else {
        None
    }
}

pub open spec fn code_of(kind: Kind) -> Seq<char> {
    match kind {
        Kind::Private => "capability_unavailable"@,
        _ => "operator_secret"@,
    }
}

/// An error is a refusal with a code and a text.
pub open spec fn refuses(e: Error, code: Seq<char>, why: Seq<char>) -> bool {
    e is Invalid && e->code@ == code && e.text() == why
}

fn refuse(kind: Kind, message: String) -> (e: Error)
    ensures
        refuses(e, code_of(kind), message@),
{
    match kind {
        Kind::Private => Error::Invalid { code: "capability_unavailable", message },
        _ => Error::Invalid { code: "operator_secret", message },
    }
}

/// Whether a file may be read under strict modes.
pub fn check_modes(kind: Kind, path: &str, m: Meta, euid: u32) -> (r: Result<(), Error>)
    ensures
        match (r, mode_fault(kind, path@, m, euid)) {
            (Ok(_), None) => true,
            (Err(e), Some(why)) => refuses(e, code_of(kind), why),
            _ => false,
        },
{
    if !m.right_kind {
        let why = match kind {
            Kind::Dir => path.to_owned().concat(
                " is not a directory (a symlink or a file) — refusing it; move it aside and run `cadence ui login --rotate`",
            ),
            _ => path.to_owned().concat(" is not a regular file — refusing it"),
        };
        return Err(refuse(kind, why));
    }
    if m.uid != euid {
        return Err(refuse(kind, foreign_text_of(path, m.uid, euid)));
    }
    if m.mode % 64 != 0 {
        let head = path.to_owned().concat(" has mode ").concat(octal_of(m.mode).as_str());
        let why = match kind {
            Kind::Dir => head.concat("; it must be private — run `chmod 700 ").concat(
                path,
            ).concat("`"),
            Kind::Secret => head.concat(
                "; it must be readable by this user only — run `chmod 600 ",
            ).concat(path).concat(
                "`, then `cadence ui login --rotate` (another user may have read it)",
            ),
            Kind::Private => head.concat("; it must be private — run `chmod 600 ").concat(
                path,
            ).concat("`"),
        };
        return Err(refuse(kind, why));
    }
    Ok(())
}

/// The refusal of a file that could not be opened; `link` where it is a
/// symbolic link.
pub fn open_refusal(kind: Kind, path: &str, link: bool, why: &str) -> (e: Error)
    ensures
        refuses(
            e,
            code_of(kind),
            match (kind, link) {
                (Kind::Dir, _) => path@ + ": "@ + why@
                    + " — run `cadence ui login` to create the operator secret"@,
                (Kind::Secret, true) => path@
                    + " is a symlink — refusing it; remove it and run `cadence ui login --rotate`"@,
                (Kind::Secret, false) => path@ + ": "@ + why@
                    + " — run `cadence ui login` to create it"@,
                (Kind::Private, true) => path@ + " is a symlink — refusing it"@,
                (Kind::Private, false) => path@ + ": "@ + why@,
            },
        ),
{
    let message = match (kind, link) {
        (Kind::Dir, _) => path.to_owned().concat(": ").concat(why).concat(
            " — run `cadence ui login` to create the operator secret",
        ),
        (Kind::Secret, true) => path.to_owned().concat(
            " is a symlink — refusing it; remove it and run `cadence ui login --rotate`",
        ),
        (Kind::Secret, false) => path.to_owned().concat(": ").concat(why).concat(
            " — run `cadence ui login` to create it",
        ),
        (Kind::Private, true) => path.to_owned().concat(" is a symlink — refusing it"),
        (Kind::Private, false) => path.to_owned().concat(": ").concat(why),
    };
    refuse(kind, message)
}

/// The secret that a file holds: one well-formed credential.
pub fn read_secret(path: &str, raw: &str) -> (r: Result<String, Error>)
    ensures
        match r {
            Ok(s) => credential(text::trim(raw@)) && s@ == text::trim(raw@),
            Err(e) => !credential(text::trim(raw@)) && refuses(
                e,
                "operator_secret"@,
                path@
                    + " does not hold a well-formed secret — run `cadence ui login --rotate`"@,
            ),
        },
{
    let secret = text::trim_of(raw);
    if !well_formed(secret.as_str()) {
        return Err(
            refuse(
                Kind::Secret,
                path.to_owned().concat(
                    " does not hold a well-formed secret — run `cadence ui login --rotate`",
                ),
            ),
        );
    }
    Ok(secret)
}

/// The name of a file that is directly in the directory.
pub open spec fn bare_name(name: Seq<char>) -> bool {
    name.len() > 0 && !name.contains('/') && !name.contains('\\') && name[0] != '.'
}

pub fn check_name(name: &str) -> (r: Result<(), Error>)
    ensures
        match r {
            Ok(_) => bare_name(name@),
            Err(e) => !bare_name(name@) && e is Internal && e.text() == "operator file name '"@
                + name@ + "' is not a bare file name"@,
        },
{
    let v = text::chars_of(name);
    if v.len() == 0 || text::contains_char(name, '/') || text::contains_char(name, '\\') || v[0]
        == '.' {
        return Err(
            Error::Internal(
                "operator file name '".to_owned().concat(name).concat(
                    "' is not a bare file name",
                ),
            ),
        );
    }
    Ok(())
}

pub fn dir(state_dir: &str) -> (r: String)
    ensures
        r@ == paths::join(state_dir@, DIR@),
{
    paths::join_of(state_dir, DIR)
}

pub fn secret_path(state_dir: &str) -> (r: String)
    ensures
        r@ == paths::join(paths::join(state_dir@, DIR@), SECRET@),
{
    paths::join_of(dir(state_dir).as_str(), SECRET)
}

// ---------- named users ----------

/// The user that a public session names.
#[derive(Clone, Debug)]
pub struct BoardUser {
    pub sub: String,
    pub email: String,
    pub name: String,
    pub role: String,
    pub handle: String,
}

pub struct UserView {
    pub sub: Seq<char>,
    pub email: Seq<char>,
    pub name: Seq<char>,
    pub role: Seq<char>,
    pub handle: Seq<char>,
}

impl View for BoardUser {
    type V = UserView;

    open spec fn view(&self) -> UserView {
        UserView {
            sub: self.sub@,
            email: self.email@,
            name: self.name@,
            role: self.role@,
            handle: self.handle@,
        }
    }
}

/// A printable ASCII character.
pub open spec fn printable(c: char) -> bool {
    (c as u32) >= 32 && (c as u32) < 127
}

/// The first `n` characters that `f` admits.
pub open spec fn first_kept(s: Seq<char>, f: spec_fn(char) -> bool, n: nat) -> Seq<char> {
    let k = s.filter(f);
    if k.len() > n {
        k.take(n as int)
    } else {
        k
    }
}

/// A character of a name in a commit trailer.
pub open spec fn trailer_char() -> spec_fn(char) -> bool {
    |c: char| printable(c) && c != '<' && c != '>'
}

pub open spec fn agent_char() -> spec_fn(char) -> bool {
    |c: char| printable(c)
}

/// The first characters that may be shown; those of a trailer are without
/// angle brackets.
fn keep(s: &str, n: usize, trailer: bool) -> (r: String)
    ensures
        r@ == first_kept(
            s@,
            if trailer {
                trailer_char()
            } else {
                agent_char()
            },
            n as nat,
        ),
{
    let v = text::chars_of(s);
    let ghost f = if trailer {
        trailer_char()
    } else {
        agent_char()
    };
    let mut out: Vec<char> = Vec::new();
    let mut i: usize = 0;
    proof {
        reveal(Seq::filter);
        assert(v@.take(0) =~= Seq::empty());
        assert(out@ =~= v@.take(0).filter(f));
    }
    while i < v.len()
        invariant
            v@ == s@,
            f == (if trailer {
                trailer_char()
            } else {
                agent_char()
            }),
            i <= v@.len(),
            out@ == v@.take(i as int).filter(f),
        decreases v.len() - i,
    {
        proof {
            reveal(Seq::filter);
            assert(v@.take(i + 1).drop_last() =~= v@.take(i as int));
        }
        let c = v[i];
        let code = c as u32;
        if code >= 32 && code < 127 && (!trailer || (c != '<' && c != '>')) {
            out.push(c);
        }
        i = i + 1;
    }
    assert(v@.take(i as int) =~= v@);
    let m: usize = if out.len() > n {
        n
    } else {
        out.len()
    };
    let r = text::string_of(out.as_slice(), 0, m);
    assert(r@ =~= out@.take(m as int));
    assert(m == out@.len() ==> out@.take(m as int) =~= out@);
    r
}

pub open spec fn cleaned(s: Seq<char>) -> Seq<char> {
    text::trim(first_kept(s, trailer_char(), 120))
}

/// How a user is named in a commit trailer.
pub open spec fn actor_text(u: UserView) -> Seq<char> {
    let (name, email) = (cleaned(u.name), cleaned(u.email));
    if name.len() == 0 {
        u.handle + " (board)"@
    } else if email.len() == 0 {
        name + " (board)"@
    } else {
        name + " <"@ + email + "> (board)"@
    }
}

impl BoardUser {
    /// The session may use the routes that only the operator may.
    pub fn is_operator(&self) -> (r: bool)
        ensures
            r == (self.role@ == "operator"@),
    {
        text::eq(self.role.as_str(), "operator")
    }

    /// The actor that is shown and audited; it is safe in a trailer.
    pub fn actor(&self) -> (r: String)
        ensures
            r@ == actor_text(self@),
    {
        let name = keep(self.name.as_str(), 120, true);
        let name = text::trim_of(name.as_str());
        let email = keep(self.email.as_str(), 120, true);
        let email = text::trim_of(email.as_str());
        proof {
            reveal_strlit("");
            assert(name@.len() == 0 ==> name@ =~= ""@);
            assert(email@.len() == 0 ==> email@ =~= ""@);
        }
        if text::eq(name.as_str(), "") {
            self.handle.clone().concat(" (board)")
        } else if text::eq(email.as_str(), "") {
            name.concat(" (board)")
        } else {
            name.concat(" <").concat(email.as_str()).concat("> (board)")
        }
    }

    pub fn copy(&self) -> (r: BoardUser)
        ensures
            r@ == self@,
    {
        BoardUser {
            sub: self.sub.clone(),
            email: self.email.clone(),
            name: self.name.clone(),
            role: self.role.clone(),
            handle: self.handle.clone(),
        }
    }
}

pub open spec fn agent_text(raw: Seq<char>) -> Seq<char> {
    first_kept(raw, agent_char(), 160)
}

/// A user agent as it is shown.
pub fn clean_user_agent(raw: &str) -> (r: String)
    ensures
        r@ == agent_text(raw@),
{
    keep(raw, 160, false)
}

// ---------- laws ----------

/// A file with any group or other bit is refused, whatever else holds.
pub proof fn a_loose_file_is_refused(kind: Kind, path: Seq<char>, m: Meta, euid: u32)
    requires
        loose(m.mode),
    ensures
        mode_fault(kind, path, m, euid) is Some,
{
}

proof fn filter_holds(s: Seq<char>, f: spec_fn(char) -> bool, i: int)
    requires
        0 <= i < s.filter(f).len(),
    ensures
        f(s.filter(f)[i]),
    decreases s.len(),
{
    reveal(Seq::filter);
    if i < s.drop_last().filter(f).len() {
        filter_holds(s.drop_last(), f, i);
    }
}

/// What a cleaned name or address holds is printable ASCII without angle
/// brackets, so that it cannot break a trailer.
pub proof fn a_kept_name_is_printable(s: Seq<char>, n: nat, i: int)
    requires
        0 <= i < first_kept(s, trailer_char(), n).len(),
    ensures
        printable(first_kept(s, trailer_char(), n)[i]),
        first_kept(s, trailer_char(), n)[i] != '<',
        first_kept(s, trailer_char(), n)[i] != '>',
        first_kept(s, trailer_char(), n).len() <= n,
{
    filter_holds(s, trailer_char(), i);
}

} // verus!
