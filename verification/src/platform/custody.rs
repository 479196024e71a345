//! Where credential bytes live. Agents see handles and fingerprints,
//! never bytes: custody is the only component that ever holds them.
//!
//! The backend is the host's keychain where the daemon can use one
//! without putting the bytes on a command line, else a store of `0600`
//! files. What a backend is asked to do is decided here; the daemon does
//! it and hands the outcome back.
use crate::error::Error;
use crate::hash;
use crate::paths;
use crate::platform;
use crate::text;
use vstd::prelude::*;

verus! {

/// The tag of the file store.
pub const FILE_TAG: &'static str = "file";

/// The tag of libsecret, reached through `secret-tool`.
pub const LIBSECRET_TAG: &'static str = "keychain:libsecret";

/// The custody backend a daemon uses. Every record names the tag it was
/// written under, so that a load always reaches the backend that holds
/// it.
#[derive(Debug)]
pub enum Custody {
    /// The file store in this directory.
    File(String),
    /// `secret-tool` at this path.
    Libsecret(String),
}

/// A platform's credential for one account: the custody lookup key.
pub struct Key<'a> {
    pub platform: &'a str,
    pub account: &'a str,
}

/// What is asked of the backend that holds a key.
#[derive(Debug)]
pub enum Place {
    /// The file at `path` in the store's directory.
    File { dir: String, path: String },
    /// `secret-tool` with these lookup arguments.
    Tool { tool: String, args: Vec<String> },
}

/// The name of a key's file: a digest, which keeps the account out of
/// the listing and gives a rotation a stable name to rename onto.
pub open spec fn file_name(platform: Seq<char>, account: Seq<char>) -> Seq<char> {
    hash::sha256_hex(vstd::utf8::encode_utf8(platform + "\n"@ + account)) + ".cred"@
}

/// The path of a key's file.
pub fn file_path(dir: &str, key: &Key) -> (r: String)
    ensures
        r@ == paths::join(dir@, file_name(key.platform@, key.account@)),
{
    let id = key.platform.to_owned().concat("\n").concat(key.account);
    let name = hash::sha256_text(id.as_str()).concat(".cred");
    paths::join_of(dir, name.as_str())
}

/// The attributes under which `secret-tool` files a key.
pub open spec fn tool_args(platform: Seq<char>, account: Seq<char>) -> Seq<Seq<char>> {
    seq!["service"@, "cadence-platform"@, "platform"@, platform, account]
}

/// The attributes under which `secret-tool` files a key.
pub fn libsecret_args(key: &Key) -> (r: Vec<String>)
    ensures
        r.deep_view() == tool_args(key.platform@, key.account@),
{
    let mut r: Vec<String> = Vec::new();
    r.push("service".to_owned());
    r.push("cadence-platform".to_owned());
    r.push("platform".to_owned());
    r.push(key.platform.to_owned());
    r.push(key.account.to_owned());
    assert(r.deep_view() =~= tool_args(key.platform@, key.account@));
    r
}

/// The directory of the file store.
pub open spec fn store_dir(state_dir: Seq<char>) -> Seq<char> {
    paths::join(state_dir, "custody"@)
}

/// The place of `key` in the file store of a directory.
pub open spec fn in_store(dir: Seq<char>, key: Key, place: Place) -> bool {
    &&& place is File
    &&& place->dir@ == dir
    &&& place->path@ == paths::join(dir, file_name(key.platform@, key.account@))
}

/// The directory of the file store.
pub fn custody_dir(state_dir: &str) -> (r: String)
    ensures
        r@ == store_dir(state_dir@),
{
    paths::join_of(state_dir, "custody")
}

/// `secret-tool`, where it was found and a session bus is there for it to
/// talk to: a bus address in the environment, or a bus socket in the
/// runtime directory.
pub fn libsecret_tool(found: Option<String>, bus_address: bool, bus_socket: bool) -> (r: Option<
    String,
>)
    ensures
        r == if bus_address || bus_socket {
            found
        } else {
            None
        },
{
    if bus_address || bus_socket {
        found
    } else {
        None
    }
}

pub open spec fn gone_text(platform: Seq<char>, account: Seq<char>) -> Seq<char> {
    "credential for '"@ + platform::account_text(platform, account)
        + "' lives in a keychain this host no longer offers"@
}

pub open spec fn unknown_tag_text(tag: Seq<char>) -> Seq<char> {
    "unknown custody tag '"@ + tag + "'"@
}

impl Custody {
    /// Where this backend keeps `key`.
    pub open spec fn keeps(&self, key: Key, place: Place) -> bool {
        match (*self, place) {
            (Custody::File(d), Place::File { dir, path }) => dir@ == d@ && path@ == paths::join(
                d@,
                file_name(key.platform@, key.account@),
            ),
            (Custody::Libsecret(t), Place::Tool { tool, args }) => tool@ == t@ && args.deep_view()
                == tool_args(key.platform@, key.account@),
            _ => false,
        }
    }

    /// The backend this host supports: the keychain when one is usable,
    /// else the file store.
    pub fn open(state_dir: &str, tool: Option<String>) -> (r: Custody)
        ensures
            match tool {
                Some(t) => r == Custody::Libsecret(t),
                None => r is File && r->File_0@ == store_dir(state_dir@),
            },
    {
        match tool {
            Some(t) => Custody::Libsecret(t),
            None => Custody::File(custody_dir(state_dir)),
        }
    }

    /// The tag written into a record's custody column.
    pub fn tag(&self) -> (r: &'static str)
        ensures
            r@ == if *self is File {
                FILE_TAG@
            } else {
                LIBSECRET_TAG@
            },
    {
        match self {
            Custody::File(_) => FILE_TAG,
            Custody::Libsecret(_) => LIBSECRET_TAG,
        }
    }

    fn place(&self, key: &Key) -> (r: Place)
        ensures
            self.keeps(*key, r),
    {
        match self {
            Custody::File(dir) => Place::File {
                dir: dir.clone(),
                path: file_path(dir.as_str(), key),
            },
            Custody::Libsecret(tool) => Place::Tool {
                tool: tool.clone(),
                args: libsecret_args(key),
            },
        }
    }

    /// Where to store `key`'s bytes, and the tag to record.
    pub fn put(&self, key: &Key) -> (r: (Place, &'static str))
        ensures
            self.keeps(*key, r.0),
            r.1@ == if *self is File {
                FILE_TAG@
            } else {
                LIBSECRET_TAG@
            },
    {
        (self.place(key), self.tag())
    }

    /// Where the bytes that a record with this tag names are read from.
    /// A record enrolled on a keychain that this host no longer has is
    /// refused; it never falls back to the file store.
    pub fn load(&self, tag: &str, key: &Key) -> (r: Result<Place, Error>)
        ensures
            match r {
                Ok(place) => {
                    &&& tag@ == FILE_TAG@ && *self is File || tag@ == LIBSECRET_TAG@ && *self
                        is Libsecret && tag@ != FILE_TAG@
                    &&& self.keeps(*key, place)
                },
                Err(e) => if tag@ == FILE_TAG@ {
                    *self is Libsecret && e is Internal && e.text()
                        == "custody record names the file store but this daemon picked the keychain"@
                } else if tag@ == LIBSECRET_TAG@ {
                    *self is File && e is Rejected && e.text() == gone_text(
                        key.platform@,
                        key.account@,
                    )
                } else {
                    e is Internal && e.text() == unknown_tag_text(tag@)
                },
            },
    {
        let here = matches!(self, Custody::File(_));
        if text::eq(tag, FILE_TAG) {
            if here {
                Ok(self.place(key))
            } else {
                Err(
                    Error::Internal(
                        "custody record names the file store but this daemon picked the keychain".to_owned(),
                    ),
                )
            }
        } else if text::eq(tag, LIBSECRET_TAG) {
            if here {
                Err(Error::Rejected(gone(key)))
            } else {
                Ok(self.place(key))
            }
        } else {
            Err(Error::Internal("unknown custody tag '".to_owned().concat(tag).concat("'")))
        }
    }

    /// Where to drop `key`'s bytes from. A file record is dropped from
    /// the file store of the state directory, whatever the backend is
    /// now.
    pub fn remove(&self, state_dir: &str, tag: &str, key: &Key) -> (r: Result<Place, Error>)
        ensures
            match r {
                Ok(place) => if tag@ == FILE_TAG@ && *self is Libsecret {
                    in_store(store_dir(state_dir@), *key, place)
                } else {
                    &&& tag@ == FILE_TAG@ || tag@ == LIBSECRET_TAG@ && *self is Libsecret
                    &&& self.keeps(*key, place)
                },
                Err(e) => {
                    &&& tag@ != FILE_TAG@
                    &&& if tag@ == LIBSECRET_TAG@ {
                        *self is File && e is Rejected && e.text() == gone_text(
                            key.platform@,
                            key.account@,
                        ) + " — the record stays until its bytes can be removed"@
                    } else {
                        e is Internal && e.text() == unknown_tag_text(tag@)
                    }
                },
            },
    {
        let here = matches!(self, Custody::File(_));
        if text::eq(tag, FILE_TAG) {
            if here {
                Ok(self.place(key))
            } else {
                let dir = custody_dir(state_dir);
                let path = file_path(dir.as_str(), key);
                Ok(Place::File { dir, path })
            }
        } else if text::eq(tag, LIBSECRET_TAG) {
            if here {
                Err(
                    Error::Rejected(
                        gone(key).concat(" — the record stays until its bytes can be removed"),
                    ),
                )
            } else {
                Ok(self.place(key))
            }
        } else {
            Err(Error::Internal("unknown custody tag '".to_owned().concat(tag).concat("'")))
        }
    }
}

fn key_text(key: &Key) -> (r: String)
    ensures
        r@ == platform::account_text(key.platform@, key.account@),
{
    key.platform.to_owned().concat("/").concat(key.account)
}

fn gone(key: &Key) -> (r: String)
    ensures
        r@ == gone_text(key.platform@, key.account@),
{
    "credential for '".to_owned().concat(key_text(key).as_str()).concat(
        "' lives in a keychain this host no longer offers",
    )
}

// ---------- what a backend answered ----------

/// Why a file could not be read or removed.
pub enum FileFault {
    Missing,
    Other(String),
}

/// What reading a key's file came to.
pub fn file_load(key: &Key, read: Result<Vec<u8>, FileFault>) -> (r: Result<Vec<u8>, Error>)
    ensures
        match read {
            Ok(b) => r == Ok::<Vec<u8>, Error>(b),
            Err(FileFault::Missing) => r is Err && r->Err_0 is Internal && r->Err_0.text()
                == "custody holds no bytes for '"@ + platform::account_text(key.platform@, key.account@)
                + "' — the record outlived its store"@,
            Err(FileFault::Other(e)) => r is Err && r->Err_0 is Internal && r->Err_0.text()
                == "custody read: "@ + e@,
        },
{
    match read {
        Ok(b) => Ok(b),
        Err(FileFault::Missing) => Err(
            Error::Internal(
                "custody holds no bytes for '".to_owned().concat(key_text(key).as_str()).concat(
                    "' — the record outlived its store",
                ),
            ),
        ),
        Err(FileFault::Other(e)) => Err(
            Error::Internal("custody read: ".to_owned().concat(e.as_str())),
        ),
    }
}

/// What removing a key's file came to. A file already gone is removed: a
/// retry after a crash finds nothing and proceeds.
pub fn file_remove(removed: Result<(), FileFault>) -> (r: Result<(), Error>)
    ensures
        match removed {
            Err(FileFault::Other(e)) => r is Err && r->Err_0 is Internal && r->Err_0.text()
                == "custody delete: "@ + e@,
            _ => r is Ok,
        },
{
    match removed {
        Err(FileFault::Other(e)) => Err(
            Error::Internal("custody delete: ".to_owned().concat(e.as_str())),
        ),
        _ => Ok(()),
    }
}

/// The bytes without the line breaks at their end.
pub open spec fn unframed(b: Seq<u8>) -> Seq<u8>
    decreases b.len(),
{
    if b.len() > 0 && (b.last() == 10 || b.last() == 13) {
        unframed(b.drop_last())
    } else {
        b
    }
}

/// The secret that `secret-tool lookup` printed. The line break after it
/// is the tool's framing, never part of the credential.
pub fn libsecret_lookup(key: &Key, success: bool, stdout: Vec<u8>) -> (r: Result<Vec<u8>, Error>)
    ensures
        match r {
            Ok(b) => success && b@ == unframed(stdout@),
            Err(e) => !success && e is Internal && e.text() == "keychain holds no credential for '"@
                + platform::account_text(key.platform@, key.account@) + "'"@,
        },
{
    if !success {
        return Err(
            Error::Internal(
                "keychain holds no credential for '".to_owned().concat(
                    key_text(key).as_str(),
                ).concat("'"),
            ),
        );
    }
    let mut b = stdout;
    while b.len() > 0 && (b[b.len() - 1] == 10 || b[b.len() - 1] == 13)
        invariant
            unframed(b@) == unframed(stdout@),
        decreases b.len(),
    {
        let ghost before = b@;
        b.pop();
        assert(b@ =~= before.drop_last());
    }
    Ok(b)
}

/// What `secret-tool clear` came to.
pub fn libsecret_clear(key: &Key, success: bool) -> (r: Result<(), Error>)
    ensures
        match r {
            Ok(()) => success,
            Err(e) => !success && e is Internal && e.text() == "keychain refused to drop '"@
                + platform::account_text(key.platform@, key.account@) + "'"@,
        },
{
    if success {
        Ok(())
    } else {
        Err(
            Error::Internal(
                "keychain refused to drop '".to_owned().concat(key_text(key).as_str()).concat("'"),
            ),
        )
    }
}

/// The label under which `secret-tool store` files a key.
pub fn libsecret_label(key: &Key) -> (r: String)
    ensures
        r@ == "--label=cadence platform "@ + platform::account_text(key.platform@, key.account@),
{
    "--label=cadence platform ".to_owned().concat(key_text(key).as_str())
}

// ---------- laws ----------

/// A key is read from and dropped from the place it was put.
pub proof fn one_place_per_key(c: Custody, key: Key, a: Place, b: Place)
    requires
        c.keeps(key, a),
        c.keeps(key, b),
    ensures
        match (a, b) {
            (Place::File { dir: d1, path: p1 }, Place::File { dir: d2, path: p2 }) => d1@ == d2@
                && p1@ == p2@,
            (Place::Tool { tool: t1, args: a1 }, Place::Tool { tool: t2, args: a2 }) => t1@ == t2@
                && a1.deep_view() == a2.deep_view(),
            _ => false,
        },
{
}

/// What the file store of a state directory was given for a key is what
/// a removal drops, also once the daemon keeps new credentials in a
/// keychain.
pub proof fn a_file_record_is_dropped(
    state_dir: Seq<char>,
    store: Custody,
    key: Key,
    given: Place,
    dropped: Place,
)
    requires
        store is File,
        store->File_0@ == store_dir(state_dir),
        store.keeps(key, given),
        in_store(store_dir(state_dir), key, dropped),
    ensures
        given is File,
        given->path@ == dropped->path@,
        given->dir@ == dropped->dir@,
{
}

/// A credential that ends in no line break survives the tool's framing.
pub proof fn framing_is_not_credential(secret: Seq<u8>, framing: Seq<u8>)
    requires
        secret.len() == 0 || (secret.last() != 10 && secret.last() != 13),
        forall|i: int| 0 <= i < framing.len() ==> framing[i] == 10 || framing[i] == 13,
    ensures
        unframed(secret + framing) == secret,
    decreases framing.len(),
{
    if framing.len() == 0 {
        assert(secret + framing =~= secret);
    } else {
        assert((secret + framing).last() == framing.last());
        assert((secret + framing).drop_last() =~= secret + framing.drop_last());
        framing_is_not_credential(secret, framing.drop_last());
    }
}

} // verus!
