//! Caller identity bound to a connection: which registered agent, if
//! any, a peer process is tied to, and when a peer is the operator.
//!
//! A peer is tied to a pane by three signals. The pane's pid on the
//! peer's ancestry cannot be forged. The pane's pty among the peer's
//! stdio and the pane's alias in the peer's environment can be chosen by
//! any process of the same user, so they only ever narrow authority or
//! name a write's author.
//!
//! Everything read from `/proc` comes in as a value: the functions here
//! decide what it means.
use crate::error::Error;
use crate::text;
use std::collections::HashMap;
use vstd::prelude::*;

verus! {

broadcast use vstd::std_specs::hash::group_hash_axioms;

/// The targets of a process's first three descriptors, where readable.
pub type Stdio = Vec<Option<String>>;

pub open spec fn is_pty(link: Option<Seq<char>>) -> bool {
    link is Some && text::begins(link->0, "/dev/pts/"@)
}

/// The first pty among a process's stdio.
pub open spec fn pty_of(stdio: Seq<Option<Seq<char>>>) -> Option<Seq<char>>
    decreases stdio.len(),
{
    if stdio.len() == 0 {
        None
    } else if is_pty(stdio[0]) {
        stdio[0]
    } else {
        pty_of(stdio.drop_first())
    }
}

/// The peer holds the pane's pty on its own stdio.
pub open spec fn shares_pty(
    peer: Seq<Option<Seq<char>>>,
    pane: Seq<Option<Seq<char>>>,
) -> bool {
    pty_of(pane) is Some && peer.contains(pty_of(pane))
}

fn is_pty_link(link: &Option<String>) -> (r: bool)
    ensures
        r == is_pty(link.deep_view()),
{
    match link {
        Some(l) => text::starts_with(l.as_str(), "/dev/pts/"),
        None => false,
    }
}

/// Whether the peer holds the pane's pty: the first pty of the pane's
/// stdio is a target of the peer's.
pub fn holds_pane_tty(peer: &Stdio, pane: &Stdio) -> (r: bool)
    ensures
        r == shares_pty(peer.deep_view(), pane.deep_view()),
{
    let mut i: usize = 0;
    let ghost d = pane.deep_view();
    assert(d.skip(0) =~= d);
    while i < pane.len() && !is_pty_link(&pane[i])
        invariant
            d == pane.deep_view(),
            i <= pane.len(),
            pty_of(d) == pty_of(d.skip(i as int)),
        decreases pane.len() - i,
    {
        assert(d.skip(i as int).drop_first() =~= d.skip(i + 1));
        i = i + 1;
    }
    if i == pane.len() {
        return false;
    }
    assert(d.skip(i as int)[0] == d[i as int]);
    assert(pty_of(d) == d[i as int]);
    let mut k: usize = 0;
    while k < peer.len()
        invariant
            d == pane.deep_view(),
            i < pane.len(),
            pty_of(d) == d[i as int],
            d[i as int] is Some,
            k <= peer.len(),
            forall|j: int| 0 <= j < k ==> peer.deep_view()[j] != d[i as int],
        decreases peer.len() - k,
    {
        if let (Some(a), Some(b)) = (&peer[k], &pane[i]) {
            if text::eq(a.as_str(), b.as_str()) {
                assert(peer.deep_view()[k as int] == d[i as int]);
                return true;
            }
        }
        k = k + 1;
    }
    false
}

/// The value of the first entry that begins with `prefix`, among the
/// entries that are UTF-8.
pub open spec fn first_value(entries: Seq<Seq<u8>>, prefix: Seq<char>) -> Option<Seq<char>>
    decreases entries.len(),
{
    if entries.len() == 0 {
        None
    } else if vstd::utf8::valid_utf8(entries[0]) && text::begins(vstd::utf8::decode_utf8(entries[0]), prefix) {
        Some(vstd::utf8::decode_utf8(entries[0]).skip(prefix.len() as int))
    } else {
        first_value(entries.drop_first(), prefix)
    }
}

/// The agent alias that an environment carries; an empty one is none.
pub open spec fn env_alias(environ: Seq<u8>) -> Option<Seq<char>> {
    match first_value(text::split(environ, 0u8), "CADENCE_ALIAS="@) {
        Some(a) if a.len() > 0 => Some(a),
        _ => None,
    }
}

/// The `CADENCE_ALIAS` that a NUL-separated environment carries.
pub fn caller_env_alias(environ: &[u8]) -> (r: Option<String>)
    ensures
        r.deep_view() == env_alias(environ@),
{
    let entries = text::split_bytes(environ, 0u8);
    let ghost d = entries.deep_view();
    let mut i: usize = 0;
    assert(d.skip(0) =~= d);
    while i < entries.len()
        invariant
            d == entries.deep_view(),
            d == text::split(environ@, 0u8),
            i <= entries.len(),
            first_value(d, "CADENCE_ALIAS="@) == first_value(
                d.skip(i as int),
                "CADENCE_ALIAS="@,
            ),
        decreases entries.len() - i,
    {
        let ghost rest = d.skip(i as int);
        assert(rest[0] == d[i as int]);
        assert(d[i as int] =~= entries@[i as int]@);
        assert(rest.drop_first() =~= d.skip(i + 1));
        let entry = vstd::slice::slice_to_vec(entries[i].as_slice());
        if let Some(kv) = text::from_utf8(entry) {
            if let Some(value) = text::strip_prefix(kv.as_str(), "CADENCE_ALIAS=") {
                if value.as_str().is_empty() {
                    return None;
                }
                return Some(value);
            }
        }
        i = i + 1;
    }
    None
}

/// The stdio of each pane's process, by pid.
pub type Ttys = HashMap<u32, Stdio>;

pub open spec fn stdio_in(ttys: Map<u32, Stdio>, pid: u32) -> Seq<Option<Seq<char>>> {
    if ttys.contains_key(pid) {
        ttys[pid].deep_view()
    } else {
        seq![]
    }
}

fn shares_pty_of(peer: &Stdio, ttys: &Ttys, pid: u32) -> (r: bool)
    ensures
        r == shares_pty(peer.deep_view(), stdio_in(ttys@, pid)),
{
    match ttys.get(&pid) {
        Some(stdio) => holds_pane_tty(peer, stdio),
        None => {
            assert(pty_of(seq![]) is None);
            false
        },
    }
}

/// What ties one peer process to registered panes. `chain` is its
/// ancestry, the peer itself first; `None` when it could not be walked
/// to its end, which proves neither membership nor its absence.
pub struct PeerTies {
    pub pid: u32,
    pub chain: Option<Vec<u32>>,
    pub env_alias: Option<String>,
    pub stdio: Stdio,
}

impl PeerTies {
    pub open spec fn has_ancestor(&self, pid: u32) -> bool {
        self.chain is Some && self.chain->0@.contains(pid)
    }

    pub open spec fn by_process(&self, pid: u32, ttys: Map<u32, Stdio>) -> bool {
        self.has_ancestor(pid) || shares_pty(self.stdio.deep_view(), stdio_in(ttys, pid))
    }

    pub open spec fn by_any(&self, alias: Seq<char>, pid: u32, ttys: Map<u32, Stdio>) -> bool {
        self.by_process(pid, ttys) || self.env_alias.deep_view() == Some(alias)
    }

    /// The ties of a peer, from its ancestry, its environment and its
    /// stdio as they read now.
    pub fn probe(pid: u32, chain: Option<Vec<u32>>, environ: Option<Vec<u8>>, stdio: Stdio) -> (r:
        Self)
        ensures
            r.pid == pid,
            r.chain == chain,
            r.stdio == stdio,
            r.env_alias.deep_view() == match environ {
                Some(e) => env_alias(e@),
                None => None,
            },
    {
        let env_alias = match environ {
            Some(e) => caller_env_alias(e.as_slice()),
            None => None,
        };
        PeerTies { pid, chain, env_alias, stdio }
    }

    /// Whether the whole ancestry could be walked.
    pub fn walked(&self) -> (r: bool)
        ensures
            r == (self.chain is Some),
    {
        self.chain.is_some()
    }

    /// Whether `pid` is the peer itself or on its ancestry.
    pub fn descends_from(&self, pid: u32) -> (r: bool)
        ensures
            r == self.has_ancestor(pid),
    {
        match &self.chain {
            Some(c) => has_pid(c.as_slice(), pid),
            None => false,
        }
    }

    /// Whether a process signal ties the peer to the pane: its pid on
    /// the ancestry, or its pty on the stdio.
    pub fn process_tied(&self, pane_pid: u32, ttys: &Ttys) -> (r: bool)
        ensures
            r == self.by_process(pane_pid, ttys@),
    {
        self.descends_from(pane_pid) || shares_pty_of(&self.stdio, ttys, pane_pid)
    }

    /// Whether any signal ties the peer to the pane. For narrowing
    /// authority only: a forged alias can only refuse its forger.
    pub fn tied_to(&self, alias: &str, pane_pid: u32, ttys: &Ttys) -> (r: bool)
        ensures
            r == self.by_any(alias@, pane_pid, ttys@),
    {
        self.process_tied(pane_pid, ttys) || text::opt_is(&self.env_alias, alias)
    }

    /// The panes whose agent the peer may be attributed as, by process
    /// signals only: their aliases, sorted, each once.
    pub fn attributed_agents(&self, panes: &Vec<(String, u32)>, ttys: &Ttys) -> (r: Vec<String>)
        ensures
            text::increasing(r.deep_view()),
            forall|x: Seq<char>| #[trigger]
                r.deep_view().contains(x) <==> exists|i: int|
                    0 <= i < panes@.len() && (#[trigger] panes@[i]).0@ == x && self.by_process(panes@[i].1, ttys@),
    {
        let mut r: Vec<String> = Vec::new();
        assert(r.deep_view() =~= Seq::empty());
        let mut k: usize = 0;
        while k < panes.len()
            invariant
                k <= panes@.len(),
                text::increasing(r.deep_view()),
                forall|x: Seq<char>| #[trigger]
                    r.deep_view().contains(x) <==> exists|i: int|
                        0 <= i < k && (#[trigger] panes@[i]).0@ == x && self.by_process(panes@[i].1, ttys@),
            decreases panes.len() - k,
        {
            if self.process_tied(panes[k].1, ttys) {
                text::insert_name(&mut r, panes[k].0.as_str());
            }
            k = k + 1;
        }
        r
    }

    /// Every pane that the peer is tied to by any signal: their aliases,
    /// sorted, each once.
    pub fn agents(&self, panes: &Vec<(String, u32)>, ttys: &Ttys) -> (r: Vec<String>)
        ensures
            text::increasing(r.deep_view()),
            forall|x: Seq<char>| #[trigger]
                r.deep_view().contains(x) <==> exists|i: int|
                    0 <= i < panes@.len() && (#[trigger] panes@[i]).0@ == x && self.by_any(x, panes@[i].1, ttys@),
    {
        let mut r: Vec<String> = Vec::new();
        assert(r.deep_view() =~= Seq::empty());
        let mut k: usize = 0;
        while k < panes.len()
            invariant
                k <= panes@.len(),
                text::increasing(r.deep_view()),
                forall|x: Seq<char>| #[trigger]
                    r.deep_view().contains(x) <==> exists|i: int|
                        0 <= i < k && (#[trigger] panes@[i]).0@ == x && self.by_any(x, panes@[i].1, ttys@),
            decreases panes.len() - k,
        {
            if self.tied_to(panes[k].0.as_str(), panes[k].1, ttys) {
                text::insert_name(&mut r, panes[k].0.as_str());
            }
            k = k + 1;
        }
        r
    }

    /// Whether the peer holds a pty at all.
    pub fn on_tty(&self) -> (r: bool)
        ensures
            r == exists|i: int|
                0 <= i < self.stdio@.len() && is_pty(#[trigger] self.stdio.deep_view()[i]),
    {
        let mut i: usize = 0;
        while i < self.stdio.len()
            invariant
                i <= self.stdio@.len(),
                forall|j: int| 0 <= j < i ==> !is_pty(#[trigger] self.stdio.deep_view()[j]),
            decreases self.stdio.len() - i,
        {
            if is_pty_link(&self.stdio[i]) {
                assert(is_pty(self.stdio.deep_view()[i as int]));
                return true;
            }
            i = i + 1;
        }
        false
    }
}

fn has_pid(v: &[u32], pid: u32) -> (r: bool)
    ensures
        r == v@.contains(pid),
{
    let mut i: usize = 0;
    while i < v.len()
        invariant
            i <= v@.len(),
            forall|j: int| 0 <= j < i ==> v@[j] != pid,
        decreases v.len() - i,
    {
        if v[i] == pid {
            assert(v@[i as int] == pid);
            return true;
        }
        i = i + 1;
    }
    false
}


/// Places a caller that matched no pane, for a verb on a pane. A broken
/// walk of its ancestry is a refusal while the target pane is alive and
/// `unknown` once it is gone. After a clean walk only a terminal of its
/// own makes it the `operator`.
pub fn unmatched_caller(walked: bool, target_alive: bool, foreign_tty: bool, verb: &str) -> (r:
    Result<(String, &'static str), Error>)
    ensures
        match r {
            Ok((by, kind)) => {
                &&& walked || !target_alive
                &&& by@ == kind@
                &&& kind@ == if walked && foreign_tty {
                    "operator"@
                } else {
                    "unknown"@
                }
            },
            Err(e) => {
                &&& !walked && target_alive
                &&& e is Rejected
                &&& e.text() == "cannot derive the caller for `"@ + verb@
                    + "` — /proc could not be walked while the target pane is alive; run it from a shell attached to a pane or outside all panes"@
            },
        },
{
    if !walked {
        if target_alive {
            return Err(
                Error::Rejected(
                    "cannot derive the caller for `".to_owned().concat(verb).concat(
                        "` — /proc could not be walked while the target pane is alive; run it from a shell attached to a pane or outside all panes",
                    ),
                ),
            );
        }
        return Ok(("unknown".to_owned(), "unknown"));
    }
    if foreign_tty {
        Ok(("operator".to_owned(), "operator"))
    } else {
        Ok(("unknown".to_owned(), "unknown"))
    }
}

// ---------- what /proc prints ----------

/// The real and effective uid that one status line gives.
pub open spec fn line_uids(l: Seq<char>) -> Option<(nat, nat)> {
    if !text::begins(l, "Uid:"@) {
        None
    } else {
        let ids = text::words(l.skip("Uid:"@.len() as int));
        if ids.len() < 2 {
            None
        } else {
            match (
                text::unsigned_upto(ids[0], 10, u32::MAX as nat),
                text::unsigned_upto(ids[1], 10, u32::MAX as nat),
            ) {
                (Some(a), Some(b)) => Some((a, b)),
                _ => None,
            }
        }
    }
}

pub open spec fn first_uids(ls: Seq<Seq<char>>) -> Option<(nat, nat)>
    decreases ls.len(),
{
    if ls.len() == 0 {
        None
    } else if line_uids(ls[0]) is Some {
        line_uids(ls[0])
    } else {
        first_uids(ls.drop_first())
    }
}

pub open spec fn proc_file(pid: u32, name: Seq<char>) -> Seq<char> {
    "/proc/"@ + text::dec(pid as nat) + name
}

/// The uids of a status text, or why there are none.
pub open spec fn uids(pid: u32, status: Result<String, String>) -> Result<(nat, nat), Seq<char>> {
    match status {
        Err(e) => Err(proc_file(pid, "/status: "@) + e@),
        Ok(t) => match first_uids(text::lines(t@)) {
            Some(u) => Ok(u),
            None => Err(proc_file(pid, "/status: no Uid line"@)),
        },
    }
}

fn parse_u32(s: &str) -> (r: Option<u32>)
    ensures
        match r {
            Some(n) => text::unsigned_upto(s@, 10, u32::MAX as nat) == Some(n as nat),
            None => text::unsigned_upto(s@, 10, u32::MAX as nat) is None,
        },
{
    match text::parse_unsigned(s, 10, u32::MAX as u64) {
        Some(n) => Some(n as u32),
        None => None,
    }
}

fn line_uids_of(l: &str) -> (r: Option<(u32, u32)>)
    ensures
        match r {
            Some((a, b)) => line_uids(l@) == Some((a as nat, b as nat)),
            None => line_uids(l@) is None,
        },
{
    match text::strip_prefix(l, "Uid:") {
        None => None,
        Some(rest) => {
            let ids = text::words_of(rest.as_str());
            assert(ids.len() == ids.deep_view().len());
            if ids.len() < 2 {
                return None;
            }
            assert(ids.deep_view()[0] == ids@[0]@);
            assert(ids.deep_view()[1] == ids@[1]@);
            match (parse_u32(ids[0].as_str()), parse_u32(ids[1].as_str())) {
                (Some(a), Some(b)) => Some((a, b)),
                _ => None,
            }
        },
    }
}

fn proc_file_of(pid: u32, name: &str) -> (r: String)
    ensures
        r@ == proc_file(pid, name@),
{
    "/proc/".to_owned().concat(text::dec_of(pid as u64).as_str()).concat(name)
}

/// The real and effective uid of a process, from its status text.
pub fn proc_uids(pid: u32, status: &Result<String, String>) -> (r: Result<(u32, u32), String>)
    ensures
        match r {
            Ok((a, b)) => uids(pid, *status) == Ok::<(nat, nat), Seq<char>>((a as nat, b as nat)),
            Err(e) => uids(pid, *status) == Err::<(nat, nat), Seq<char>>(e@),
        },
{
    match status {
        Err(e) => Err(proc_file_of(pid, "/status: ").concat(e.as_str())),
        Ok(t) => {
            let ls = text::lines_of(t.as_str());
            let ghost d = ls.deep_view();
            let mut i: usize = 0;
            assert(d.skip(0) =~= d);
            while i < ls.len()
                invariant
                    *status == Ok::<String, String>(*t),
                    d == ls.deep_view(),
                    d == text::lines(t@),
                    i <= ls.len(),
                    first_uids(d) == first_uids(d.skip(i as int)),
                decreases ls.len() - i,
            {
                assert(d.skip(i as int)[0] == ls@[i as int]@);
                assert(d.skip(i as int).drop_first() =~= d.skip(i + 1));
                if let Some(u) = line_uids_of(ls[i].as_str()) {
                    return Ok(u);
                }
                i = i + 1;
            }
            Err(proc_file_of(pid, "/status: no Uid line"))
        },
    }
}

/// Field `n` of a stat text, counted after the last `)`: the command
/// name before it may hold spaces and parentheses.
pub open spec fn stat_field(stat: Seq<char>, n: int) -> Option<Seq<char>> {
    match text::after_last(stat, ')') {
        Some(after) => if n < text::words(after).len() {
            Some(text::words(after)[n])
        } else {
            None
        },
        None => None,
    }
}

fn stat_field_of(stat: &str, n: usize) -> (r: Option<String>)
    ensures
        r.deep_view() == stat_field(stat@, n as int),
{
    match text::after_last_of(stat, ')') {
        Some(after) => {
            let ws = text::words_of(after.as_str());
            assert(ws.len() == ws.deep_view().len());
            if n < ws.len() {
                assert(ws.deep_view()[n as int] == ws@[n as int]@);
                Some(ws[n].clone())
            } else {
                None
            }
        },
        None => None,
    }
}

/// The number in a field of a stat text.
pub open spec fn stat_number(stat: Seq<char>, n: int, max: nat) -> Option<nat> {
    match stat_field(stat, n) {
        Some(f) => text::unsigned_upto(f, 10, max),
        None => None,
    }
}

fn stat_number_of(stat: &str, n: usize, max: u64) -> (r: Option<u64>)
    ensures
        match r {
            Some(v) => stat_number(stat@, n as int, max as nat) == Some(v as nat),
            None => stat_number(stat@, n as int, max as nat) is None,
        },
{
    match stat_field_of(stat, n) {
        Some(f) => text::parse_unsigned(f.as_str(), 10, max),
        None => None,
    }
}

/// The session id of a stat text, or why there is none.
pub open spec fn session(pid: u32, stat: Result<String, String>) -> Result<nat, Seq<char>> {
    match stat {
        Err(e) => Err(proc_file(pid, "/stat: "@) + e@),
        Ok(t) => match stat_number(t@, 3, u32::MAX as nat) {
            Some(s) => Ok(s),
            None => Err(proc_file(pid, "/stat: malformed"@)),
        },
    }
}

/// The session id of a process, from its stat text.
pub fn proc_session(pid: u32, stat: &Result<String, String>) -> (r: Result<u32, String>)
    ensures
        match r {
            Ok(s) => session(pid, *stat) == Ok::<nat, Seq<char>>(s as nat),
            Err(e) => session(pid, *stat) == Err::<nat, Seq<char>>(e@),
        },
{
    match stat {
        Err(e) => Err(proc_file_of(pid, "/stat: ").concat(e.as_str())),
        Ok(t) => match stat_number_of(t.as_str(), 3, u32::MAX as u64) {
            Some(s) => Ok(s as u32),
            None => Err(proc_file_of(pid, "/stat: malformed")),
        },
    }
}

/// The start time of a process in clock ticks since boot, from its stat
/// text. With the pid it names a process even after the pid is reused.
pub fn proc_starttime(stat: &str) -> (r: Option<u64>)
    ensures
        match r {
            Some(v) => stat_number(stat@, 19, u64::MAX as nat) == Some(v as nat),
            None => stat_number(stat@, 19, u64::MAX as nat) is None,
        },
{
    stat_number_of(stat, 19, u64::MAX)
}


// ---------- the operator ----------

/// One process on a peer's ancestry: its status text and environment,
/// or why they could not be read.
pub struct Hop {
    pub pid: u32,
    pub status: Result<String, String>,
    pub environ: Result<Vec<u8>, String>,
}

/// What the operator proof reads of a peer. The ancestry begins with
/// the peer itself and is `None` when it could not be walked.
pub struct PeerFacts {
    pub pid: u32,
    pub status: Result<String, String>,
    pub ancestry: Option<Vec<Hop>>,
    pub stdio: Stdio,
    pub stat: Result<String, String>,
}

/// An environment has an entry that begins with `prefix`.
pub open spec fn carries(environ: Seq<u8>, prefix: Seq<char>) -> bool {
    exists|i: int|
        0 <= i < text::split(environ, 0u8).len() && vstd::utf8::encode_utf8(prefix).is_prefix_of(
            #[trigger] text::split(environ, 0u8)[i],
        )
}

fn carries_entry(environ: &Vec<u8>, prefix: &str) -> (r: bool)
    ensures
        r == carries(environ@, prefix@),
{
    let entries = text::split_bytes(environ.as_slice(), 0u8);
    let p = text::bytes_of(prefix);
    let ghost d = entries.deep_view();
    assert(entries@.len() == d.len());
    let mut i: usize = 0;
    while i < entries.len()
        invariant
            d == entries.deep_view(),
            d == text::split(environ@, 0u8),
            p@ == vstd::utf8::encode_utf8(prefix@),
            i <= entries.len(),
            forall|j: int| 0 <= j < i ==> !p@.is_prefix_of(#[trigger] d[j]),
        decreases entries.len() - i,
    {
        let e = &entries[i];
        assert(d[i as int] =~= e@);
        let mut k: usize = 0;
        while k < p.len() && k < e.len() && p[k] == e[k]
            invariant
                k <= p.len(),
                k <= e.len(),
                forall|j: int| 0 <= j < k ==> p@[j] == e@[j],
            decreases p.len() - k,
        {
            k = k + 1;
        }
        if k == p.len() {
            assert(p@ =~= e@.subrange(0, p@.len() as int));
            assert(p@.is_prefix_of(d[i as int]));
            return true;
        }
        assert(!p@.is_prefix_of(d[i as int])) by {
            if p@.is_prefix_of(e@) {
                assert(p@[k as int] == e@.subrange(0, p@.len() as int)[k as int]);
            }
        }
        i = i + 1;
    }
    false
}

pub open spec fn on_ancestry(pid: u32) -> Seq<char> {
    "pid "@ + text::dec(pid as nat) + " on its ancestry "@
}

fn on_ancestry_of(pid: u32) -> (r: String)
    ensures
        r@ == on_ancestry(pid),
{
    "pid ".to_owned().concat(text::dec_of(pid as u64).as_str()).concat(" on its ancestry ")
}

/// One pass of the operator proof over a peer's ancestry.
#[derive(Clone, Copy, Debug, PartialEq, Eq, Structural)]
pub enum Pass {
    /// The status of every process can be read.
    Status,
    /// No process is a pane, an enrolled endpoint or the daemon.
    Roots,
    /// No process carries an agent's or a runner's environment.
    Marks,
}

/// A process that is an agent's root: a pane, an enrolled endpoint, or the
/// daemon above the peer.
pub open spec fn root_refusal(
    hop: Hop,
    first: bool,
    daemon_pid: u32,
    panes: Map<u32, String>,
    enrolled: Map<u32, String>,
) -> Option<Seq<char>> {
    if panes.contains_key(hop.pid) {
        Some(on_ancestry(hop.pid) + "is registered pane '"@ + panes[hop.pid]@ + "'"@)
    } else if enrolled.contains_key(hop.pid) {
        Some(on_ancestry(hop.pid) + "is an enrolled managed endpoint"@)
    } else if !first && hop.pid == daemon_pid {
        Some(
            "it descends from the daemon (pid "@ + text::dec(hop.pid as nat)
                + ") — a process the daemon launched"@,
        )
    } else {
        None
    }
}

/// A process of this user whose environment speaks against the operator;
/// the peer's own must be readable.
pub open spec fn mark_refusal(hop: Hop, first: bool, peer: u32, uid: u32) -> Option<Seq<char>> {
    match uids(hop.pid, hop.status) {
        Err(_) => None,
        Ok((ruid, euid)) => if ruid != uid && euid != uid {
            None
        } else {
            match hop.environ {
                Ok(env) => if carries(env@, "CADENCE_ALIAS="@) {
                    Some(
                        on_ancestry(hop.pid) + "carries CADENCE_ALIAS — an agent's environment"@,
                    )
                } else if carries(env@, "CADENCE_RUNNER_ID="@) {
                    Some(
                        on_ancestry(hop.pid)
                            + "carries CADENCE_RUNNER_ID — a daemon-launched runner's environment"@,
                    )
                } else {
                    None
                },
                Err(e) => if first {
                    Some(
                        "pid "@ + text::dec(peer as nat) + ": "@ + proc_file(peer, "/environ: "@)
                            + e@,
                    )
                } else {
                    None
                },
            }
        },
    }
}

/// What a pass finds against the operator in one process on the ancestry
/// of `peer`.
pub open spec fn hop_refusal(
    pass: Pass,
    hop: Hop,
    first: bool,
    peer: u32,
    uid: u32,
    daemon_pid: u32,
    panes: Map<u32, String>,
    enrolled: Map<u32, String>,
) -> Option<Seq<char>> {
    match pass {
        Pass::Status => match uids(hop.pid, hop.status) {
            Err(e) => Some(e),
            Ok(_) => None,
        },
        Pass::Roots => root_refusal(hop, first, daemon_pid, panes, enrolled),
        Pass::Marks => mark_refusal(hop, first, peer, uid),
    }
}

/// The first refusal of a pass on the ancestry from position `i` on.
pub open spec fn chain_refusal(
    pass: Pass,
    hops: Seq<Hop>,
    i: int,
    peer: u32,
    uid: u32,
    daemon_pid: u32,
    panes: Map<u32, String>,
    enrolled: Map<u32, String>,
) -> Option<Seq<char>>
    decreases hops.len() - i,
{
    if i < 0 || i >= hops.len() {
        None
    } else {
        match hop_refusal(pass, hops[i], i == 0, peer, uid, daemon_pid, panes, enrolled) {
            Some(e) => Some(e),
            None => chain_refusal(pass, hops, i + 1, peer, uid, daemon_pid, panes, enrolled),
        }
    }
}

/// The first refusal of the passes over an ancestry: all status first,
/// then all roots, then all marks.
pub open spec fn walk_refusal(
    hops: Seq<Hop>,
    peer: u32,
    uid: u32,
    daemon_pid: u32,
    panes: Map<u32, String>,
    enrolled: Map<u32, String>,
) -> Option<Seq<char>> {
    let status = chain_refusal(Pass::Status, hops, 0, peer, uid, daemon_pid, panes, enrolled);
    let roots = chain_refusal(Pass::Roots, hops, 0, peer, uid, daemon_pid, panes, enrolled);
    if status is Some {
        status
    } else if roots is Some {
        roots
    } else {
        chain_refusal(Pass::Marks, hops, 0, peer, uid, daemon_pid, panes, enrolled)
    }
}

/// Why the peer's own uid or its ancestry speaks against the operator.
pub open spec fn lineage_refusal(
    f: PeerFacts,
    uid: u32,
    daemon_pid: u32,
    panes: Map<u32, String>,
    enrolled: Map<u32, String>,
) -> Option<Seq<char>> {
    match uids(f.pid, f.status) {
        Err(e) => Some(e),
        Ok((ruid, euid)) => if ruid != uid || euid != uid {
            Some(
                "pid "@ + text::dec(f.pid as nat) + " runs as uid "@ + text::dec(ruid) + "/"@
                    + text::dec(euid) + ", not the daemon's uid "@ + text::dec(uid as nat),
            )
        } else {
            match f.ancestry {
                None => Some(
                    "pid "@ + text::dec(f.pid as nat) + ": /proc ancestry unreadable"@,
                ),
                Some(hops) => walk_refusal(hops@, f.pid, uid, daemon_pid, panes, enrolled),
            }
        },
    }
}

/// The peer holds the pty of the registered pane `pane`.
pub open spec fn pty_of_pane(f: PeerFacts, panes: Map<u32, String>, ttys: Map<u32, Stdio>, pane: u32) -> bool {
    panes.contains_key(pane) && shares_pty(f.stdio.deep_view(), stdio_in(ttys, pane))
}

pub open spec fn pty_refusal(alias: Seq<char>) -> Seq<char> {
    "it holds registered pane '"@ + alias + "''s pty on its stdio"@
}

/// Why the peer's session speaks against the operator: its leader is
/// gone from the ancestry, so where the peer came from is unknowable.
pub open spec fn session_refusal(f: PeerFacts) -> Option<Seq<char>> {
    match session(f.pid, f.stat) {
        Err(e) => Some(e),
        Ok(sid) => if sid > 1 && !(f.ancestry is Some && exists|i: int|
            0 <= i < f.ancestry->0@.len() && (#[trigger] f.ancestry->0@[i]).pid == sid) {
            Some(
                "its session leader pid "@ + text::dec(sid)
                    + " is not on its ancestry — a detached (setsid + fork) process, whose origin is unknowable"@,
            )
        } else {
            None
        },
    }
}

fn root_refusal_of(
    hop: &Hop,
    first: bool,
    daemon_pid: u32,
    panes: &HashMap<u32, String>,
    enrolled: &HashMap<u32, String>,
) -> (r: Option<String>)
    ensures
        r.deep_view() == root_refusal(*hop, first, daemon_pid, panes@, enrolled@),
{
    if let Some(alias) = panes.get(&hop.pid) {
        return Some(
            on_ancestry_of(hop.pid).concat("is registered pane '").concat(alias.as_str()).concat(
                "'",
            ),
        );
    }
    if enrolled.contains_key(&hop.pid) {
        return Some(on_ancestry_of(hop.pid).concat("is an enrolled managed endpoint"));
    }
    if !first && hop.pid == daemon_pid {
        return Some(
            "it descends from the daemon (pid ".to_owned().concat(
                text::dec_of(hop.pid as u64).as_str(),
            ).concat(") — a process the daemon launched"),
        );
    }
    None
}

fn mark_refusal_of(hop: &Hop, first: bool, peer: u32, uid: u32) -> (r: Option<String>)
    ensures
        r.deep_view() == mark_refusal(*hop, first, peer, uid),
{
    let (ruid, euid) = match proc_uids(hop.pid, &hop.status) {
        Err(_) => {
            return None;
        },
        Ok(u) => u,
    };
    if ruid != uid && euid != uid {
        return None;
    }
    match &hop.environ {
        Ok(env) => {
            if carries_entry(env, "CADENCE_ALIAS=") {
                return Some(
                    on_ancestry_of(hop.pid).concat(
                        "carries CADENCE_ALIAS — an agent's environment",
                    ),
                );
            }
            if carries_entry(env, "CADENCE_RUNNER_ID=") {
                return Some(
                    on_ancestry_of(hop.pid).concat(
                        "carries CADENCE_RUNNER_ID — a daemon-launched runner's environment",
                    ),
                );
            }
            None
        },
        Err(e) => {
            if first {
                Some(
                    "pid ".to_owned().concat(text::dec_of(peer as u64).as_str()).concat(
                        ": ",
                    ).concat(proc_file_of(peer, "/environ: ").as_str()).concat(e.as_str()),
                )
            } else {
                None
            }
        },
    }
}

fn hop_refusal_of(
    pass: Pass,
    hop: &Hop,
    first: bool,
    peer: u32,
    uid: u32,
    daemon_pid: u32,
    panes: &HashMap<u32, String>,
    enrolled: &HashMap<u32, String>,
) -> (r: Option<String>)
    ensures
        r.deep_view() == hop_refusal(pass, *hop, first, peer, uid, daemon_pid, panes@, enrolled@),
{
    match pass {
        Pass::Status => match proc_uids(hop.pid, &hop.status) {
            Err(e) => Some(e),
            Ok(_) => None,
        },
        Pass::Roots => root_refusal_of(hop, first, daemon_pid, panes, enrolled),
        Pass::Marks => mark_refusal_of(hop, first, peer, uid),
    }
}

fn chain_refusal_of(
    pass: Pass,
    hops: &Vec<Hop>,
    peer: u32,
    uid: u32,
    daemon_pid: u32,
    panes: &HashMap<u32, String>,
    enrolled: &HashMap<u32, String>,
) -> (r: Option<String>)
    ensures
        r.deep_view() == chain_refusal(
            pass,
            hops@,
            0,
            peer,
            uid,
            daemon_pid,
            panes@,
            enrolled@,
        ),
{
    let mut i: usize = 0;
    while i < hops.len()
        invariant
            i <= hops@.len(),
            chain_refusal(pass, hops@, 0, peer, uid, daemon_pid, panes@, enrolled@)
                == chain_refusal(
                pass,
                hops@,
                i as int,
                peer,
                uid,
                daemon_pid,
                panes@,
                enrolled@,
            ),
        decreases hops.len() - i,
    {
        if let Some(e) = hop_refusal_of(
            pass,
            &hops[i],
            i == 0,
            peer,
            uid,
            daemon_pid,
            panes,
            enrolled,
        ) {
            return Some(e);
        }
        i = i + 1;
    }
    None
}

/// What the operator proof of `f` may say.
pub open spec fn proof_outcome(
    f: PeerFacts,
    uid: u32,
    daemon_pid: u32,
    panes: Map<u32, String>,
    enrolled: Map<u32, String>,
    ttys: Map<u32, Stdio>,
    r: Result<(), String>,
) -> bool {
    match r {
        Ok(()) => {
            &&& lineage_refusal(f, uid, daemon_pid, panes, enrolled) is None
            &&& forall|p: u32| !#[trigger] pty_of_pane(f, panes, ttys, p)
            &&& session_refusal(f) is None
        },
        Err(e) => {
            let lineage = lineage_refusal(f, uid, daemon_pid, panes, enrolled);
            ||| lineage == Some(e@)
            ||| lineage is None && exists|p: u32| #[trigger]
                pty_of_pane(f, panes, ttys, p) && e@ == pty_refusal(panes[p]@)
            ||| {
                &&& lineage is None
                &&& forall|p: u32| !#[trigger] pty_of_pane(f, panes, ttys, p)
                &&& session_refusal(f) == Some(e@)
            }
        },
    }
}

/// Positive proof that a local peer is the operator. It is one only when
/// every check reads cleanly and holds, in this order: it runs as `uid`;
/// its whole ancestry can be walked and every status on it read; no process
/// on it is a registered pane, an enrolled endpoint or the daemon; none
/// carries an agent's or a runner's environment; it holds no registered
/// pane's pty; and its session leader is on its ancestry. The error names
/// the first check that fails.
pub fn operator_proof(
    f: &PeerFacts,
    uid: u32,
    daemon_pid: u32,
    panes: &HashMap<u32, String>,
    enrolled: &HashMap<u32, String>,
    ttys: &Ttys,
) -> (r: Result<(), String>)
    ensures
        proof_outcome(*f, uid, daemon_pid, panes@, enrolled@, ttys@, r),
{
    let (ruid, euid) = match proc_uids(f.pid, &f.status) {
        Err(e) => {
            return Err(e);
        },
        Ok(u) => u,
    };
    if ruid != uid || euid != uid {
        return Err(
            "pid ".to_owned().concat(text::dec_of(f.pid as u64).as_str()).concat(
                " runs as uid ",
            ).concat(text::dec_of(ruid as u64).as_str()).concat("/").concat(
                text::dec_of(euid as u64).as_str(),
            ).concat(", not the daemon's uid ").concat(text::dec_of(uid as u64).as_str()),
        );
    }
    let hops = match &f.ancestry {
        None => {
            return Err(
                "pid ".to_owned().concat(text::dec_of(f.pid as u64).as_str()).concat(
                    ": /proc ancestry unreadable",
                ),
            );
        },
        Some(hops) => hops,
    };
    if let Some(e) = chain_refusal_of(
        Pass::Status,
        hops,
        f.pid,
        uid,
        daemon_pid,
        panes,
        enrolled,
    ) {
        return Err(e);
    }
    if let Some(e) = chain_refusal_of(
        Pass::Roots,
        hops,
        f.pid,
        uid,
        daemon_pid,
        panes,
        enrolled,
    ) {
        return Err(e);
    }
    if let Some(e) = chain_refusal_of(
        Pass::Marks,
        hops,
        f.pid,
        uid,
        daemon_pid,
        panes,
        enrolled,
    ) {
        return Err(e);
    }
    for p in it: panes.keys()
        invariant
            lineage_refusal(*f, uid, daemon_pid, panes@, enrolled@) is None,
            forall|j: int|
                0 <= j < it.index() ==> !pty_of_pane(*f, panes@, ttys@, *#[trigger] it.seq()[j]),
            it.seq().unref().to_set() == panes@.dom(),
    {
        if shares_pty_of(&f.stdio, ttys, *p) {
            assert(it.seq().unref()[it.index()] == *p);
            assert(it.seq().unref().to_set().contains(*p));
            if let Some(alias) = panes.get(p) {
                assert(pty_of_pane(*f, panes@, ttys@, *p));
                return Err(
                    "it holds registered pane '".to_owned().concat(alias.as_str()).concat(
                        "''s pty on its stdio",
                    ),
                );
            }
        }
    }
    proof {
        assert forall|p: u32| !#[trigger] pty_of_pane(*f, panes@, ttys@, p) by {
            if panes@.contains_key(p) {
            }
        }
    }
    let sid: u32 = match proc_session(f.pid, &f.stat) {
        Err(e) => {
            return Err(e);
        },
        Ok(s) => s,
    };
    if sid > 1 {
        let mut k: usize = 0;
        let mut found = false;
        while k < hops.len()
            invariant
                k <= hops@.len(),
                found <==> exists|j: int| 0 <= j < k && (#[trigger] hops@[j]).pid == sid,
            decreases hops.len() - k,
        {
            if hops[k].pid == sid {
                found = true;
            }
            k = k + 1;
        }
        if !found {
            return Err(
                "its session leader pid ".to_owned().concat(
                    text::dec_of(sid as u64).as_str(),
                ).concat(
                    " is not on its ancestry — a detached (setsid + fork) process, whose origin is unknowable",
                ),
            );
        }
    }
    Ok(())
}


// ---------- who may change an agent ----------

/// Who is asking to change an agent row, derived from the connection.
#[derive(Debug, Clone, PartialEq, Eq)]
pub enum AgentCaller {
    /// Positive operator proof.
    Operator,
    /// A registered agent, by alias.
    Agent(String),
}

impl AgentCaller {
    /// `(by, by_kind)` for audit events.
    pub fn audit(&self) -> (r: (&str, &'static str))
        ensures
            match *self {
                AgentCaller::Operator => r.0@ == "operator"@ && r.1@ == "operator"@,
                AgentCaller::Agent(alias) => r.0@ == alias@ && r.1@ == "agent"@,
            },
    {
        match self {
            AgentCaller::Operator => ("operator", "operator"),
            AgentCaller::Agent(alias) => (alias.as_str(), "agent"),
        }
    }
}

/// What a mutation of an agent can do.
#[derive(Debug, Clone, Copy, PartialEq, Eq)]
pub enum AgentMutation {
    /// Only the agent's own model and effort.
    SelfService,
    /// Anything else: trust-bearing or posture params, and removal.
    Controlled,
}

/// Who besides the agent may change `target`, as a refusal names it.
pub open spec fn owner_text(target: Seq<char>, target_pm: Option<Seq<char>>) -> Seq<char> {
    match target_pm {
        Some(pm) if pm != target => "the operator or its PM '"@ + pm + "'"@,
        _ => "the operator (it has no PM)"@,
    }
}

/// Why `alias` may not make this change to `target`; `None` when it may.
pub open spec fn mutation_refusal(
    alias: Seq<char>,
    target: Seq<char>,
    target_pm: Option<Seq<char>>,
    mutation: AgentMutation,
    verb: Seq<char>,
) -> Option<Seq<char>> {
    if alias == target {
        if mutation is SelfService {
            None
        } else {
            Some(
                verb + " refused: agent '"@ + alias
                    + "' cannot make this change to itself — an agent may set only its own model/effort; trust-bearing and posture params and removal of '"@
                    + target + "' belong to "@ + owner_text(target, target_pm)
                    + " (caller rule, CAD-149)"@,
            )
        }
    } else if target_pm == Some(alias) {
        None
    } else {
        Some(
            verb + " refused: agent '"@ + alias
                + "' cannot change another agent — only '"@ + target
                + "' itself (model/effort) and "@ + owner_text(target, target_pm)
                + " may change '"@ + target + "' (caller rule, CAD-149)"@,
        )
    }
}

/// The one rule for "may `caller` mutate agent `target`": the operator
/// and the target's own PM may do anything to it, the agent itself may
/// make a self-service change, everyone else is refused. A PM is never
/// its own PM.
pub fn may_mutate_agent(
    caller: &AgentCaller,
    target: &str,
    target_pm: Option<&str>,
    mutation: AgentMutation,
    verb: &str,
) -> (r: Result<(), String>)
    ensures
        match *caller {
            AgentCaller::Operator => r is Ok,
            AgentCaller::Agent(alias) => match r {
                Ok(()) => mutation_refusal(
                    alias@,
                    target@,
                    target_pm.deep_view(),
                    mutation,
                    verb@,
                ) is None,
                Err(e) => mutation_refusal(
                    alias@,
                    target@,
                    target_pm.deep_view(),
                    mutation,
                    verb@,
                ) == Some(e@),
            },
        },
{
    let alias = match caller {
        AgentCaller::Operator => {
            return Ok(());
        },
        AgentCaller::Agent(alias) => alias.as_str(),
    };
    let own = text::eq(alias, target);
    if let Some(pm) = target_pm {
        if !own && text::eq(pm, alias) {
            return Ok(());
        }
    }
    let owner = match target_pm {
        Some(pm) => if text::eq(pm, target) {
            "the operator (it has no PM)".to_owned()
        } else {
            "the operator or its PM '".to_owned().concat(pm).concat("'")
        },
        None => "the operator (it has no PM)".to_owned(),
    };
    if own {
        match mutation {
            AgentMutation::SelfService => Ok(()),
            AgentMutation::Controlled => Err(
                verb.to_owned().concat(" refused: agent '").concat(alias).concat(
                    "' cannot make this change to itself — an agent may set only its own model/effort; trust-bearing and posture params and removal of '",
                ).concat(target).concat("' belong to ").concat(owner.as_str()).concat(
                    " (caller rule, CAD-149)",
                ),
            ),
        }
    } else {
        Err(
            verb.to_owned().concat(" refused: agent '").concat(alias).concat(
                "' cannot change another agent — only '",
            ).concat(target).concat("' itself (model/effort) and ").concat(owner.as_str()).concat(
                " may change '",
            ).concat(target).concat("' (caller rule, CAD-149)"),
        )
    }
}

// ---------- recorded processes ----------

/// What an agent row's recorded pid and start time prove about the
/// process that holds that pid now.
#[derive(Debug, Clone, Copy, PartialEq, Eq)]
pub enum PidProof {
    /// The pid still names the recorded process.
    Same,
    /// The pid names another process, or none: the row maps nothing.
    Stale,
    /// Nothing to compare. It vouches for no alias, and a caller that
    /// reaches it is refused.
    Unproven,
}

/// Classifies one recorded pid against the process that holds it now:
/// its start time as far as it could be read, and whether one exists.
pub fn pid_proof(recorded_start: Option<u64>, now: Option<u64>, exists_now: bool) -> (r: PidProof)
    ensures
        r is Unproven <==> recorded_start is None || (now is None && exists_now),
        r is Same <==> recorded_start is Some && now == recorded_start,
{
    match recorded_start {
        None => PidProof::Unproven,
        Some(recorded) => match now {
            Some(n) => if n == recorded {
                PidProof::Same
            } else {
                PidProof::Stale
            },
            None => if exists_now {
                PidProof::Unproven
            } else {
                PidProof::Stale
            },
        },
    }
}

/// One agent's recorded process, classified.
#[derive(Debug, Clone)]
pub struct AgentPid {
    pub alias: String,
    pub pid: u32,
    pub proof: PidProof,
}

/// One agent row: its alias, pid and recorded start time, and what the
/// process table shows for the pid now.
pub struct PidRow {
    pub alias: String,
    pub pid: u32,
    pub recorded_start: Option<u64>,
    pub now: Option<u64>,
    pub exists_now: bool,
}

/// Which of the rows a map is made of.
#[derive(Debug, Clone, Copy, PartialEq, Eq)]
pub enum Rows {
    /// Those whose process is proven.
    Live,
    /// Those that may still be their process.
    Fenced,
    /// Those with nothing to compare.
    Unproven,
}

pub open spec fn picked(row: AgentPid, rows: Rows) -> bool {
    match rows {
        Rows::Live => row.proof is Same,
        Rows::Fenced => true,
        Rows::Unproven => row.proof is Unproven,
    }
}

/// pid to alias for the rows picked; of two rows with one pid the later
/// stands.
pub open spec fn pid_map(rows: Seq<AgentPid>, which: Rows) -> Map<u32, String>
    decreases rows.len(),
{
    if rows.len() == 0 {
        Map::empty()
    } else {
        let before = pid_map(rows.drop_last(), which);
        if picked(rows.last(), which) {
            before.insert(rows.last().pid, rows.last().alias)
        } else {
            before
        }
    }
}

/// The agent rows' recorded processes, each checked against its recorded
/// start time. Stale rows are dropped when it is made, so nothing can map
/// a reused pid to the stale row's alias.
#[derive(Debug, Clone)]
pub struct AgentPids {
    pub rows: Vec<AgentPid>,
}

/// The rows that are kept of those classified.
pub open spec fn kept_rows(rows: Seq<(String, u32, PidProof)>) -> Seq<AgentPid>
    decreases rows.len(),
{
    if rows.len() == 0 {
        seq![]
    } else {
        let before = kept_rows(rows.drop_last());
        let (alias, pid, verdict) = rows.last();
        if verdict is Stale {
            before
        } else {
            before.push(AgentPid { alias, pid, proof: verdict })
        }
    }
}

pub open spec fn proofs(rows: Seq<PidRow>) -> Seq<(String, u32, PidProof)> {
    rows.map_values(|r: PidRow| (r.alias, r.pid, proof_of(r)))
}

pub open spec fn proof_of(r: PidRow) -> PidProof {
    if r.recorded_start is None || (r.now is None && r.exists_now) {
        PidProof::Unproven
    } else if r.now == r.recorded_start {
        PidProof::Same
    } else {
        PidProof::Stale
    }
}

impl AgentPids {
    /// No row is stale.
    pub open spec fn wf(&self) -> bool {
        forall|i: int| 0 <= i < self.rows@.len() ==> !((#[trigger] self.rows@[i]).proof is Stale)
    }

    /// No rows at all.
    pub fn none() -> (r: Self)
        ensures
            r.rows@ == Seq::<AgentPid>::empty(),
            r.wf(),
    {
        AgentPids { rows: Vec::new() }
    }

    /// Classifies the rows against what holds their pids now.
    pub fn classify(rows: Vec<PidRow>) -> (r: Self)
        ensures
            r.rows@ == kept_rows(proofs(rows@)),
            r.wf(),
    {
        let mut out: Vec<(String, u32, PidProof)> = Vec::new();
        let mut i: usize = 0;
        while i < rows.len()
            invariant
                i <= rows@.len(),
                out@ == proofs(rows@).take(i as int),
            decreases rows.len() - i,
        {
            let row = &rows[i];
            let p = pid_proof(row.recorded_start, row.now, row.exists_now);
            let ghost before = out@;
            out.push((row.alias.clone(), row.pid, p));
            assert(out@ =~= proofs(rows@).take(i + 1));
            i = i + 1;
        }
        assert(out@ =~= proofs(rows@));
        Self::from_proofs(out)
    }

    /// Rows already classified.
    pub fn from_proofs(rows: Vec<(String, u32, PidProof)>) -> (r: Self)
        ensures
            r.rows@ == kept_rows(rows@),
            r.wf(),
    {
        let mut out: Vec<AgentPid> = Vec::new();
        let mut i: usize = 0;
        assert(rows@.take(0) =~= Seq::empty());
        while i < rows.len()
            invariant
                i <= rows@.len(),
                out@ == kept_rows(rows@.take(i as int)),
                forall|k: int| 0 <= k < out@.len() ==> !((#[trigger] out@[k]).proof is Stale),
            decreases rows.len() - i,
        {
            assert(rows@.take(i + 1).drop_last() =~= rows@.take(i as int));
            let (alias, pid, verdict) = &rows[i];
            match verdict {
                PidProof::Stale => {},
                _ => {
                    out.push(AgentPid { alias: alias.clone(), pid: *pid, proof: *verdict });
                },
            }
            i = i + 1;
        }
        assert(rows@.take(i as int) =~= rows@);
        AgentPids { rows: out }
    }

    pub fn is_empty(&self) -> (r: bool)
        ensures
            r == (self.rows@.len() == 0),
    {
        self.rows.len() == 0
    }

    /// pid to alias for the rows picked.
    pub fn map(&self, which: Rows) -> (r: HashMap<u32, String>)
        ensures
            r@ == pid_map(self.rows@, which),
    {
        let mut m: HashMap<u32, String> = HashMap::new();
        let mut i: usize = 0;
        assert(self.rows@.take(0) =~= Seq::empty());
        while i < self.rows.len()
            invariant
                i <= self.rows@.len(),
                m@ == pid_map(self.rows@.take(i as int), which),
            decreases self.rows.len() - i,
        {
            assert(self.rows@.take(i + 1).drop_last() =~= self.rows@.take(i as int));
            let row = &self.rows[i];
            let keep = match which {
                Rows::Live => matches!(row.proof, PidProof::Same),
                Rows::Fenced => true,
                Rows::Unproven => matches!(row.proof, PidProof::Unproven),
            };
            if keep {
                m.insert(row.pid, row.alias.clone());
            }
            i = i + 1;
        }
        assert(self.rows@.take(i as int) =~= self.rows@);
        m
    }

    /// pid to alias for rows whose recorded process is proven live.
    pub fn live(&self) -> (r: HashMap<u32, String>)
        ensures
            r@ == pid_map(self.rows@, Rows::Live),
    {
        self.map(Rows::Live)
    }

    /// pid to alias for every row that may still be its process.
    pub fn fenced(&self) -> (r: HashMap<u32, String>)
        ensures
            r@ == pid_map(self.rows@, Rows::Fenced),
    {
        self.map(Rows::Fenced)
    }

    /// The first row recorded for `alias`.
    pub fn get(&self, alias: &str) -> (r: Option<&AgentPid>)
        ensures
            match r {
                Some(row) => exists|i: int|
                    0 <= i < self.rows@.len() && *row == #[trigger] self.rows@[i] && row.alias@
                        == alias@ && forall|j: int|
                        0 <= j < i ==> (#[trigger] self.rows@[j]).alias@ != alias@,
                None => forall|j: int|
                    0 <= j < self.rows@.len() ==> (#[trigger] self.rows@[j]).alias@ != alias@,
            },
    {
        let mut i: usize = 0;
        while i < self.rows.len()
            invariant
                i <= self.rows@.len(),
                forall|j: int| 0 <= j < i ==> (#[trigger] self.rows@[j]).alias@ != alias@,
            decreases self.rows.len() - i,
        {
            if text::eq(self.rows[i].alias.as_str(), alias) {
                return Some(&self.rows[i]);
            }
            i = i + 1;
        }
        None
    }

    /// The unproven rows, in order.
    pub fn unproven(&self) -> (r: Vec<&AgentPid>)
        ensures
            r@.unref() == self.rows@.filter(|row: AgentPid| row.proof is Unproven),
    {
        let mut r: Vec<&AgentPid> = Vec::new();
        let mut i: usize = 0;
        let ghost f = |row: AgentPid| row.proof is Unproven;
        assert(r@.unref() =~= self.rows@.take(0).filter(f)) by {
            reveal(Seq::filter);
        }
        while i < self.rows.len()
            invariant
                i <= self.rows@.len(),
                f == (|row: AgentPid| row.proof is Unproven),
                r@.unref() == self.rows@.take(i as int).filter(f),
            decreases self.rows.len() - i,
        {
            assert(self.rows@.take(i + 1).drop_last() =~= self.rows@.take(i as int));
            let ghost r0 = r@.unref();
            if matches!(self.rows[i].proof, PidProof::Unproven) {
                r.push(&self.rows[i]);
                assert(r@.unref() =~= r0.push(self.rows@[i as int]));
            }
            assert(r@.unref() == self.rows@.take(i + 1).filter(f)) by {
                reveal(Seq::filter);
            }
            i = i + 1;
        }
        assert(self.rows@.take(i as int) =~= self.rows@);
        r
    }

    /// Refuses a caller whose ancestry, nearest first, reaches an
    /// unproven row: it is neither that agent nor provably anyone else.
    pub fn refuse_unproven_on(&self, chain: &[u32]) -> (r: Result<(), String>)
        ensures
            match r {
                Ok(()) => first_in(chain@, pid_map(self.rows@, Rows::Unproven)) is None,
                Err(e) => {
                    let m = pid_map(self.rows@, Rows::Unproven);
                    &&& first_in(chain@, m) is Some
                    &&& e@ == unproven_text(m[first_in(chain@, m)->0]@, first_in(chain@, m)->0)
                },
            },
    {
        let m = self.map(Rows::Unproven);
        let mut i: usize = 0;
        assert(chain@.skip(0) =~= chain@);
        while i < chain.len()
            invariant
                i <= chain@.len(),
                m@ == pid_map(self.rows@, Rows::Unproven),
                first_in(chain@, m@) == first_in(chain@.skip(i as int), m@),
            decreases chain.len() - i,
        {
            assert(chain@.skip(i as int).drop_first() =~= chain@.skip(i + 1));
            if let Some(alias) = m.get(&chain[i]) {
                return Err(unproven_row(alias.as_str(), chain[i]));
            }
            i = i + 1;
        }
        Ok(())
    }
}

/// The first pid of `chain` that `m` maps.
pub open spec fn first_in(chain: Seq<u32>, m: Map<u32, String>) -> Option<u32>
    decreases chain.len(),
{
    if chain.len() == 0 {
        None
    } else if m.contains_key(chain[0]) {
        Some(chain[0])
    } else {
        first_in(chain.drop_first(), m)
    }
}

/// How to clear an unproven row.
pub const PID_START_REMEDY: &'static str = "restart the daemon on this build (`cadence daemon restart`): recovery clears every recorded pid and each live pane is adopted again with its process start time recorded; `cadence doctor --host` (check pane-identity) lists the rows affected";

pub open spec fn unproven_text(alias: Seq<char>, pid: u32) -> Seq<char> {
    "pid "@ + text::dec(pid as nat) + " is agent '"@ + alias
        + "''s recorded process, but the row has no process start time that proves it still is (recorded before CAD-385, or "@
        + proc_file(pid, "/stat"@)
        + " unreadable) — the pid may have been reused, so it vouches for no one and caller identity is underivable; remedy: "@
        + PID_START_REMEDY@
}

/// The refusal for a caller tied to an unproven row.
pub fn unproven_row(alias: &str, pid: u32) -> (r: String)
    ensures
        r@ == unproven_text(alias@, pid),
{
    "pid ".to_owned().concat(text::dec_of(pid as u64).as_str()).concat(" is agent '").concat(
        alias,
    ).concat(
        "''s recorded process, but the row has no process start time that proves it still is (recorded before CAD-385, or ",
    ).concat(proc_file_of(pid, "/stat").as_str()).concat(
        " unreadable) — the pid may have been reused, so it vouches for no one and caller identity is underivable; remedy: ",
    ).concat(PID_START_REMEDY)
}


// ---------- TCP peers ----------

/// An internet address: four octets or sixteen, and a port.
#[derive(Debug, Clone)]
pub struct Addr {
    pub octets: Vec<u8>,
    pub port: u16,
}

/// Four octets of a 32-bit word as the machine stores them.
pub open spec fn word_octets(w: nat, little: bool) -> Seq<u8> {
    let b = seq![
        (w / 0x1000000 % 256) as u8,
        (w / 0x10000 % 256) as u8,
        (w / 0x100 % 256) as u8,
        (w % 256) as u8,
    ];
    if little {
        b.reverse()
    } else {
        b
    }
}

/// The octets that a run of 8-digit hexadecimal words gives.
pub open spec fn words_octets(s: Seq<char>, n: nat, little: bool) -> Option<Seq<u8>>
    decreases n,
{
    if n == 0 {
        Some(seq![])
    } else {
        let last = s.subrange(8 * (n - 1), 8 * n as int);
        match (
            words_octets(s, (n - 1) as nat, little),
            text::unsigned_upto(last, 16, u32::MAX as nat),
        ) {
            (Some(before), Some(w)) => Some(before + word_octets(w, little)),
            _ => None,
        }
    }
}

/// The address that a socket table's column gives. The kernel prints
/// each 32-bit address word as the machine stores it, `little` end first
/// or not.
pub open spec fn addr(field: Seq<char>, little: bool) -> Option<(Seq<u8>, u16)> {
    let ip = text::before_first(field, ':');
    match text::after_first(field, ':') {
        None => None,
        Some(port) => {
            let octets = if ip.len() == 8 {
                words_octets(ip, 1, little)
            } else if ip.len() == 32 {
                words_octets(ip, 4, little)
            } else {
                None
            };
            match (octets, text::unsigned_upto(port, 16, u16::MAX as nat)) {
                (Some(o), Some(p)) => Some((o, p as u16)),
                _ => None,
            }
        },
    }
}

fn push_word(out: &mut Vec<u8>, w: u64, little: bool)
    requires
        w <= u32::MAX,
    ensures
        final(out)@ == old(out)@ + word_octets(w as nat, little),
{
    let a = (w / 0x1000000 % 256) as u8;
    let b = (w / 0x10000 % 256) as u8;
    let c = (w / 0x100 % 256) as u8;
    let d = (w % 256) as u8;
    let ghost before = out@;
    if little {
        out.push(d);
        out.push(c);
        out.push(b);
        out.push(a);
    } else {
        out.push(a);
        out.push(b);
        out.push(c);
        out.push(d);
    }
    assert(out@ =~= before + word_octets(w as nat, little));
}

fn octets_of(v: &Vec<char>, n: usize, little: bool) -> (r: Option<Vec<u8>>)
    requires
        n <= 4,
        v@.len() == 8 * n,
    ensures
        match r {
            Some(o) => words_octets(v@, n as nat, little) == Some(o@),
            None => words_octets(v@, n as nat, little) is None,
        },
{
    let mut octets: Vec<u8> = Vec::new();
    let mut i: usize = 0;
    while i < n
        invariant
            i <= n <= 4,
            v@.len() == 8 * n,
            words_octets(v@, i as nat, little) == Some(octets@),
        decreases n - i,
    {
        let w = text::string_of(v.as_slice(), 8 * i, 8 * i + 8);
        let ghost before = octets@;
        let word = text::parse_unsigned(w.as_str(), 16, u32::MAX as u64);
        assert(w@ == v@.subrange(8 * (i + 1 - 1), 8 * (i + 1)));
        match word {
            None => {
                proof {
                    words_octets_stop(v@, (i + 1) as nat, n as nat, little);
                }
                return None;
            },
            Some(x) => {
                push_word(&mut octets, x, little);
            },
        }
        i = i + 1;
    }
    Some(octets)
}

/// Reads one address column of a socket table.
pub fn parse_addr(field: &str, little: bool) -> (r: Option<Addr>)
    ensures
        match r {
            Some(a) => addr(field@, little) == Some((a.octets@, a.port)),
            None => addr(field@, little) is None,
        },
{
    let (ip, port) = match text::split_once(field, ':') {
        None => {
            proof {
                text::first_missing(field@, ':');
            }
            return None;
        },
        Some((a, b)) => {
            proof {
                text::first_found(field@, a@, b@, ':');
            }
            (a, b)
        },
    };
    let v = text::chars_of(ip.as_str());
    let n: usize = if v.len() == 8 {
        1
    } else if v.len() == 32 {
        4
    } else {
        return None;
    };
    let p: u64 = match text::parse_unsigned(port.as_str(), 16, u16::MAX as u64) {
        None => {
            return None;
        },
        Some(p) => p,
    };
    match octets_of(&v, n, little) {
        Some(octets) => Some(Addr { octets, port: p as u16 }),
        None => None,
    }
}

proof fn words_octets_stop(s: Seq<char>, i: nat, n: nat, little: bool)
    requires
        i <= n,
        words_octets(s, i, little) is None,
    ensures
        words_octets(s, n, little) is None,
    decreases n - i,
{
    if i < n {
        words_octets_stop(s, i + 1, n, little);
    }
}

/// A v4 address written as a v6 one (`::ffff:a.b.c.d`).
pub open spec fn mapped_v4(o: Seq<u8>) -> bool {
    o.len() == 16 && (forall|i: int| 0 <= i < 10 ==> o[i] == 0) && o[10] == 0xff && o[11] == 0xff
}

pub open spec fn canonical_octets(o: Seq<u8>) -> Seq<u8> {
    if mapped_v4(o) {
        o.skip(12)
    } else {
        o
    }
}

fn zeros(o: &Vec<u8>, n: usize) -> (r: bool)
    requires
        n <= o@.len(),
    ensures
        r == forall|i: int| 0 <= i < n ==> o@[i] == 0,
{
    let mut i: usize = 0;
    while i < n
        invariant
            i <= n <= o@.len(),
            forall|j: int| 0 <= j < i ==> o@[j] == 0,
        decreases n - i,
    {
        if o[i] != 0 {
            return false;
        }
        i = i + 1;
    }
    true
}

/// A v4-mapped v6 address compares as the v4 address that the kernel
/// lists.
pub fn canonical(a: Addr) -> (r: Addr)
    ensures
        r.octets@ == canonical_octets(a.octets@),
        r.port == a.port,
{
    if a.octets.len() == 16 && zeros(&a.octets, 10) && a.octets[10] == 0xff && a.octets[11] == 0xff {
        let mut octets: Vec<u8> = Vec::new();
        octets.push(a.octets[12]);
        octets.push(a.octets[13]);
        octets.push(a.octets[14]);
        octets.push(a.octets[15]);
        assert(octets@ =~= a.octets@.skip(12));
        Addr { octets, port: a.port }
    } else {
        a
    }
}

/// `127.0.0.0/8` or `::1`.
pub open spec fn loopback(o: Seq<u8>) -> bool {
    if o.len() == 4 {
        o[0] == 127
    } else {
        o.len() == 16 && (forall|i: int| 0 <= i < 15 ==> o[i] == 0) && o[15] == 1
    }
}

/// Whether the address is the machine's own.
pub fn is_loopback(a: &Addr) -> (r: bool)
    ensures
        r == loopback(a.octets@),
{
    if a.octets.len() == 4 {
        a.octets[0] == 127
    } else {
        a.octets.len() == 16 && zeros(&a.octets, 15) && a.octets[15] == 1
    }
}

/// The inode and owner uid that one line of a socket table gives for the
/// client end of the connection from `peer` to `server_port`.
pub open spec fn line_socket(line: Seq<char>, server_port: u16, peer: Addr, little: bool) -> Option<
    (nat, nat),
> {
    let cols = text::words(line);
    if cols.len() < 10 {
        None
    } else {
        match (
            addr(cols[1], little),
            addr(cols[2], little),
            text::unsigned_upto(cols[7], 10, u32::MAX as nat),
            text::unsigned_upto(cols[9], 10, u64::MAX as nat),
        ) {
            (Some(local), Some(remote), Some(uid), Some(inode)) => if canonical_octets(local.0)
                == peer.octets@ && local.1 == peer.port && remote.1 == server_port && inode != 0 {
                Some((inode, uid))
            } else {
                None
            },
            _ => None,
        }
    }
}

pub open spec fn first_socket(
    ls: Seq<Seq<char>>,
    server_port: u16,
    peer: Addr,
    little: bool,
) -> Option<(nat, nat)>
    decreases ls.len(),
{
    if ls.len() == 0 {
        None
    } else if line_socket(ls[0], server_port, peer, little) is Some {
        line_socket(ls[0], server_port, peer, little)
    } else {
        first_socket(ls.drop_first(), server_port, peer, little)
    }
}

/// What a socket table lists for the client end; its first line is a
/// heading.
pub open spec fn table_socket(table: Seq<char>, server_port: u16, peer: Addr, little: bool) -> Option<
    (nat, nat),
> {
    if text::lines(table).len() == 0 {
        None
    } else {
        first_socket(text::lines(table).drop_first(), server_port, peer, little)
    }
}

fn same_octets(a: &Vec<u8>, b: &Vec<u8>) -> (r: bool)
    ensures
        r == (a@ == b@),
{
    if a.len() != b.len() {
        return false;
    }
    let mut i: usize = 0;
    while i < a.len()
        invariant
            a@.len() == b@.len(),
            i <= a@.len(),
            forall|j: int| 0 <= j < i ==> a@[j] == b@[j],
        decreases a.len() - i,
    {
        if a[i] != b[i] {
            return false;
        }
        i = i + 1;
    }
    assert(a@ =~= b@);
    true
}

fn line_socket_of(line: &str, server_port: u16, peer: &Addr, little: bool) -> (r: Option<
    (u64, u32),
>)
    ensures
        match r {
            Some((inode, uid)) => line_socket(line@, server_port, *peer, little) == Some(
                (inode as nat, uid as nat),
            ),
            None => line_socket(line@, server_port, *peer, little) is None,
        },
{
    let cols = text::words_of(line);
    let ghost d = cols.deep_view();
    assert(d.len() == cols.len());
    if cols.len() < 10 {
        return None;
    }
    assert(d[1] == cols@[1]@);
    assert(d[2] == cols@[2]@);
    assert(d[7] == cols@[7]@);
    assert(d[9] == cols@[9]@);
    match (
        parse_addr(cols[1].as_str(), little),
        parse_addr(cols[2].as_str(), little),
        parse_u32(cols[7].as_str()),
        text::parse_unsigned(cols[9].as_str(), 10, u64::MAX),
    ) {
        (Some(local), Some(remote), Some(uid), Some(inode)) => {
            let local = canonical(local);
            if same_octets(&local.octets, &peer.octets) && local.port == peer.port && remote.port
                == server_port && inode != 0 {
                Some((inode, uid))
            } else {
                None
            }
        },
        _ => None,
    }
}

/// Scans one socket table for the client end of a connection. An inode
/// of 0 is owned by nobody.
pub fn find_client_socket(table: &str, server_port: u16, peer: &Addr, little: bool) -> (r: Option<
    (u64, u32),
>)
    ensures
        match r {
            Some((inode, uid)) => table_socket(table@, server_port, *peer, little) == Some(
                (inode as nat, uid as nat),
            ),
            None => table_socket(table@, server_port, *peer, little) is None,
        },
{
    let ls = text::lines_of(table);
    let ghost d = ls.deep_view();
    if ls.len() == 0 {
        return None;
    }
    let mut i: usize = 1;
    assert(d.skip(1) =~= d.drop_first());
    while i < ls.len()
        invariant
            d == ls.deep_view(),
            d == text::lines(table@),
            1 <= i <= ls.len(),
            table_socket(table@, server_port, *peer, little) == first_socket(
                d.skip(i as int),
                server_port,
                *peer,
                little,
            ),
        decreases ls.len() - i,
    {
        assert(d.skip(i as int)[0] == ls@[i as int]@);
        assert(d.skip(i as int).drop_first() =~= d.skip(i + 1));
        if let Some(found) = line_socket_of(ls[i].as_str(), server_port, peer, little) {
            return Some(found);
        }
        i = i + 1;
    }
    None
}

pub open spec fn in_table(
    table: Option<Seq<char>>,
    server_port: u16,
    peer: Addr,
    little: bool,
) -> Option<(nat, nat)> {
    match table {
        Some(t) => table_socket(t, server_port, peer, little),
        None => None,
    }
}

/// The client end of the connection from `peer` to `server_port`, in the
/// v4 table or else the v6 one, each as far as it could be read. It is an
/// error only when neither could.
pub fn client_socket(
    tcp: Option<&str>,
    tcp6: Option<&str>,
    server_port: u16,
    peer: &Addr,
    little: bool,
) -> (r: Result<Option<(u64, u32)>, String>)
    ensures
        match r {
            Ok(Some((inode, uid))) => {
                let v4 = in_table(tcp.deep_view(), server_port, *peer, little);
                let v6 = in_table(tcp6.deep_view(), server_port, *peer, little);
                (if v4 is Some {
                    v4
                } else {
                    v6
                }) == Some((inode as nat, uid as nat))
            },
            Ok(None) => {
                &&& tcp is Some || tcp6 is Some
                &&& in_table(tcp.deep_view(), server_port, *peer, little) is None
                &&& in_table(tcp6.deep_view(), server_port, *peer, little) is None
            },
            Err(e) => tcp is None && tcp6 is None && e@
                == "/proc/net/tcp and /proc/net/tcp6 are unreadable"@,
        },
{
    if let Some(t) = tcp {
        if let Some(found) = find_client_socket(t, server_port, peer, little) {
            return Ok(Some(found));
        }
    }
    if let Some(t) = tcp6 {
        if let Some(found) = find_client_socket(t, server_port, peer, little) {
            return Ok(Some(found));
        }
    }
    if tcp.is_none() && tcp6.is_none() {
        return Err("/proc/net/tcp and /proc/net/tcp6 are unreadable".to_owned());
    }
    Ok(None)
}


/// The live agents that a board write can be attributed to.
pub struct AgentRoots {
    /// Registered pty panes by pane pid.
    pub panes: AgentPids,
    /// Live managed endpoints by provider pid; tied by ancestry only.
    pub managed: AgentPids,
}

impl AgentRoots {
    pub fn is_empty(&self) -> (r: bool)
        ensures
            r == (self.panes.rows@.len() == 0 && self.managed.rows@.len() == 0),
    {
        self.panes.is_empty() && self.managed.is_empty()
    }

    /// [`operator_proof`] against these roots: every row that may still
    /// be its process denies.
    pub fn operator_proof(&self, f: &PeerFacts, uid: u32, daemon_pid: u32, ttys: &Ttys) -> (r: Result<
        (),
        String,
    >)
        ensures
            proof_outcome(
                *f,
                uid,
                daemon_pid,
                pid_map(self.panes.rows@, Rows::Fenced),
                pid_map(self.managed.rows@, Rows::Fenced),
                ttys@,
                r,
            ),
    {
        let panes = self.panes.fenced();
        let managed = self.managed.fenced();
        operator_proof(f, uid, daemon_pid, &panes, &managed, ttys)
    }
}

/// The first row of `rows` that is unproven and tied to `t`: by a process
/// signal, or by ancestry alone where `ttys` is `None`.
pub open spec fn first_unproven(
    t: PeerTies,
    rows: Seq<AgentPid>,
    ttys: Option<Map<u32, Stdio>>,
) -> Option<AgentPid>
    decreases rows.len(),
{
    if rows.len() == 0 {
        None
    } else if rows[0].proof is Unproven && tie(t, rows[0].pid, ttys) {
        Some(rows[0])
    } else {
        first_unproven(t, rows.drop_first(), ttys)
    }
}

pub open spec fn tie(t: PeerTies, pid: u32, ttys: Option<Map<u32, Stdio>>) -> bool {
    match ttys {
        Some(m) => t.by_process(pid, m),
        None => t.has_ancestor(pid),
    }
}

/// Why one owner of the client socket cannot be attributed.
pub open spec fn owner_refusal(t: PeerTies, roots: AgentRoots, ttys: Map<u32, Stdio>) -> Option<
    Seq<char>,
> {
    if t.chain is None {
        Some("peer pid "@ + text::dec(t.pid as nat) + ": /proc ancestry unreadable"@)
    } else {
        match first_unproven(t, roots.panes.rows@, Some(ttys)) {
            Some(row) => Some(unproven_text(row.alias@, row.pid)),
            None => match first_unproven(t, roots.managed.rows@, None) {
                Some(row) => Some(unproven_text(row.alias@, row.pid)),
                None => None,
            },
        }
    }
}

pub open spec fn owners_refusal(
    owners: Seq<PeerTies>,
    roots: AgentRoots,
    ttys: Map<u32, Stdio>,
) -> Option<Seq<char>>
    decreases owners.len(),
{
    if owners.len() == 0 {
        None
    } else if owner_refusal(owners[0], roots, ttys) is Some {
        owner_refusal(owners[0], roots, ttys)
    } else {
        owners_refusal(owners.drop_first(), roots, ttys)
    }
}

/// `t` is attributed as the agent `x`: a live row's process ties it.
pub open spec fn attributed(t: PeerTies, roots: AgentRoots, ttys: Map<u32, Stdio>, x: Seq<char>) -> bool {
    ||| live_tie(t, roots.panes.rows@, Some(ttys), x)
    ||| live_tie(t, roots.managed.rows@, None, x)
}

pub open spec fn live_tie(
    t: PeerTies,
    rows: Seq<AgentPid>,
    ttys: Option<Map<u32, Stdio>>,
    x: Seq<char>,
) -> bool {
    exists|pid: u32| #[trigger]
        pid_map(rows, Rows::Live).contains_key(pid) && pid_map(rows, Rows::Live)[pid]@ == x && tie(
            t,
            pid,
            ttys,
        )
}

pub open spec fn no_client_text(peer_name: Seq<char>, server_port: u16) -> Seq<char> {
    "no local socket is the client end of "@ + peer_name + " → port "@ + text::dec(
        server_port as nat,
    )
}

pub open spec fn socket_text(inode: u64, peer_name: Seq<char>) -> Seq<char> {
    "socket "@ + text::dec(inode as nat) + " of peer "@ + peer_name + " has no visible owner"@
}

/// Exactly the agents that the owners are attributed as.
pub open spec fn names_of(
    names: Seq<Seq<char>>,
    owners: Seq<PeerTies>,
    roots: AgentRoots,
    ttys: Map<u32, Stdio>,
) -> bool {
    &&& text::increasing(names)
    &&& forall|x: Seq<char>| #[trigger]
        names.contains(x) <==> exists|i: int|
            0 <= i < owners.len() && attributed(#[trigger] owners[i], roots, ttys, x)
}

fn first_unproven_of<'a>(t: &PeerTies, rows: &'a Vec<AgentPid>, ttys: Option<&Ttys>) -> (r: Option<
    &'a AgentPid,
>)
    ensures
        match r {
            Some(row) => first_unproven(
                *t,
                rows@,
                match ttys {
                    Some(m) => Some(m@),
                    None => None,
                },
            ) == Some(*row),
            None => first_unproven(
                *t,
                rows@,
                match ttys {
                    Some(m) => Some(m@),
                    None => None,
                },
            ) is None,
        },
{
    let ghost g = match ttys {
        Some(m) => Some(m@),
        None => None,
    };
    let mut i: usize = 0;
    assert(rows@.skip(0) =~= rows@);
    while i < rows.len()
        invariant
            i <= rows@.len(),
            g == match ttys {
                Some(m) => Some(m@),
                None => None,
            },
            first_unproven(*t, rows@, g) == first_unproven(*t, rows@.skip(i as int), g),
        decreases rows.len() - i,
    {
        assert(rows@.skip(i as int).drop_first() =~= rows@.skip(i + 1));
        if matches!(rows[i].proof, PidProof::Unproven) {
            let tied = match ttys {
                Some(m) => t.process_tied(rows[i].pid, m),
                None => t.descends_from(rows[i].pid),
            };
            if tied {
                return Some(&rows[i]);
            }
        }
        i = i + 1;
    }
    None
}

/// Adds the aliases of the live rows that tie `t`.
fn add_live(names: &mut Vec<String>, t: &PeerTies, pids: &AgentPids, ttys: Option<&Ttys>)
    requires
        text::increasing(old(names).deep_view()),
    ensures
        text::increasing(final(names).deep_view()),
        forall|x: Seq<char>| #[trigger]
            final(names).deep_view().contains(x) <==> (old(names).deep_view().contains(x)
                || live_tie(
                *t,
                pids.rows@,
                match ttys {
                    Some(m) => Some(m@),
                    None => None,
                },
                x,
            )),
{
    let m = pids.live();
    let ghost n0 = names.deep_view();
    let ghost g = match ttys {
        Some(m) => Some(m@),
        None => None,
    };
    let ghost mut done: Set<u32> = Set::empty();
    for p in it: m.keys()
        invariant
            m@ == pid_map(pids.rows@, Rows::Live),
            g == match ttys {
                Some(m) => Some(m@),
                None => None,
            },
            it.seq().unref().to_set() == m@.dom(),
            done == it.seq().unref().take(it.index()).to_set(),
            it.index() == it.seq().len() ==> it.seq().unref().take(it.index())
                =~= it.seq().unref(),
            text::increasing(names.deep_view()),
            forall|x: Seq<char>| #[trigger]
                names.deep_view().contains(x) <==> (n0.contains(x) || exists|pid: u32| #[trigger]
                    done.contains(pid) && m@[pid]@ == x && tie(*t, pid, g)),
    {
        let ghost all = it.seq().unref();
        assert(all[it.index()] == *p);
        assert(all.to_set().contains(*p));
        assert(m@.contains_key(*p));
        let tied = match ttys {
            Some(tm) => t.process_tied(*p, tm),
            None => t.descends_from(*p),
        };
        let ghost n1 = names.deep_view();
        let ghost before = done;
        if tied {
            if let Some(alias) = m.get(p) {
                text::insert_name(names, alias.as_str());
            }
        }
        proof {
            done = before.insert(*p);
            let k = it.index();
            let grown = all.take(k + 1);
            assert(grown =~= all.take(k).push(*p));
            assert(grown.to_set() =~= done) by {
                assert forall|q: u32| grown.to_set().contains(q) <==> done.contains(q) by {
                    if done.contains(q) {
                        if q == *p {
                            assert(grown[k as int] == q);
                        } else {
                            let j = choose|j: int| 0 <= j < all.take(k).len() && all.take(k)[j] == q;
                            assert(grown[j] == q);
                        }
                    }
                    if grown.to_set().contains(q) {
                        let j = choose|j: int| 0 <= j < grown.len() && grown[j] == q;
                        if j < k {
                            assert(all.take(k)[j] == q);
                        }
                    }
                }
            }
            assert forall|x: Seq<char>| #[trigger]
                names.deep_view().contains(x) <==> (n0.contains(x) || exists|pid: u32| #[trigger]
                    done.contains(pid) && m@[pid]@ == x && tie(*t, pid, g)) by {
                if n1.contains(x) && !n0.contains(x) {
                    let pid = choose|pid: u32| #[trigger]
                        before.contains(pid) && m@[pid]@ == x && tie(*t, pid, g);
                    assert(done.contains(pid));
                }
                if tied && x == m@[*p]@ {
                    assert(done.contains(*p));
                }
                if exists|pid: u32| #[trigger] done.contains(pid) && m@[pid]@ == x && tie(*t, pid, g) {
                    let pid = choose|pid: u32| #[trigger]
                        done.contains(pid) && m@[pid]@ == x && tie(*t, pid, g);
                    if pid != *p {
                        assert(before.contains(pid));
                    }
                }
            }
        }
    }
    assert(done == m@.dom()) by {
        assert(done =~= m@.dom());
    }
    assert forall|x: Seq<char>| #[trigger]
        names.deep_view().contains(x) <==> (n0.contains(x) || live_tie(*t, pids.rows@, g, x)) by {
        if live_tie(*t, pids.rows@, g, x) {
            let pid = choose|pid: u32| #[trigger]
                pid_map(pids.rows@, Rows::Live).contains_key(pid) && pid_map(
                    pids.rows@,
                    Rows::Live,
                )[pid]@ == x && tie(*t, pid, g);
            assert(done.contains(pid));
        }
        if exists|pid: u32| #[trigger] done.contains(pid) && m@[pid]@ == x && tie(*t, pid, g) {
            let pid = choose|pid: u32| #[trigger]
                done.contains(pid) && m@[pid]@ == x && tie(*t, pid, g);
            assert(m@.contains_key(pid));
        }
    }
}

/// Which live agent the TCP peer of a connection is attributed as, from
/// the client end found for it and the processes that hold that socket.
/// `Ok(None)` is a local process tied to no agent, or another host: it is
/// no proof of the operator. An error means that the peer could not be
/// attributed at all.
pub fn tcp_peer_agent(
    server_port: u16,
    peer: &Addr,
    peer_name: &str,
    socket: Result<Option<(u64, u32)>, String>,
    owners: &Vec<PeerTies>,
    roots: &AgentRoots,
    ttys: &Ttys,
) -> (r: Result<Option<String>, String>)
    ensures
        match socket {
            Err(e) => r == Err::<Option<String>, String>(e),
            Ok(None) => if loopback(peer.octets@) {
                r is Err && r->Err_0@ == no_client_text(peer_name@, server_port)
            } else {
                r == Ok::<Option<String>, String>(None)
            },
            Ok(Some((inode, _))) => if owners@.len() == 0 {
                r is Err && r->Err_0@ == socket_text(inode, peer_name@)
                    + " — another user's process holds it, or it already closed"@
            } else {
                match owners_refusal(owners@, *roots, ttys@) {
                    Some(e) => r is Err && r->Err_0@ == e,
                    None => exists|names: Seq<Seq<char>>| #[trigger]
                        names_of(names, owners@, *roots, ttys@) && if names.len() > 1 {
                            r is Err && r->Err_0@ == "peer "@ + peer_name@
                                + " is tied to several agents ("@ + text::join(names, ", "@)
                                + ")"@
                        } else if names.len() == 1 {
                            r is Ok && r->Ok_0.deep_view() == Some(names[0])
                        } else {
                            r == Ok::<Option<String>, String>(None)
                        },
                }
            },
        },
{
    let inode: u64 = match socket {
        Err(e) => {
            return Err(e);
        },
        Ok(None) => {
            if !is_loopback(peer) {
                return Ok(None);
            }
            return Err(
                "no local socket is the client end of ".to_owned().concat(peer_name).concat(
                    " → port ",
                ).concat(text::dec_of(server_port as u64).as_str()),
            );
        },
        Ok(Some((inode, _))) => inode,
    };
    if owners.len() == 0 {
        return Err(
            "socket ".to_owned().concat(text::dec_of(inode).as_str()).concat(" of peer ").concat(
                peer_name,
            ).concat(" has no visible owner").concat(
                " — another user's process holds it, or it already closed",
            ),
        );
    }
    let mut names: Vec<String> = Vec::new();
    assert(names.deep_view() =~= Seq::empty());
    let mut i: usize = 0;
    assert(owners@.skip(0) =~= owners@);
    while i < owners.len()
        invariant
            i <= owners@.len(),
            owners@.len() > 0,
            socket matches Ok(Some((n, _))) && n == inode,
            owners_refusal(owners@, *roots, ttys@) == owners_refusal(
                owners@.skip(i as int),
                *roots,
                ttys@,
            ),
            text::increasing(names.deep_view()),
            forall|x: Seq<char>| #[trigger]
                names.deep_view().contains(x) <==> exists|j: int|
                    0 <= j < i && attributed(#[trigger] owners@[j], *roots, ttys@, x),
        decreases owners.len() - i,
    {
        assert(owners@.skip(i as int).drop_first() =~= owners@.skip(i + 1));
        let t = &owners[i];
        if !t.walked() {
            return Err(
                "peer pid ".to_owned().concat(text::dec_of(t.pid as u64).as_str()).concat(
                    ": /proc ancestry unreadable",
                ),
            );
        }
        if let Some(row) = first_unproven_of(t, &roots.panes.rows, Some(ttys)) {
            return Err(unproven_row(row.alias.as_str(), row.pid));
        }
        if let Some(row) = first_unproven_of(t, &roots.managed.rows, None) {
            return Err(unproven_row(row.alias.as_str(), row.pid));
        }
        add_live(&mut names, t, &roots.panes, Some(ttys));
        add_live(&mut names, t, &roots.managed, None);
        i = i + 1;
    }
    let ghost d = names.deep_view();
    assert(names_of(d, owners@, *roots, ttys@));
    assert(d.len() == names.len());
    if names.len() > 1 {
        return Err(
            "peer ".to_owned().concat(peer_name).concat(" is tied to several agents (").concat(
                text::join_of(&names, ", ").as_str(),
            ).concat(")"),
        );
    }
    let name = names.pop();
    Ok(name)
}

/// Positive operator proof for the TCP peer of a connection: every
/// process that holds the client socket must pass [`operator_proof`]. A
/// peer on another host, or whose socket has no visible owner, is
/// unprovable and refused.
pub fn tcp_peer_operator_proof(
    server_port: u16,
    peer_name: &str,
    socket: Result<Option<(u64, u32)>, String>,
    owners: &Vec<PeerFacts>,
    uid: u32,
    daemon_pid: u32,
    roots: &AgentRoots,
    ttys: &Ttys,
) -> (r: Result<(), String>)
    ensures
        match socket {
            Err(e) => r == Err::<(), String>(e),
            Ok(None) => r is Err && r->Err_0@ == no_client_text(peer_name@, server_port),
            Ok(Some((inode, _))) => if owners@.len() == 0 {
                r is Err && r->Err_0@ == socket_text(inode, peer_name@)
            } else {
                all_prove(
                    owners@,
                    uid,
                    daemon_pid,
                    pid_map(roots.panes.rows@, Rows::Fenced),
                    pid_map(roots.managed.rows@, Rows::Fenced),
                    ttys@,
                    r,
                )
            },
        },
{
    let inode: u64 = match socket {
        Err(e) => {
            return Err(e);
        },
        Ok(None) => {
            return Err(
                "no local socket is the client end of ".to_owned().concat(peer_name).concat(
                    " → port ",
                ).concat(text::dec_of(server_port as u64).as_str()),
            );
        },
        Ok(Some((inode, _))) => inode,
    };
    if owners.len() == 0 {
        return Err(
            "socket ".to_owned().concat(text::dec_of(inode).as_str()).concat(" of peer ").concat(
                peer_name,
            ).concat(" has no visible owner"),
        );
    }
    let ghost panes = pid_map(roots.panes.rows@, Rows::Fenced);
    let ghost managed = pid_map(roots.managed.rows@, Rows::Fenced);
    let mut i: usize = 0;
    while i < owners.len()
        invariant
            i <= owners@.len(),
            owners@.len() > 0,
            socket matches Ok(Some((n, _))) && n == inode,
            panes == pid_map(roots.panes.rows@, Rows::Fenced),
            managed == pid_map(roots.managed.rows@, Rows::Fenced),
            forall|j: int|
                0 <= j < i ==> #[trigger] proof_outcome(
                    owners@[j],
                    uid,
                    daemon_pid,
                    panes,
                    managed,
                    ttys@,
                    Ok(()),
                ),
        decreases owners.len() - i,
    {
        match roots.operator_proof(&owners[i], uid, daemon_pid, ttys) {
            Err(e) => {
                assert(proof_outcome(
                    owners@[i as int],
                    uid,
                    daemon_pid,
                    panes,
                    managed,
                    ttys@,
                    Err(e),
                ));
                return Err(e);
            },
            Ok(()) => {},
        }
        i = i + 1;
    }
    Ok(())
}

/// Every owner proves the operator, or `r` is the outcome of the first
/// that does not.
pub open spec fn all_prove(
    owners: Seq<PeerFacts>,
    uid: u32,
    daemon_pid: u32,
    panes: Map<u32, String>,
    enrolled: Map<u32, String>,
    ttys: Map<u32, Stdio>,
    r: Result<(), String>,
) -> bool {
    match r {
        Ok(()) => forall|j: int|
            0 <= j < owners.len() ==> #[trigger] proof_outcome(
                owners[j],
                uid,
                daemon_pid,
                panes,
                enrolled,
                ttys,
                Ok(()),
            ),
        Err(e) => exists|n: int|
            0 <= n < owners.len() && #[trigger] proof_outcome(
                owners[n],
                uid,
                daemon_pid,
                panes,
                enrolled,
                ttys,
                r,
            ) && forall|j: int|
                0 <= j < n ==> #[trigger] proof_outcome(
                    owners[j],
                    uid,
                    daemon_pid,
                    panes,
                    enrolled,
                    ttys,
                    Ok(()),
                ),
    }
}

// ---------- laws ----------

/// An alias in the environment attributes nothing: two peers with the
/// same ancestry and stdio are attributed alike.
pub proof fn env_alias_attributes_nothing(
    a: PeerTies,
    b: PeerTies,
    roots: AgentRoots,
    ttys: Map<u32, Stdio>,
    x: Seq<char>,
)
    requires
        a.chain == b.chain,
        a.stdio == b.stdio,
    ensures
        attributed(a, roots, ttys, x) == attributed(b, roots, ttys, x),
{
    assert forall|pid: u32, g: Option<Map<u32, Stdio>>| tie(a, pid, g) == #[trigger] tie(b, pid, g) by {}
    if attributed(a, roots, ttys, x) {
        attributed_carries(a, b, roots, ttys, x);
    }
    if attributed(b, roots, ttys, x) {
        attributed_carries(b, a, roots, ttys, x);
    }
}

proof fn attributed_carries(
    a: PeerTies,
    b: PeerTies,
    roots: AgentRoots,
    ttys: Map<u32, Stdio>,
    x: Seq<char>,
)
    requires
        a.chain == b.chain,
        a.stdio == b.stdio,
        attributed(a, roots, ttys, x),
    ensures
        attributed(b, roots, ttys, x),
{
    if live_tie(a, roots.panes.rows@, Some(ttys), x) {
        let pid = choose|pid: u32| #[trigger]
            pid_map(roots.panes.rows@, Rows::Live).contains_key(pid) && pid_map(
                roots.panes.rows@,
                Rows::Live,
            )[pid]@ == x && tie(a, pid, Some(ttys));
        assert(tie(b, pid, Some(ttys)));
    } else {
        let pid = choose|pid: u32| #[trigger]
            pid_map(roots.managed.rows@, Rows::Live).contains_key(pid) && pid_map(
                roots.managed.rows@,
                Rows::Live,
            )[pid]@ == x && tie(a, pid, None);
        assert(tie(b, pid, None));
    }
}

/// A peer that proves the operator has no registered pane, no enrolled
/// endpoint and no daemon above it on its ancestry.
pub proof fn operator_descends_from_no_agent(
    f: PeerFacts,
    uid: u32,
    daemon_pid: u32,
    panes: Map<u32, String>,
    enrolled: Map<u32, String>,
    ttys: Map<u32, Stdio>,
)
    requires
        proof_outcome(f, uid, daemon_pid, panes, enrolled, ttys, Ok(())),
    ensures
        f.ancestry is Some,
        forall|i: int|
            0 <= i < f.ancestry->0@.len() ==> {
                let hop = #[trigger] f.ancestry->0@[i];
                &&& !panes.contains_key(hop.pid)
                &&& !enrolled.contains_key(hop.pid)
                &&& i > 0 ==> hop.pid != daemon_pid
            },
{
    let hops = f.ancestry->0@;
    assert forall|i: int| 0 <= i < hops.len() implies hop_refusal(
        Pass::Roots,
        #[trigger] hops[i],
        i == 0,
        f.pid,
        uid,
        daemon_pid,
        panes,
        enrolled,
    ) is None by {
        clean_chain(Pass::Roots, hops, 0, i, f.pid, uid, daemon_pid, panes, enrolled);
    }
}

proof fn clean_chain(
    pass: Pass,
    hops: Seq<Hop>,
    from: int,
    i: int,
    peer: u32,
    uid: u32,
    daemon_pid: u32,
    panes: Map<u32, String>,
    enrolled: Map<u32, String>,
)
    requires
        0 <= from <= i < hops.len(),
        chain_refusal(pass, hops, from, peer, uid, daemon_pid, panes, enrolled) is None,
    ensures
        hop_refusal(pass, hops[i], i == 0, peer, uid, daemon_pid, panes, enrolled) is None,
    decreases i - from,
{
    if from < i {
        clean_chain(pass, hops, from + 1, i, peer, uid, daemon_pid, panes, enrolled);
    }
}

/// Every alias that a map names comes from a row of the kind it is made
/// of: a live map vouches for no row whose process is unproven or stale.
pub proof fn mapped_rows_are_picked(rows: Seq<AgentPid>, which: Rows, pid: u32)
    requires
        pid_map(rows, which).contains_key(pid),
    ensures
        exists|i: int|
            0 <= i < rows.len() && (#[trigger] rows[i]).pid == pid && picked(rows[i], which)
                && rows[i].alias == pid_map(rows, which)[pid],
    decreases rows.len(),
{
    if picked(rows.last(), which) && rows.last().pid == pid {
        assert(rows[rows.len() - 1].pid == pid);
    } else {
        mapped_rows_are_picked(rows.drop_last(), which, pid);
        let i = choose|i: int|
            0 <= i < rows.drop_last().len() && (#[trigger] rows.drop_last()[i]).pid == pid
                && picked(rows.drop_last()[i], which) && rows.drop_last()[i].alias == pid_map(
                rows.drop_last(),
                which,
            )[pid];
        assert(rows[i] == rows.drop_last()[i]);
    }
}

/// What may identify a caller may also deny one: every live pid is
/// fenced.
pub proof fn live_is_fenced(rows: Seq<AgentPid>, pid: u32)
    requires
        pid_map(rows, Rows::Live).contains_key(pid),
    ensures
        pid_map(rows, Rows::Fenced).contains_key(pid),
    decreases rows.len(),
{
    if rows.len() > 0 && pid_map(rows.drop_last(), Rows::Live).contains_key(pid) {
        live_is_fenced(rows.drop_last(), pid);
    }
}

/// An agent may change `target` only as its PM, or itself by a
/// self-service change.
pub proof fn only_pm_or_self_changes(
    alias: Seq<char>,
    target: Seq<char>,
    target_pm: Option<Seq<char>>,
    mutation: AgentMutation,
    verb: Seq<char>,
)
    ensures
        mutation_refusal(alias, target, target_pm, mutation, verb) is None <==> ((alias == target
            && mutation is SelfService) || (alias != target && target_pm == Some(alias))),
{
}

} // verus!
