//! Who a peer is, told by what was read of its processes.
use crate::peer;
use crate::peer::{
    Addr, AgentPid, AgentRoots, Hop, Pass, PeerFacts, PeerTies, PidProof, PidRow, Rows, Stdio,
};
use crate::text;
use vstd::prelude::*;

verus! {

// ---------- ties ----------

/// A peer shares a pane's terminal by the first pseudo-terminal among the
/// pane's descriptors, and by no other.
pub proof fn the_first_terminal_ties(
    peer: Seq<Option<Seq<char>>>,
    pane: Seq<Option<Seq<char>>>,
    k: int,
)
    requires
        0 <= k < pane.len(),
        pane[k] is Some,
        text::begins(pane[k]->0, "/dev/pts/"@),
        forall|j: int|
            0 <= j < k ==> !((#[trigger] pane[j]) is Some && text::begins(
                pane[j]->0,
                "/dev/pts/"@,
            )),
    ensures
        peer::shares_pty(peer, pane) <==> exists|i: int|
            0 <= i < peer.len() && #[trigger] peer[i] == pane[k],
    decreases k,
{
    first_pty(pane, k);
    if exists|i: int| 0 <= i < peer.len() && #[trigger] peer[i] == pane[k] {
        let i = choose|i: int| 0 <= i < peer.len() && #[trigger] peer[i] == pane[k];
        assert(peer.contains(peer[i]));
    }
}

proof fn first_pty(pane: Seq<Option<Seq<char>>>, k: int)
    requires
        0 <= k < pane.len(),
        peer::is_pty(pane[k]),
        forall|j: int| 0 <= j < k ==> !peer::is_pty(#[trigger] pane[j]),
    ensures
        peer::pty_of(pane) == pane[k],
    decreases k,
{
    if k > 0 {
        let w = pane.drop_first();
        assert(!peer::is_pty(pane[0]));
        assert(w[k - 1] == pane[k]);
        assert forall|j: int| 0 <= j < k - 1 implies !peer::is_pty(#[trigger] w[j]) by {
            assert(w[j] == pane[j + 1]);
        }
        first_pty(w, k - 1);
    }
}

/// A pane without a terminal shares it with nobody.
pub proof fn without_a_terminal_nothing_is_shared(
    peer: Seq<Option<Seq<char>>>,
    pane: Seq<Option<Seq<char>>>,
)
    requires
        forall|j: int|
            0 <= j < pane.len() ==> !((#[trigger] pane[j]) is Some && text::begins(
                pane[j]->0,
                "/dev/pts/"@,
            )),
    ensures
        !peer::shares_pty(peer, pane),
    decreases pane.len(),
{
    if pane.len() > 0 {
        let w = pane.drop_first();
        assert(!peer::is_pty(pane[0]));
        assert forall|j: int| 0 <= j < w.len() implies !((#[trigger] w[j]) is Some && text::begins(
            w[j]->0,
            "/dev/pts/"@,
        )) by {
            assert(w[j] == pane[j + 1]);
        }
        without_a_terminal_nothing_is_shared(peer, w);
    }
}

// ---------- rows ----------

/// The row may be used so: proven rows identify, unproven ones refuse, and
/// all that are kept fence.
pub open spec fn serves(row: AgentPid, which: Rows) -> bool {
    match which {
        Rows::Live => row.proof == PidProof::Same,
        Rows::Fenced => true,
        Rows::Unproven => row.proof == PidProof::Unproven,
    }
}

/// A pid stands for the alias of the last row that has it and serves, and for
/// none where no such row has it.
pub proof fn the_last_row_of_a_pid_names_it(rows: Seq<AgentPid>, which: Rows, k: int)
    requires
        0 <= k < rows.len(),
        serves(rows[k], which),
        forall|j: int|
            k < j < rows.len() ==> !((#[trigger] rows[j]).pid == rows[k].pid && serves(
                rows[j],
                which,
            )),
    ensures
        peer::pid_map(rows, which).contains_key(rows[k].pid),
        peer::pid_map(rows, which)[rows[k].pid] == rows[k].alias,
    decreases rows.len(),
{
    if k < rows.len() - 1 {
        let w = rows.drop_last();
        let last = rows[rows.len() - 1];
        assert(!(last.pid == rows[k].pid && serves(last, which)));
        assert forall|j: int| k < j < w.len() implies !((#[trigger] w[j]).pid == w[k].pid && serves(
            w[j],
            which,
        )) by {
            assert(w[j] == rows[j]);
        }
        the_last_row_of_a_pid_names_it(w, which, k);
    }
}

/// A pid that no serving row has stands for nobody.
pub proof fn an_unlisted_pid_names_nobody(rows: Seq<AgentPid>, which: Rows, pid: u32)
    requires
        forall|j: int|
            0 <= j < rows.len() ==> !((#[trigger] rows[j]).pid == pid && serves(rows[j], which)),
    ensures
        !peer::pid_map(rows, which).contains_key(pid),
    decreases rows.len(),
{
    if rows.len() > 0 {
        let w = rows.drop_last();
        let last = rows[rows.len() - 1];
        assert(!(last.pid == pid && serves(last, which)));
        assert forall|j: int| 0 <= j < w.len() implies !((#[trigger] w[j]).pid == pid && serves(
            w[j],
            which,
        )) by {
            assert(w[j] == rows[j]);
        }
        an_unlisted_pid_names_nobody(w, which, pid);
    }
}

/// A recorded process is the same where its start time is the one recorded,
/// unproven where there is nothing to compare, and stale otherwise.
pub proof fn a_start_time_proves_a_process(r: PidRow)
    ensures
        peer::proof_of(r) is Same <==> r.recorded_start is Some && r.now == r.recorded_start,
        peer::proof_of(r) is Unproven <==> r.recorded_start is None || (r.now is None
            && r.exists_now),
        peer::proof_of(r) is Stale <==> r.recorded_start is Some && r.now != r.recorded_start && (
        r.now is Some || !r.exists_now),
{
}

/// Only what is stale is left out of the rows.
pub proof fn only_stale_rows_are_left_out(rows: Seq<(String, u32, PidProof)>, x: AgentPid)
    ensures
        peer::kept_rows(rows).contains(x) <==> !(x.proof is Stale) && exists|k: int|
            0 <= k < rows.len() && #[trigger] rows[k] == (x.alias, x.pid, x.proof),
    decreases rows.len(),
{
    if rows.len() > 0 {
        let w = rows.drop_last();
        let last = rows.len() - 1;
        only_stale_rows_are_left_out(w, x);
        assert(forall|k: int| 0 <= k < w.len() ==> #[trigger] rows[k] == w[k]);
        let before = peer::kept_rows(w);
        let (alias, pid, verdict) = rows.last();
        let all = peer::kept_rows(rows);
        if before.contains(x) {
            let k = choose|k: int| 0 <= k < before.len() && before[k] == x;
            assert(all[k] == x);
            let k2 = choose|k: int|
                0 <= k < w.len() && #[trigger] w[k] == (x.alias, x.pid, x.proof);
            assert(rows[k2] == (x.alias, x.pid, x.proof));
        }
        if !(verdict is Stale) {
            assert(all[before.len() as int] == (AgentPid { alias, pid, proof: verdict }));
        }
        if all.contains(x) && !before.contains(x) {
            let k = choose|k: int| 0 <= k < all.len() && all[k] == x;
            if k < before.len() {
                assert(before[k] == x);
                assert(false);
            }
            assert(rows[last] == (x.alias, x.pid, x.proof));
        }
        if exists|k: int| 0 <= k < rows.len() && #[trigger] rows[k] == (x.alias, x.pid, x.proof) {
            let k = choose|k: int|
                0 <= k < rows.len() && #[trigger] rows[k] == (x.alias, x.pid, x.proof);
            if k < last {
                assert(w[k] == (x.alias, x.pid, x.proof));
            }
        }
    }
}

// ---------- the operator ----------

/// The process is one of the user's, by its real or effective id.
pub open spec fn of_user(h: Hop, uid: u32) -> bool {
    peer::uids(h.pid, h.status) matches Ok(u) && (u.0 == uid || u.1 == uid)
}

/// Nothing speaks against a process on the ancestry.
pub open spec fn clean(
    h: Hop,
    first: bool,
    uid: u32,
    daemon_pid: u32,
    panes: Map<u32, String>,
    enrolled: Map<u32, String>,
) -> bool {
    &&& peer::uids(h.pid, h.status) is Ok
    &&& !panes.contains_key(h.pid)
    &&& !enrolled.contains_key(h.pid)
    &&& first || h.pid != daemon_pid
    &&& of_user(h, uid) ==> {
        &&& first ==> h.environ is Ok
        &&& h.environ is Ok ==> !peer::carries(h.environ->Ok_0@, "CADENCE_ALIAS="@)
            && !peer::carries(h.environ->Ok_0@, "CADENCE_RUNNER_ID="@)
    }
}

/// A peer is the operator exactly where it runs as the user, its ancestry was
/// walked and is clean to the top, it holds no pane's terminal, and its
/// session is none or led by an ancestor.
pub proof fn who_is_the_operator(
    f: PeerFacts,
    uid: u32,
    daemon_pid: u32,
    panes: Map<u32, String>,
    enrolled: Map<u32, String>,
    ttys: Map<u32, Stdio>,
)
    ensures
        peer::proof_outcome(f, uid, daemon_pid, panes, enrolled, ttys, Ok(())) <==> {
            &&& peer::uids(f.pid, f.status) == Ok::<(nat, nat), Seq<char>>((uid as nat, uid as nat))
            &&& f.ancestry is Some
            &&& forall|i: int|
                0 <= i < f.ancestry->0@.len() ==> clean(
                    #[trigger] f.ancestry->0@[i],
                    i == 0,
                    uid,
                    daemon_pid,
                    panes,
                    enrolled,
                )
            &&& forall|p: u32| #[trigger]
                panes.contains_key(p) ==> !peer::shares_pty(
                    f.stdio.deep_view(),
                    peer::stdio_in(ttys, p),
                )
            &&& peer::session(f.pid, f.stat) is Ok
            &&& ({
                let sid = peer::session(f.pid, f.stat)->Ok_0;
                sid <= 1 || exists|i: int|
                    0 <= i < f.ancestry->0@.len() && (#[trigger] f.ancestry->0@[i]).pid == sid
            })
        },
{
    let ok = peer::proof_outcome(f, uid, daemon_pid, panes, enrolled, ttys, Ok(()));
    if f.ancestry is Some {
        let hops = f.ancestry->0@;
        a_clean_walk(hops, f.pid, uid, daemon_pid, panes, enrolled);
    }
    if forall|p: u32| !#[trigger] peer::pty_of_pane(f, panes, ttys, p) {
        assert forall|p: u32| #[trigger] panes.contains_key(p) implies !peer::shares_pty(
            f.stdio.deep_view(),
            peer::stdio_in(ttys, p),
        ) by {
            assert(!peer::pty_of_pane(f, panes, ttys, p));
        }
    } else {
        let p = choose|p: u32| #[trigger] peer::pty_of_pane(f, panes, ttys, p);
        assert(panes.contains_key(p));
    }
}

proof fn a_clean_walk(
    hops: Seq<Hop>,
    peer: u32,
    uid: u32,
    daemon_pid: u32,
    panes: Map<u32, String>,
    enrolled: Map<u32, String>,
)
    ensures
        peer::walk_refusal(hops, peer, uid, daemon_pid, panes, enrolled) is None <==> forall|i: int|
            0 <= i < hops.len() ==> clean(
                #[trigger] hops[i],
                i == 0,
                uid,
                daemon_pid,
                panes,
                enrolled,
            ),
{
    pass_is_clean(Pass::Status, hops, 0, peer, uid, daemon_pid, panes, enrolled);
    pass_is_clean(Pass::Roots, hops, 0, peer, uid, daemon_pid, panes, enrolled);
    pass_is_clean(Pass::Marks, hops, 0, peer, uid, daemon_pid, panes, enrolled);
    assert forall|i: int| 0 <= i < hops.len() implies clean(
        #[trigger] hops[i],
        i == 0,
        uid,
        daemon_pid,
        panes,
        enrolled,
    ) == (through(Pass::Status, hops, i, peer, uid, daemon_pid, panes, enrolled) && through(
        Pass::Roots,
        hops,
        i,
        peer,
        uid,
        daemon_pid,
        panes,
        enrolled,
    ) && through(Pass::Marks, hops, i, peer, uid, daemon_pid, panes, enrolled)) by {}
    if forall|i: int|
        0 <= i < hops.len() ==> clean(
            #[trigger] hops[i],
            i == 0,
            uid,
            daemon_pid,
            panes,
            enrolled,
        ) {
        assert forall|i: int| 0 <= i < hops.len() implies #[trigger] through(
            Pass::Status,
            hops,
            i,
            peer,
            uid,
            daemon_pid,
            panes,
            enrolled,
        ) by {
            assert(clean(hops[i], i == 0, uid, daemon_pid, panes, enrolled));
        }
        assert forall|i: int| 0 <= i < hops.len() implies #[trigger] through(
            Pass::Roots,
            hops,
            i,
            peer,
            uid,
            daemon_pid,
            panes,
            enrolled,
        ) by {
            assert(clean(hops[i], i == 0, uid, daemon_pid, panes, enrolled));
        }
        assert forall|i: int| 0 <= i < hops.len() implies #[trigger] through(
            Pass::Marks,
            hops,
            i,
            peer,
            uid,
            daemon_pid,
            panes,
            enrolled,
        ) by {
            assert(clean(hops[i], i == 0, uid, daemon_pid, panes, enrolled));
        }
    }
}

spec fn through(
    pass: Pass,
    hops: Seq<Hop>,
    i: int,
    peer: u32,
    uid: u32,
    daemon_pid: u32,
    panes: Map<u32, String>,
    enrolled: Map<u32, String>,
) -> bool {
    peer::hop_refusal(pass, hops[i], i == 0, peer, uid, daemon_pid, panes, enrolled) is None
}

proof fn pass_is_clean(
    pass: Pass,
    hops: Seq<Hop>,
    from: int,
    peer: u32,
    uid: u32,
    daemon_pid: u32,
    panes: Map<u32, String>,
    enrolled: Map<u32, String>,
)
    requires
        0 <= from <= hops.len(),
    ensures
        peer::chain_refusal(pass, hops, from, peer, uid, daemon_pid, panes, enrolled) is None
            <==> forall|i: int|
            from <= i < hops.len() ==> #[trigger] through(
                pass,
                hops,
                i,
                peer,
                uid,
                daemon_pid,
                panes,
                enrolled,
            ),
    decreases hops.len() - from,
{
    if from < hops.len() {
        pass_is_clean(pass, hops, from + 1, peer, uid, daemon_pid, panes, enrolled);
        assert(through(pass, hops, from, peer, uid, daemon_pid, panes, enrolled) == (
        peer::hop_refusal(
            pass,
            hops[from],
            from == 0,
            peer,
            uid,
            daemon_pid,
            panes,
            enrolled,
        ) is None));
    }
}

// ---------- what /proc says ----------

/// The real and effective user of a process are the first two numbers of the
/// first `Uid:` line with two numbers.
pub proof fn the_uid_line_is_read(pid: u32, status: String, k: int, a: nat, b: nat)
    requires
        0 <= k < text::lines(status@).len(),
        a <= u32::MAX,
        b <= u32::MAX,
        ({
            let l = text::lines(status@)[k];
            &&& text::begins(l, "Uid:"@)
            &&& text::words(l.skip(4)).len() >= 2
            &&& text::words(l.skip(4))[0] == text::dec(a)
            &&& text::words(l.skip(4))[1] == text::dec(b)
        }),
        forall|j: int|
            0 <= j < k ==> !text::begins(#[trigger] text::lines(status@)[j], "Uid:"@),
    ensures
        peer::uids(pid, Ok(status)) == Ok::<(nat, nat), Seq<char>>((a, b)),
{
    reveal_strlit("Uid:");
    text::dec_reads_back(a);
    text::dec_reads_back(b);
    assert(peer::line_uids(text::lines(status@)[k]) == Some((a, b)));
    uid_line(text::lines(status@), k);
}

proof fn uid_line(ls: Seq<Seq<char>>, k: int)
    requires
        0 <= k < ls.len(),
        peer::line_uids(ls[k]) is Some,
        forall|j: int| 0 <= j < k ==> !text::begins(#[trigger] ls[j], "Uid:"@),
    ensures
        peer::first_uids(ls) == peer::line_uids(ls[k]),
    decreases k,
{
    if k > 0 {
        let w = ls.drop_first();
        assert(!text::begins(ls[0], "Uid:"@));
        assert(w[k - 1] == ls[k]);
        assert forall|j: int| 0 <= j < k - 1 implies !text::begins(#[trigger] w[j], "Uid:"@) by {
            assert(w[j] == ls[j + 1]);
        }
        uid_line(w, k - 1);
    }
}

/// The session of a process is the fourth word behind the last bracket of its
/// stat line, whatever its name holds.
pub proof fn the_session_is_the_fourth_word(
    pid: u32,
    stat: String,
    name: Seq<char>,
    rest: Seq<char>,
    sid: nat,
)
    requires
        stat@ == name + seq![')'] + rest,
        !rest.contains(')'),
        text::words(rest).len() > 3,
        text::words(rest)[3] == text::dec(sid),
        sid <= u32::MAX,
    ensures
        peer::session(pid, Ok(stat)) == Ok::<nat, Seq<char>>(sid),
{
    text::after_last_found(stat@, name, rest, ')');
    text::dec_reads_back(sid);
}

// ---------- addresses ----------

/// An IPv4 address of the socket table is four octets of one number in hex,
/// the lowest first where the machine is little-endian.
pub proof fn a_short_address_is_four_octets(
    ip: Seq<char>,
    port: Seq<char>,
    w: nat,
    p: nat,
    little: bool,
)
    requires
        ip.len() == 8,
        !ip.contains(':'),
        text::unsigned_upto(ip, 16, 0xffff_ffff) == Some(w),
        text::unsigned_upto(port, 16, 0xffff) == Some(p),
    ensures
        ({
            let r = peer::addr(ip + seq![':'] + port, little);
            let (o, n) = r->0;
            &&& r is Some && o.len() == 4 && n == p
            &&& little ==> o[0] as nat == w % 256 && o[1] as nat == w / 256 % 256 && o[2] as nat == w
                / 65536 % 256 && o[3] as nat == w / 16777216 % 256
            &&& !little ==> o[3] as nat == w % 256 && o[2] as nat == w / 256 % 256 && o[1] as nat
                == w / 65536 % 256 && o[0] as nat == w / 16777216 % 256
        }),
{
    text::first_found(ip + seq![':'] + port, ip, port, ':');
    assert(ip.subrange(0, 8) =~= ip);
    reveal_with_fuel(peer::words_octets, 2);
    let b = peer::word_octets(w, little);
    assert(Seq::<u8>::empty() + b =~= b);
}

/// An IPv4 address carried in an IPv6 one is that IPv4 address; any other
/// stays as it is.
pub proof fn a_mapped_address_is_the_short_one(o: Seq<u8>, a: u8, b: u8, c: u8, d: u8)
    ensures
        peer::canonical_octets(
            seq![0u8, 0, 0, 0, 0, 0, 0, 0, 0, 0, 255, 255, a, b, c, d],
        ) == seq![a, b, c, d],
        o.len() == 4 ==> peer::canonical_octets(o) == o,
        o.len() == 16 && (o[10] != 255 || o[11] != 255) ==> peer::canonical_octets(o) == o,
        o.len() == 16 && (exists|i: int| 0 <= i < 10 && #[trigger] o[i] != 0)
            ==> peer::canonical_octets(o) == o,
{
    let m = seq![0u8, 0, 0, 0, 0, 0, 0, 0, 0, 0, 255, 255, a, b, c, d];
    assert(peer::mapped_v4(m));
    assert(m.skip(12) =~= seq![a, b, c, d]);
}

/// The machine itself is everything under 127, and `::1`.
pub proof fn what_is_loopback(o: Seq<u8>)
    ensures
        o.len() == 4 ==> (peer::loopback(o) <==> o[0] == 127),
        o.len() == 16 ==> (peer::loopback(o) <==> o == seq![
            0u8,
            0,
            0,
            0,
            0,
            0,
            0,
            0,
            0,
            0,
            0,
            0,
            0,
            0,
            0,
            1,
        ]),
        o.len() != 4 && o.len() != 16 ==> !peer::loopback(o),
{
    let one = seq![0u8, 0, 0, 0, 0, 0, 0, 0, 0, 0, 0, 0, 0, 0, 0, 1];
    if o.len() == 16 && peer::loopback(o) {
        assert(o =~= one);
    }
}

/// The socket of a peer is the first line behind the head whose local end is
/// the peer and whose remote port is the server's.
pub proof fn the_peers_socket_is_found(
    table: Seq<char>,
    server: u16,
    peer: Addr,
    little: bool,
    k: int,
)
    requires
        1 <= k < text::lines(table).len(),
        peer::line_socket(text::lines(table)[k], server, peer, little) is Some,
        forall|j: int|
            1 <= j < k ==> peer::line_socket(#[trigger] text::lines(table)[j], server, peer, little)
                is None,
    ensures
        peer::table_socket(table, server, peer, little) == peer::line_socket(
            text::lines(table)[k],
            server,
            peer,
            little,
        ),
{
    let ls = text::lines(table).drop_first();
    assert(ls[k - 1] == text::lines(table)[k]);
    assert forall|j: int| 0 <= j < k - 1 implies peer::line_socket(
        #[trigger] ls[j],
        server,
        peer,
        little,
    ) is None by {
        assert(ls[j] == text::lines(table)[j + 1]);
    }
    socket_line(ls, server, peer, little, k - 1);
}

proof fn socket_line(ls: Seq<Seq<char>>, server: u16, peer: Addr, little: bool, k: int)
    requires
        0 <= k < ls.len(),
        peer::line_socket(ls[k], server, peer, little) is Some,
        forall|j: int|
            0 <= j < k ==> peer::line_socket(#[trigger] ls[j], server, peer, little) is None,
    ensures
        peer::first_socket(ls, server, peer, little) == peer::line_socket(
            ls[k],
            server,
            peer,
            little,
        ),
    decreases k,
{
    if k > 0 {
        let w = ls.drop_first();
        assert(peer::line_socket(ls[0], server, peer, little) is None);
        assert(w[k - 1] == ls[k]);
        assert forall|j: int| 0 <= j < k - 1 implies peer::line_socket(
            #[trigger] w[j],
            server,
            peer,
            little,
        ) is None by {
            assert(w[j] == ls[j + 1]);
        }
        socket_line(w, server, peer, little, k - 1);
    }
}

/// A line is the peer's where its second column is the peer, its third ends
/// in the server's port, and its socket is not gone; it tells the inode and
/// the user.
pub proof fn a_line_of_the_peer(
    line: Seq<char>,
    server: u16,
    peer: Addr,
    little: bool,
    local: (Seq<u8>, u16),
    remote: (Seq<u8>, u16),
    uid: nat,
    inode: nat,
)
    requires
        text::words(line).len() >= 10,
        peer::addr(text::words(line)[1], little) == Some(local),
        peer::addr(text::words(line)[2], little) == Some(remote),
        text::words(line)[7] == text::dec(uid),
        text::words(line)[9] == text::dec(inode),
        uid <= u32::MAX,
        inode <= u64::MAX,
    ensures
        peer::line_socket(line, server, peer, little) is Some <==> peer::canonical_octets(local.0)
            == peer.octets@ && local.1 == peer.port && remote.1 == server && inode != 0,
        peer::line_socket(line, server, peer, little) is Some ==> peer::line_socket(
            line,
            server,
            peer,
            little,
        ) == Some((inode, uid)),
{
    text::dec_reads_back(uid);
    text::dec_reads_back(inode);
}

// ---------- attribution ----------

/// The peer comes from that process, or holds its terminal where terminals
/// count.
pub open spec fn tied(t: PeerTies, pid: u32, ttys: Option<Map<u32, Stdio>>) -> bool {
    ||| t.chain is Some && exists|i: int|
        0 <= i < t.chain->0@.len() && #[trigger] t.chain->0@[i] == pid
    ||| ttys is Some && peer::shares_pty(t.stdio.deep_view(), peer::stdio_in(ttys->0, pid))
}

proof fn tie_is_tied(t: PeerTies, pid: u32, ttys: Option<Map<u32, Stdio>>)
    ensures
        peer::tie(t, pid, ttys) == tied(t, pid, ttys),
{
    if t.chain is Some {
        let c = t.chain->0@;
        if exists|i: int| 0 <= i < c.len() && #[trigger] c[i] == pid {
            let i = choose|i: int| 0 <= i < c.len() && #[trigger] c[i] == pid;
            assert(c.contains(c[i]));
        }
    }
}

/// A peer that is tied to a proven pane is attributed to its agent.
pub proof fn a_proven_pane_attributes(
    t: PeerTies,
    roots: AgentRoots,
    ttys: Map<u32, Stdio>,
    k: int,
)
    requires
        0 <= k < roots.panes.rows@.len(),
        roots.panes.rows@[k].proof is Same,
        tied(t, roots.panes.rows@[k].pid, Some(ttys)),
        forall|j: int|
            k < j < roots.panes.rows@.len() ==> !((#[trigger] roots.panes.rows@[j]).pid
                == roots.panes.rows@[k].pid && roots.panes.rows@[j].proof is Same),
    ensures
        peer::attributed(t, roots, ttys, roots.panes.rows@[k].alias@),
{
    let rows = roots.panes.rows@;
    assert forall|j: int| k < j < rows.len() implies !((#[trigger] rows[j]).pid == rows[k].pid
        && serves(rows[j], Rows::Live)) by {}
    the_last_row_of_a_pid_names_it(rows, Rows::Live, k);
    tie_is_tied(t, rows[k].pid, Some(ttys));
    assert(peer::pid_map(rows, Rows::Live).contains_key(rows[k].pid));
}

/// A peer that descends from a proven managed endpoint is attributed to its
/// agent.
pub proof fn a_proven_endpoint_attributes(
    t: PeerTies,
    roots: AgentRoots,
    ttys: Map<u32, Stdio>,
    k: int,
)
    requires
        0 <= k < roots.managed.rows@.len(),
        roots.managed.rows@[k].proof is Same,
        tied(t, roots.managed.rows@[k].pid, None),
        forall|j: int|
            k < j < roots.managed.rows@.len() ==> !((#[trigger] roots.managed.rows@[j]).pid
                == roots.managed.rows@[k].pid && roots.managed.rows@[j].proof is Same),
    ensures
        peer::attributed(t, roots, ttys, roots.managed.rows@[k].alias@),
{
    let rows = roots.managed.rows@;
    assert forall|j: int| k < j < rows.len() implies !((#[trigger] rows[j]).pid == rows[k].pid
        && serves(rows[j], Rows::Live)) by {}
    the_last_row_of_a_pid_names_it(rows, Rows::Live, k);
    tie_is_tied(t, rows[k].pid, None);
    assert(peer::pid_map(rows, Rows::Live).contains_key(rows[k].pid));
}

/// Nothing else attributes: the agent has a proven row that the peer is tied
/// to.
pub proof fn an_attribution_has_a_proven_row(
    t: PeerTies,
    roots: AgentRoots,
    ttys: Map<u32, Stdio>,
    x: Seq<char>,
)
    requires
        peer::attributed(t, roots, ttys, x),
    ensures
        (exists|k: int|
            0 <= k < roots.panes.rows@.len() && (#[trigger] roots.panes.rows@[k]).alias@ == x
                && roots.panes.rows@[k].proof is Same && tied(
                t,
                roots.panes.rows@[k].pid,
                Some(ttys),
            )) || (exists|k: int|
            0 <= k < roots.managed.rows@.len() && (#[trigger] roots.managed.rows@[k]).alias@ == x
                && roots.managed.rows@[k].proof is Same && tied(
                t,
                roots.managed.rows@[k].pid,
                None,
            )),
{
    if peer::live_tie(t, roots.panes.rows@, Some(ttys), x) {
        let rows = roots.panes.rows@;
        let m = peer::pid_map(rows, Rows::Live);
        let pid = choose|pid: u32| #[trigger]
            m.contains_key(pid) && m[pid]@ == x && peer::tie(t, pid, Some(ttys));
        tie_is_tied(t, pid, Some(ttys));
        peer::mapped_rows_are_picked(rows, Rows::Live, pid);
        let k = choose|k: int|
            0 <= k < rows.len() && (#[trigger] rows[k]).pid == pid && peer::picked(
                rows[k],
                Rows::Live,
            ) && rows[k].alias == m[pid];
        assert(rows[k].alias@ == x);
    } else {
        let rows = roots.managed.rows@;
        let m = peer::pid_map(rows, Rows::Live);
        let pid = choose|pid: u32| #[trigger]
            m.contains_key(pid) && m[pid]@ == x && peer::tie(t, pid, None);
        tie_is_tied(t, pid, None);
        peer::mapped_rows_are_picked(rows, Rows::Live, pid);
        let k = choose|k: int|
            0 <= k < rows.len() && (#[trigger] rows[k]).pid == pid && peer::picked(
                rows[k],
                Rows::Live,
            ) && rows[k].alias == m[pid];
        assert(rows[k].alias@ == x);
    }
}

proof fn unproven_found(t: PeerTies, rows: Seq<AgentPid>, ttys: Option<Map<u32, Stdio>>)
    ensures
        peer::first_unproven(t, rows, ttys) is Some <==> exists|k: int|
            0 <= k < rows.len() && (#[trigger] rows[k]).proof is Unproven && tied(
                t,
                rows[k].pid,
                ttys,
            ),
    decreases rows.len(),
{
    if rows.len() > 0 {
        tie_is_tied(t, rows[0].pid, ttys);
        let w = rows.drop_first();
        unproven_found(t, w, ttys);
        assert(forall|k: int| 0 < k < rows.len() ==> #[trigger] rows[k] == w[k - 1]);
        if exists|k: int|
            0 <= k < w.len() && (#[trigger] w[k]).proof is Unproven && tied(t, w[k].pid, ttys) {
            let k = choose|k: int|
                0 <= k < w.len() && (#[trigger] w[k]).proof is Unproven && tied(t, w[k].pid, ttys);
            assert(rows[k + 1] == w[k]);
        }
        if exists|k: int|
            0 <= k < rows.len() && (#[trigger] rows[k]).proof is Unproven && tied(
                t,
                rows[k].pid,
                ttys,
            ) {
            let k = choose|k: int|
                0 <= k < rows.len() && (#[trigger] rows[k]).proof is Unproven && tied(
                    t,
                    rows[k].pid,
                    ttys,
                );
            if k > 0 {
                assert(w[k - 1] == rows[k]);
            }
        }
    }
}

/// A peer is refused exactly where its ancestry could not be walked or a row
/// it is tied to proves nothing.
pub proof fn an_unproven_row_refuses(t: PeerTies, roots: AgentRoots, ttys: Map<u32, Stdio>)
    ensures
        peer::owner_refusal(t, roots, ttys) is Some <==> t.chain is None || (exists|k: int|
            0 <= k < roots.panes.rows@.len() && (#[trigger] roots.panes.rows@[k]).proof is Unproven
                && tied(t, roots.panes.rows@[k].pid, Some(ttys))) || (exists|k: int|
            0 <= k < roots.managed.rows@.len() && (#[trigger] roots.managed.rows@[k]).proof
                is Unproven && tied(t, roots.managed.rows@[k].pid, None)),
{
    unproven_found(t, roots.panes.rows@, Some(ttys));
    unproven_found(t, roots.managed.rows@, None);
}

/// Of several owners of a socket, one that is refused refuses the peer.
pub proof fn one_refused_owner_refuses(
    owners: Seq<PeerTies>,
    roots: AgentRoots,
    ttys: Map<u32, Stdio>,
)
    ensures
        peer::owners_refusal(owners, roots, ttys) is Some <==> exists|k: int|
            0 <= k < owners.len() && peer::owner_refusal(#[trigger] owners[k], roots, ttys) is Some,
    decreases owners.len(),
{
    if owners.len() > 0 {
        let w = owners.drop_first();
        one_refused_owner_refuses(w, roots, ttys);
        assert(forall|k: int| 0 < k < owners.len() ==> #[trigger] owners[k] == w[k - 1]);
        if exists|k: int|
            0 <= k < w.len() && peer::owner_refusal(#[trigger] w[k], roots, ttys) is Some {
            let k = choose|k: int|
                0 <= k < w.len() && peer::owner_refusal(#[trigger] w[k], roots, ttys) is Some;
            assert(owners[k + 1] == w[k]);
        }
        if exists|k: int|
            0 <= k < owners.len() && peer::owner_refusal(#[trigger] owners[k], roots, ttys)
                is Some {
            let k = choose|k: int|
                0 <= k < owners.len() && peer::owner_refusal(#[trigger] owners[k], roots, ttys)
                    is Some;
            if k > 0 {
                assert(w[k - 1] == owners[k]);
            }
        }
    }
}

} // verus!
