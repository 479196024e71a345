use cadence::peer::{
    caller_env_alias, canonical, client_socket, holds_pane_tty, is_loopback, may_mutate_agent,
    operator_proof, parse_addr, pid_proof, proc_session, proc_starttime, proc_uids, tcp_peer_agent,
    tcp_peer_operator_proof, unmatched_caller, Addr, AgentCaller, AgentMutation, AgentPids,
    AgentRoots, Hop, PeerFacts, PeerTies, PidProof, PidRow,
};
use std::collections::HashMap;

const ME: u32 = 4100;
const PARENT: u32 = 4000;
const START: u64 = 777;

fn row(alias: &str, pid: u32, recorded_start: Option<u64>) -> PidRow {
    PidRow {
        alias: alias.to_string(),
        pid,
        recorded_start,
        now: Some(START),
        exists_now: true,
    }
}

fn recorded(alias: &str, pid: u32) -> AgentPids {
    AgentPids::classify(vec![row(alias, pid, Some(START))])
}

fn no_roots() -> AgentRoots {
    AgentRoots {
        panes: AgentPids::none(),
        managed: AgentPids::none(),
    }
}

fn addr(octets: &[u8], port: u16) -> Addr {
    Addr {
        octets: octets.to_vec(),
        port,
    }
}

fn same(a: &Addr, b: &Addr) -> bool {
    a.octets == b.octets && a.port == b.port
}

/// This process, a child of `PARENT`, on no terminal.
fn me() -> PeerTies {
    PeerTies::probe(
        ME,
        Some(vec![ME, PARENT, 1]),
        Some(b"PATH=/bin\0".to_vec()),
        vec![None, None, None],
    )
}

fn attributed(
    peer: &Addr,
    socket: Result<Option<(u64, u32)>, String>,
    roots: &AgentRoots,
) -> Result<Option<String>, String> {
    tcp_peer_agent(
        8080,
        peer,
        "127.0.0.1:40000",
        socket,
        &vec![me()],
        roots,
        &HashMap::new(),
    )
}

#[test]
fn parses_proc_net_addresses() {
    let v4 = parse_addr("0100007F:1F90", true).unwrap();
    assert!(same(&v4, &addr(&[127, 0, 0, 1], 8080)));
    let big = parse_addr("7F000001:1F90", false).unwrap();
    assert!(same(&big, &v4));
    let mut localhost = [0u8; 16];
    localhost[15] = 1;
    let v6 = parse_addr("00000000000000000000000001000000:0050", true).unwrap();
    assert!(same(&v6, &addr(&localhost, 80)));
    assert!(is_loopback(&v6));
    assert!(parse_addr("zz:0050", true).is_none());
    let mut mapped = [0u8; 16];
    mapped[10] = 0xff;
    mapped[11] = 0xff;
    mapped[12] = 127;
    mapped[15] = 1;
    assert!(same(
        &canonical(addr(&mapped, 5)),
        &addr(&[127, 0, 0, 1], 5)
    ));
}

#[test]
fn a_loopback_peer_resolves_to_its_process_and_pane() {
    let peer = addr(&[127, 0, 0, 1], 40000);
    let held = || Ok(Some((99u64, 1000u32)));
    assert_eq!(attributed(&peer, held(), &no_roots()), Ok(None));
    let panes = AgentRoots {
        panes: recorded("w1", ME),
        managed: AgentPids::none(),
    };
    assert_eq!(attributed(&peer, held(), &panes), Ok(Some("w1".into())));
    // A loopback address that no local socket holds is unattributable.
    let ghost = addr(&[127, 0, 0, 1], 1);
    assert!(attributed(&ghost, Ok(None), &panes).is_err());
    // Another host's address is no pane here.
    let remote = addr(&[192, 0, 2, 7], 40000);
    assert_eq!(attributed(&remote, Ok(None), &panes), Ok(None));
}

#[test]
fn a_loopback_peer_under_a_managed_provider_is_that_agent() {
    let peer = addr(&[127, 0, 0, 1], 40000);
    let held = || Ok(Some((99u64, 1000u32)));
    let managed = AgentRoots {
        panes: AgentPids::none(),
        managed: recorded("wk", PARENT),
    };
    assert_eq!(attributed(&peer, held(), &managed), Ok(Some("wk".into())));
    let unrelated = AgentRoots {
        panes: AgentPids::none(),
        managed: recorded("wk", 9999),
    };
    assert_eq!(attributed(&peer, held(), &unrelated), Ok(None));
    let both = AgentRoots {
        panes: recorded("w1", ME),
        managed: recorded("wk", PARENT),
    };
    assert!(attributed(&peer, held(), &both).is_err());
}

#[test]
fn pid_proof_tells_same_stale_and_unproven() {
    assert_eq!(pid_proof(Some(START), Some(START), true), PidProof::Same);
    assert_eq!(
        pid_proof(Some(START - 1), Some(START), true),
        PidProof::Stale
    );
    assert_eq!(pid_proof(None, Some(START), true), PidProof::Unproven);
    let rows = AgentPids::classify(vec![
        row("live", 55, Some(START)),
        row("reused", 55, Some(START - 1)),
        row("legacy", 55, None),
    ]);
    assert_eq!(rows.live(), HashMap::from([(55, "live".to_string())]));
    assert!(rows.get("reused").is_none(), "a stale row maps nothing");
    assert_eq!(
        rows.unproven()
            .iter()
            .map(|r| r.alias.as_str())
            .collect::<Vec<_>>(),
        vec!["legacy"]
    );
    let err = rows.refuse_unproven_on(&[42, 55]).unwrap_err();
    assert!(
        err.contains("'legacy'") && err.contains("doctor --host"),
        "{err}"
    );
    assert!(rows.refuse_unproven_on(&[42]).is_ok());
    assert_eq!(
        pid_proof(Some(START), None, false),
        PidProof::Stale,
        "gone"
    );
}

#[test]
fn a_reused_or_unrecorded_pane_pid_never_attributes_a_board_write() {
    let peer = addr(&[127, 0, 0, 1], 40000);
    let held = || Ok(Some((99u64, 1000u32)));
    let unregistered = attributed(&peer, held(), &no_roots());
    assert_eq!(unregistered, Ok(None));
    let reused = AgentRoots {
        panes: AgentPids::classify(vec![row("pm", ME, Some(START - 1))]),
        managed: AgentPids::classify(vec![row("wk", ME, Some(START + 1))]),
    };
    assert_eq!(attributed(&peer, held(), &reused), unregistered);
    let legacy = AgentRoots {
        panes: AgentPids::classify(vec![row("pm", ME, None)]),
        managed: AgentPids::none(),
    };
    let err = attributed(&peer, held(), &legacy).unwrap_err();
    assert!(
        err.contains("'pm'") && err.contains("doctor --host"),
        "{err}"
    );
    let legacy_managed = AgentRoots {
        panes: AgentPids::none(),
        managed: AgentPids::classify(vec![row("wk", ME, None)]),
    };
    assert!(attributed(&peer, held(), &legacy_managed).is_err());
}

fn status() -> Result<String, String> {
    Ok("Name:\tsh\nUid:\t1000\t1000\t1000\t1000\n".to_string())
}

fn facts() -> PeerFacts {
    let hop = |pid: u32| Hop {
        pid,
        status: status(),
        environ: Ok(b"PATH=/bin\0".to_vec()),
    };
    PeerFacts {
        pid: ME,
        status: status(),
        ancestry: Some(vec![hop(ME), hop(PARENT)]),
        stdio: vec![None, None, None],
        stat: Ok(format!("{ME} (sh) S {PARENT} {ME} {ME} 0 -1")),
    }
}

#[test]
fn board_operator_proof_denies_live_and_unproven_rows_but_not_reused_ones() {
    let prove = |roots: &AgentRoots| {
        tcp_peer_operator_proof(
            8080,
            "127.0.0.1:40000",
            Ok(Some((99, 1000))),
            &vec![facts()],
            1000,
            0,
            roots,
            &HashMap::new(),
        )
    };
    let unregistered = prove(&no_roots());
    let reused = AgentRoots {
        panes: AgentPids::classify(vec![row("pm", ME, Some(START - 1))]),
        managed: AgentPids::classify(vec![row("wk", ME, Some(START + 1))]),
    };
    assert_eq!(prove(&reused), unregistered);
    for start in [Some(START), None] {
        let pane = AgentRoots {
            panes: AgentPids::classify(vec![row("pm", ME, start)]),
            managed: AgentPids::none(),
        };
        let err = prove(&pane).unwrap_err();
        assert!(err.contains("registered pane 'pm'"), "{err}");
        let managed = AgentRoots {
            panes: AgentPids::none(),
            managed: AgentPids::classify(vec![row("wk", ME, start)]),
        };
        let err = prove(&managed).unwrap_err();
        assert!(err.contains("enrolled managed endpoint"), "{err}");
    }
}

#[test]
fn the_operator_proof_checks_the_whole_ancestry_in_order() {
    let prove = |f: PeerFacts, panes: &HashMap<u32, String>| {
        operator_proof(&f, 1000, 0, panes, &HashMap::new(), &HashMap::new())
    };
    let marked = |unreadable: bool| {
        let mut f = facts();
        let hops = f.ancestry.as_mut().unwrap();
        hops[0].environ = Ok(b"CADENCE_ALIAS=w1\0".to_vec());
        if unreadable {
            hops[1].status = Err("gone".to_string());
        }
        f
    };
    let pane = HashMap::from([(PARENT, "pm".to_string())]);
    let err = prove(marked(true), &pane).unwrap_err();
    assert!(err.contains("gone"), "{err}");
    let err = prove(marked(false), &pane).unwrap_err();
    assert!(err.contains("registered pane 'pm'"), "{err}");
    let err = prove(marked(false), &HashMap::new()).unwrap_err();
    assert!(err.contains("carries CADENCE_ALIAS"), "{err}");
    assert!(prove(facts(), &HashMap::new()).is_ok());
}

#[test]
fn a_loopback_client_socket_carries_its_owner_uid() {
    // Port 8080 is the server; 40000 (9C40) is the client end.
    let table = "  sl  local_address rem_address   st tx_queue rx_queue tr tm->when retrnsmt   uid  timeout inode\n   \
0: 0100007F:1F90 0100007F:9C40 01 00000000:00000000 00:00000000 00000000  1000        0 98 1\n   \
1: 0100007F:9C40 0100007F:1F90 01 00000000:00000000 00:00000000 00000000  1000        0 99 1\n";
    let peer = addr(&[127, 0, 0, 1], 40000);
    assert_eq!(
        client_socket(Some(table), None, 8080, &peer, true),
        Ok(Some((99, 1000)))
    );
    let other = addr(&[127, 0, 0, 1], 40001);
    assert_eq!(client_socket(Some(table), None, 8080, &other, true), Ok(None));
    assert!(client_socket(None, None, 8080, &peer, true).is_err());
}

#[test]
fn process_files_are_read_by_field() {
    assert_eq!(proc_uids(7, &status()), Ok((1000, 1000)));
    assert!(proc_uids(7, &Ok("Name:\tsh\n".to_string())).is_err());
    // A command name may hold spaces and brackets.
    let stat = "7 (a b) c) S 1 7 5 0 -1 4194304 1 0 0 0 0 0 0 0 20 0 1 0 777 10";
    assert_eq!(proc_session(7, &Ok(stat.to_string())), Ok(5));
    assert_eq!(proc_starttime(stat), Some(777));
    assert_eq!(proc_starttime("7 (sh"), None);
}

#[test]
fn an_agent_is_tied_by_its_environment_or_its_terminal() {
    assert_eq!(
        caller_env_alias(b"PATH=/bin\0CADENCE_ALIAS=w1\0"),
        Some("w1".to_string())
    );
    assert_eq!(caller_env_alias(b"CADENCE_ALIAS=\0"), None);
    assert_eq!(caller_env_alias(b"PATH=/bin\0"), None);
    let pts = || vec![Some("/dev/pts/3".to_string()), None, None];
    assert!(holds_pane_tty(&pts(), &pts()));
    assert!(!holds_pane_tty(&pts(), &vec![None, None, None]));
    let file = || vec![Some("/tmp/log".to_string()), None, None];
    assert!(!holds_pane_tty(&file(), &file()));
}

#[test]
fn an_unmatched_caller_is_not_taken_for_the_operator() {
    assert!(unmatched_caller(false, true, false, "agent rm").is_err());
    let placed = |walked, alive, tty| unmatched_caller(walked, alive, tty, "agent rm").unwrap();
    assert_eq!(placed(false, false, true).1, "unknown");
    assert_eq!(placed(true, true, false).1, "unknown");
    assert_eq!(placed(true, true, true), ("operator".to_string(), "operator"));
}

#[test]
fn may_mutate_agent_per_caller_kind() {
    let op = AgentCaller::Operator;
    let pm = AgentCaller::Agent("pm".into());
    let pm2 = AgentCaller::Agent("pm2".into());
    let w1 = AgentCaller::Agent("w1".into());
    let w2 = AgentCaller::Agent("w2".into());
    let may = |c: &AgentCaller, target: &str, target_pm: Option<&str>, m| {
        may_mutate_agent(c, target, target_pm, m, "agent set")
    };
    for m in [AgentMutation::SelfService, AgentMutation::Controlled] {
        assert!(may(&op, "w2", Some("pm"), m).is_ok());
        assert!(may(&op, "root", None, m).is_ok());
        assert!(may(&pm, "w2", Some("pm"), m).is_ok());
        let e = may(&w1, "w2", Some("pm"), m).unwrap_err();
        assert!(e.contains("cannot change another agent"), "{e}");
        assert!(e.contains("its PM 'pm'"), "{e}");
        assert!(may(&pm2, "w2", Some("pm"), m).is_err());
        assert!(may(&w2, "w1", None, m).is_err());
    }
    assert!(may(&w1, "w1", Some("pm"), AgentMutation::SelfService).is_ok());
    let e = may(&w1, "w1", Some("pm"), AgentMutation::Controlled).unwrap_err();
    assert!(e.contains("cannot make this change to itself"), "{e}");
    assert!(e.contains("caller rule"), "{e}");
    assert!(may(&pm, "pm", None, AgentMutation::Controlled).is_err());
    assert!(may(&pm, "pm", None, AgentMutation::SelfService).is_ok());
    assert!(may(&w1, "w1", Some("w1"), AgentMutation::Controlled).is_err());
}

#[test]
fn only_process_signals_attribute() {
    let p = PeerTies::probe(
        ME,
        Some(vec![ME, PARENT, 1]),
        Some(b"CADENCE_ALIAS=w3\0".to_vec()),
        vec![Some("/dev/pts/3".to_string()), None, None],
    );
    let panes = vec![
        ("w2".to_string(), 500),
        ("w1".to_string(), PARENT),
        ("w3".to_string(), 600),
        ("w1".to_string(), PARENT),
    ];
    let ttys = HashMap::from([
        (500, vec![Some("/dev/pts/3".to_string()), None, None]),
        (600, vec![Some("/dev/pts/4".to_string()), None, None]),
    ]);
    assert_eq!(p.attributed_agents(&panes, &ttys), ["w1", "w2"]);
    assert!(p.on_tty());
    assert!(!me().on_tty());
}
