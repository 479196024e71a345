//! What may be asked for, told by the arguments of a command.
use crate::master_perm;
use crate::master_perm::{ClassView, Facts, Risk};
use crate::paths;
use crate::text;
use vstd::prelude::*;

verus! {

/// An argument behind the program that is no flag.
pub open spec fn is_operand(argv: Seq<Seq<char>>, i: int) -> bool {
    1 <= i < argv.len() && !(argv[i].len() > 0 && argv[i][0] == '-')
}

/// An operand that a reading command opens: any, but the first of `grep`.
pub open spec fn is_file(argv: Seq<Seq<char>>, i: int) -> bool {
    is_operand(argv, i) && (argv[0] == "grep"@ ==> exists|j: int|
        j < i && #[trigger] is_operand(argv, j))
}

/// The argument leads to something in a registered checkout.
pub open spec fn in_a_checkout(f: Facts, i: int) -> bool {
    f.resolved@[i] is Some && exists|k: int|
        0 <= k < f.checkouts@.len() && master_perm::inside(
            f.resolved@[i]->0@,
            (#[trigger] f.checkouts@[k])@,
        )
}

proof fn checkout_is_any(f: Facts, i: int)
    ensures
        in_a_checkout(f, i) == (f.resolved@[i] is Some && master_perm::inside_any(
            f.resolved@[i]->0@,
            f.checkouts.deep_view(),
        )),
{
    let d = f.checkouts.deep_view();
    if f.resolved@[i] is Some {
        let p = f.resolved@[i]->0@;
        if in_a_checkout(f, i) {
            let k = choose|k: int|
                0 <= k < f.checkouts@.len() && master_perm::inside(
                    p,
                    (#[trigger] f.checkouts@[k])@,
                );
            assert(master_perm::inside(p, d[k]));
        }
        if master_perm::inside_any(p, d) {
            let k = choose|k: int| 0 <= k < d.len() && master_perm::inside(p, #[trigger] d[k]);
            assert(master_perm::inside(p, f.checkouts@[k]@));
        }
    }
}

proof fn operands_are(argv: Seq<Seq<char>>, n: int)
    requires
        n >= 1,
    ensures
        forall|k: int|
            0 <= k < master_perm::operands(argv, n).len() ==> is_operand(
                argv,
                #[trigger] master_perm::operands(argv, n)[k],
            ) && master_perm::operands(argv, n)[k] >= n,
        forall|i: int|
            n <= i && #[trigger] is_operand(argv, i) ==> master_perm::operands(argv, n).contains(i),
        forall|a: int, b: int|
            0 <= a < b < master_perm::operands(argv, n).len() ==> master_perm::operands(argv, n)[a]
                < master_perm::operands(argv, n)[b],
    decreases argv.len() - n,
{
    let all = master_perm::operands(argv, n);
    if n < argv.len() {
        operands_are(argv, n + 1);
        let rest = master_perm::operands(argv, n + 1);
        if is_operand(argv, n) {
            assert(all =~= seq![n] + rest);
            assert(all[0] == n);
            assert forall|k: int| 0 <= k < all.len() implies is_operand(argv, #[trigger] all[k])
                && all[k] >= n by {
                if k > 0 {
                    assert(all[k] == rest[k - 1]);
                }
            }
            assert forall|i: int| n <= i && #[trigger] is_operand(argv, i) implies all.contains(
                i,
            ) by {
                if i > n {
                    let k = choose|k: int| 0 <= k < rest.len() && rest[k] == i;
                    assert(all[k + 1] == i);
                }
            }
            assert forall|a: int, b: int| 0 <= a < b < all.len() implies all[a] < all[b] by {
                assert(all[b] == rest[b - 1]);
                if a > 0 {
                    assert(all[a] == rest[a - 1]);
                }
            }
        } else {
            assert(all == rest);
        }
    }
}

/// A program that reads may be asked for exactly where it names a file and
/// each file that it names is in a registered checkout. The files are its
/// operands; the first operand of `grep` is its pattern, and what that
/// leads to does not count.
pub proof fn a_reader_stays_in_the_checkouts(
    argv: Seq<Seq<char>>,
    f: Facts,
    list: Seq<Seq<char>>,
)
    requires
        argv.len() > 0,
        argv[0] == "ls"@ || argv[0] == "cat"@ || argv[0] == "grep"@ || argv[0] == "find"@,
        master_perm::form_fault(argv) is None,
        master_perm::never(argv, f) is None,
    ensures
        ({
            let free = (exists|i: int| #[trigger] is_file(argv, i)) && forall|i: int| #[trigger]
                is_file(argv, i) ==> in_a_checkout(f, i);
            if free {
                master_perm::class(argv, f, list) == ClassView::Requestable(Risk::Low)
            } else {
                master_perm::class(argv, f, list) is Never
            }
        }),
{
    readers_are_plain();
    let all = master_perm::operands(argv, 1);
    let files = master_perm::files(argv);
    operands_are(argv, 1);
    assert forall|k: int| 0 <= k < files.len() implies is_file(argv, #[trigger] files[k]) by {
        if argv[0] == "grep"@ {
            assert(files[k] == all[k + 1]);
            assert(all[0] < all[k + 1]);
            assert(is_operand(argv, all[0]));
        }
        assert(is_operand(argv, files[k]));
    }
    assert forall|i: int| #[trigger] is_file(argv, i) implies files.contains(i) by {
        assert(is_operand(argv, i));
        let k = choose|k: int| 0 <= k < all.len() && all[k] == i;
        if argv[0] == "grep"@ {
            let j = choose|j: int| j < i && #[trigger] is_operand(argv, j);
            let n = choose|n: int| 0 <= n < all.len() && all[n] == j;
            assert(k != 0) by {
                if k == 0 && n > 0 {
                    assert(all[0] < all[n]);
                }
            }
            assert(files[k - 1] == i);
        } else {
            assert(files[k] == i);
        }
    }
    assert forall|i: int| in_a_checkout(f, i) == (f.resolved@[i] is Some
        && master_perm::inside_any(f.resolved@[i]->0@, f.checkouts.deep_view())) by {
        checkout_is_any(f, i);
    }
    let free = (exists|i: int| #[trigger] is_file(argv, i)) && forall|i: int| #[trigger]
        is_file(argv, i) ==> in_a_checkout(f, i);
    if free {
        let i = choose|i: int| #[trigger] is_file(argv, i);
        assert(files.contains(i));
        assert(in_a_checkout(f, i));
        assert forall|k: int| 0 <= k < files.len() implies {
            let i = #[trigger] files[k];
            f.resolved@[i] is Some && master_perm::inside_any(
                f.resolved@[i]->0@,
                f.checkouts.deep_view(),
            )
        } by {
            assert(is_file(argv, files[k]));
            assert(in_a_checkout(f, files[k]));
        }
        assert(master_perm::in_checkouts(argv, f));
    } else if master_perm::in_checkouts(argv, f) {
        assert(is_file(argv, files[0]));
        assert forall|i: int| #[trigger] is_file(argv, i) implies in_a_checkout(f, i) by {
            let k = choose|k: int| 0 <= k < files.len() && files[k] == i;
            assert(f.resolved@[files[k]] is Some);
        }
    }
}

/// `grep` with a pattern and one file of a checkout may be asked for,
/// whatever the pattern leads to.
pub proof fn a_grep_in_a_checkout_may_be_asked_for(
    argv: Seq<Seq<char>>,
    f: Facts,
    list: Seq<Seq<char>>,
)
    requires
        argv.len() == 3,
        argv[0] == "grep"@,
        argv[1].len() > 0 && argv[1][0] != '-',
        argv[2].len() > 0 && argv[2][0] != '-',
        in_a_checkout(f, 2),
        master_perm::form_fault(argv) is None,
        master_perm::never(argv, f) is None,
    ensures
        master_perm::class(argv, f, list) == ClassView::Requestable(Risk::Low),
{
    a_reader_stays_in_the_checkouts(argv, f, list);
    assert(is_operand(argv, 1) && is_operand(argv, 2));
    assert(is_file(argv, 2));
    assert forall|i: int| #[trigger] is_file(argv, i) implies in_a_checkout(f, i) by {
        assert(i == 2);
    }
}

/// A word without a slash that names something is its own tool name.
pub proof fn a_plain_word_names_itself(w: Seq<char>)
    requires
        w.len() > 0,
        !w.contains('/'),
        w != "."@,
        w != ".."@,
    ensures
        master_perm::tool(w) == w,
{
    unsplit(w);
    let f = |p: Seq<char>| paths::named(p);
    let s = text::split(w, '/');
    assert(s =~= seq![w]);
    reveal(Seq::filter);
    assert(s.drop_last() =~= Seq::empty());
    assert(s.drop_last().filter(f) =~= Seq::empty());
    assert(s.filter(f) =~= seq![w]);
    assert(paths::parts(w) =~= seq![w]);
    assert(paths::parts(w).last() == w);
}

proof fn unsplit(w: Seq<char>)
    requires
        !w.contains('/'),
    ensures
        text::split(w, '/') == seq![w],
    decreases w.len(),
{
    if w.len() == 0 {
        assert(w =~= seq![]);
    } else {
        let v = w.drop_last();
        assert(w.last() == w[w.len() - 1]);
        assert forall|i: int| 0 <= i < v.len() implies v[i] != '/' by {
            assert(v[i] == w[i]);
        }
        unsplit(v);
        assert(v.push(w.last()) =~= w);
        assert(seq![v].last() == v);
        assert(seq![v].drop_last() =~= Seq::<Seq<char>>::empty());
        assert(Seq::<Seq<char>>::empty().push(w) =~= seq![w]);
    }
}

proof fn readers_are_plain()
    ensures
        master_perm::tool("ls"@) == "ls"@,
        master_perm::tool("cat"@) == "cat"@,
        master_perm::tool("grep"@) == "grep"@,
        master_perm::tool("find"@) == "find"@,
        master_perm::tool("cadence"@) == "cadence"@,
        "ls"@ != "cadence"@,
        "cat"@ != "cadence"@,
        "grep"@ != "cadence"@,
        "find"@ != "cadence"@,
        "ls"@ != "grep"@,
        "cat"@ != "grep"@,
        "find"@ != "grep"@,
{
    reveal_strlit("ls");
    reveal_strlit("cat");
    reveal_strlit("grep");
    reveal_strlit("find");
    reveal_strlit("cadence");
    reveal_strlit(".");
    reveal_strlit("..");
    assert("ls"@.len() == 2 && "ls"@[0] == 'l' && "ls"@[1] == 's');
    assert("cat"@.len() == 3);
    assert("grep"@.len() == 4 && "grep"@[0] == 'g');
    assert("find"@.len() == 4 && "find"@[0] == 'f');
    assert("cadence"@.len() == 7);
    assert(".."@[0] == '.');
    a_plain_word_names_itself("ls"@);
    a_plain_word_names_itself("cat"@);
    a_plain_word_names_itself("grep"@);
    a_plain_word_names_itself("find"@);
    a_plain_word_names_itself("cadence"@);
}

// ---------- the form of a command ----------

/// A command is one plain command exactly where it has from 1 to 64
/// arguments, none empty nor longer than 512 characters, each of letters,
/// digits and `. _ / = : -`, and 4096 bytes in all with the blanks.
pub proof fn a_plain_command_is_well_formed(argv: Seq<Seq<char>>)
    ensures
        master_perm::form_fault(argv) is None <==> {
            &&& 1 <= argv.len() <= 64
            &&& vstd::utf8::encode_utf8(text::join(argv, " "@)).len() <= 4096
            &&& forall|i: int|
                0 <= i < argv.len() ==> 1 <= (#[trigger] argv[i]).len() <= 512 && forall|k: int|
                    0 <= k < argv[i].len() ==> {
                        let c = #[trigger] argv[i][k];
                        ||| 'a' <= c <= 'z'
                        ||| 'A' <= c <= 'Z'
                        ||| '0' <= c <= '9'
                        ||| c == '.' || c == '_' || c == '/' || c == '=' || c == ':' || c == '-'
                    }
        },
{
    assert forall|i: int| 0 <= i < argv.len() implies master_perm::plain_arg(#[trigger] argv[i])
        == (1 <= argv[i].len() <= 512 && forall|k: int|
        0 <= k < argv[i].len() ==> {
            let c = #[trigger] argv[i][k];
            ||| 'a' <= c <= 'z'
            ||| 'A' <= c <= 'Z'
            ||| '0' <= c <= '9'
            ||| c == '.' || c == '_' || c == '/' || c == '=' || c == ':' || c == '-'
        }) by {
        assert forall|k: int| 0 <= k < argv[i].len() implies master_perm::arg_char(
            #[trigger] argv[i][k],
        ) == ({
            let c = argv[i][k];
            ||| 'a' <= c <= 'z'
            ||| 'A' <= c <= 'Z'
            ||| '0' <= c <= '9'
            ||| c == '.' || c == '_' || c == '/' || c == '=' || c == ':' || c == '-'
        }) by {}
    }
}

// ---------- the verbs of cadence ----------

/// A verb of `cadence` that is neither forbidden nor allowed already may
/// be asked for; one that writes is of high risk, any other of medium.
pub proof fn a_verb_may_be_asked_for(argv: Seq<Seq<char>>, f: Facts, list: Seq<Seq<char>>)
    requires
        argv.len() > 0,
        argv[0] == "cadence"@,
        master_perm::form_fault(argv) is None,
        master_perm::never(argv, f) is None,
        !master_perm::on_allowlist(argv, list),
    ensures
        master_perm::class(argv, f, list) == ClassView::Requestable(
            if argv.contains("new"@) || argv.contains("put"@) || argv.contains("write"@)
                || argv.contains("edit"@) || argv.contains("rm"@) || argv.contains("delete"@)
                || argv.contains("set"@) || argv.contains("dispatch"@) || argv.contains("send"@)
                || argv.contains("remove"@) {
                Risk::High
            } else {
                Risk::Medium
            },
        ),
{
    readers_are_plain();
    let high = exists|i: int| 0 <= i < argv.len() && master_perm::writes(#[trigger] argv[i]);
    if high {
        let i = choose|i: int| 0 <= i < argv.len() && master_perm::writes(#[trigger] argv[i]);
        assert(argv.contains(argv[i]));
    }
}

proof fn tool_of_word(argv: Seq<Seq<char>>, i: int, w: Seq<char>)
    requires
        0 <= i < argv.len(),
        argv[i] == w,
        w.len() > 2,
        !w.contains('/'),
    ensures
        master_perm::tools(argv)[i] == w,
        master_perm::tools(argv).contains(w),
{
    reveal_strlit(".");
    reveal_strlit("..");
    a_plain_word_names_itself(w);
    assert(master_perm::tools(argv)[i] == w);
}

/// No well-formed command with the word `merge` may be asked for, of
/// `cadence` or of `git`; nor a rollout, a secret, an approval of an audit,
/// a stop of the daemon or a decision on a permission, of `cadence`.
pub proof fn what_is_never_asked_for(
    argv: Seq<Seq<char>>,
    f: Facts,
    list: Seq<Seq<char>>,
    i: int,
)
    requires
        0 <= i < argv.len(),
        argv[0] == "cadence"@ || (argv[0] == "git"@ && argv[i] == "merge"@),
        master_perm::form_fault(argv) is None,
        ({
            ||| argv[i] == "merge"@
            ||| argv[i] == "rollout"@
            ||| argv[i] == "secret"@
            ||| argv[i] == "secrets"@
            ||| i + 1 < argv.len() && argv[i] == "daemon"@ && (argv[i + 1] == "restart"@ || argv[i
                + 1] == "stop"@)
            ||| i + 1 < argv.len() && argv[i] == "master"@ && (argv[i + 1] == "allow-once"@ || argv[i
                + 1] == "always-allow"@ || argv[i + 1] == "reject"@ || argv[i + 1]
                == "revoke-permission"@)
            ||| i + 1 < argv.len() && argv[i] == "audit"@ && argv[i + 1] == "approve"@
        }),
    ensures
        master_perm::class(argv, f, list) is Never,
{
    readers_are_plain();
    reveal_strlit("git");
    reveal_strlit("merge");
    reveal_strlit("rollout");
    reveal_strlit("secret");
    reveal_strlit("secrets");
    reveal_strlit("daemon");
    reveal_strlit("restart");
    reveal_strlit("stop");
    reveal_strlit("master");
    reveal_strlit("allow-once");
    reveal_strlit("always-allow");
    reveal_strlit("reject");
    reveal_strlit("revoke-permission");
    reveal_strlit("audit");
    reveal_strlit("approve");
    let t = master_perm::tools(argv);
    assert(!argv[i].contains('/') && argv[i].len() > 2);
    tool_of_word(argv, i, argv[i]);
    if argv[0] == "git"@ {
        assert(!argv[0].contains('/') && argv[0].len() > 2);
        tool_of_word(argv, 0, argv[0]);
    }
    if argv[i] == "secret"@ || argv[i] == "secrets"@ {
        assert(t[i].take("secret"@.len() as int) =~= "secret"@);
        assert(text::begins(t[i], "secret"@));
        assert(master_perm::has_secret(t));
    } else if argv[i] == "merge"@ || argv[i] == "rollout"@ {
        assert(t.contains(argv[i]));
    } else {
        assert(!argv[i + 1].contains('/') && argv[i + 1].len() > 2);
        tool_of_word(argv, i + 1, argv[i + 1]);
        assert(master_perm::pair(t, argv[i], argv[i + 1])) by {
            assert(t[i] == argv[i] && t[i + 1] == argv[i + 1]);
        }
    }
}

/// The master's own files are out of reach for every program.
pub proof fn the_masters_files_are_out_of_reach(
    argv: Seq<Seq<char>>,
    f: Facts,
    list: Seq<Seq<char>>,
    i: int,
    before: Seq<char>,
    after: Seq<char>,
)
    requires
        0 <= i < argv.len(),
        master_perm::form_fault(argv) is None,
        argv[i] == before + "agents/master/SOUL.md"@ + after || argv[i] == before
            + "agents/master/AGENT.md"@ + after || argv[i] == before
            + "agents/master/permissions.yaml"@ + after,
    ensures
        master_perm::class(argv, f, list) is Never,
{
    let a = argv[i];
    let name = if a == before + "agents/master/SOUL.md"@ + after {
        "agents/master/SOUL.md"@
    } else if a == before + "agents/master/AGENT.md"@ + after {
        "agents/master/AGENT.md"@
    } else {
        "agents/master/permissions.yaml"@
    };
    let p = a.map_values(
        |c: char|
            if c == '\\' {
                '/'
            } else {
                c
            },
    );
    assert(master_perm::plain_arg(a));
    assert forall|k: int| 0 <= k < a.len() implies p[k] == a[k] by {
        assert(master_perm::arg_char(a[k]));
    }
    assert(p =~= a);
    assert(a.subrange(before.len() as int, before.len() as int + name.len()) =~= name);
    assert(text::at(p, name, before.len() as int));
    assert(master_perm::protected(a));
}

/// What is forbidden has a reason: a well-formed verb of `cadence` that
/// names none of the forbidden words, no file of the master and nothing in
/// a state directory is allowed already or may be asked for.
pub proof fn only_the_named_are_forbidden(argv: Seq<Seq<char>>, f: Facts, list: Seq<Seq<char>>)
    requires
        argv.len() > 0,
        argv[0] == "cadence"@,
        master_perm::form_fault(argv) is None,
        forall|i: int|
            0 <= i < argv.len() ==> {
                let w = master_perm::tool(#[trigger] argv[i]);
                &&& w != "merge"@ && w != "rollout"@ && w != "restart"@ && w != "stop"@
                &&& w != "allow-once"@ && w != "always-allow"@ && w != "reject"@
                &&& w != "revoke-permission"@ && w != "approve"@
                &&& !text::begins(w, "secret"@)
                &&& !text::holds(argv[i], "agents/master"@)
                &&& !text::holds(argv[i], ".local/state/cadence"@)
                &&& !text::holds(argv[i], ".local/share/cadence"@)
                &&& f.resolved@[i] is Some && forall|k: int|
                    0 <= k < f.state_dirs@.len() ==> !master_perm::inside(
                        f.resolved@[i]->0@,
                        (#[trigger] f.state_dirs@[k])@,
                    )
            },
    ensures
        master_perm::class(argv, f, list) is Requestable || master_perm::class(argv, f, list)
            is Allowlisted,
{
    readers_are_plain();
    let t = master_perm::tools(argv);
    assert forall|i: int| 0 <= i < t.len() implies #[trigger] t[i] == master_perm::tool(argv[i]) by {}
    assert forall|w: Seq<char>| t.contains(w) implies exists|i: int|
        0 <= i < argv.len() && w == master_perm::tool(#[trigger] argv[i]) by {
        let i = choose|i: int| 0 <= i < t.len() && t[i] == w;
        assert(w == master_perm::tool(argv[i]));
    }
    assert forall|a: Seq<char>, b: Seq<char>| #[trigger]
        master_perm::pair(t, a, b) implies t.contains(b) by {
        let i = choose|i: int| 0 <= i < t.len() - 1 && #[trigger] t[i] == a && t[i + 1] == b;
        assert(t[i + 1] == b);
    }
    assert(!master_perm::has_secret(t));
    assert forall|i: int| 0 <= i < argv.len() implies !master_perm::protected(
        #[trigger] argv[i],
    ) by {
        let a = argv[i];
        let p = a.map_values(
            |c: char|
                if c == '\\' {
                    '/'
                } else {
                    c
                },
        );
        assert(master_perm::plain_arg(a));
        assert forall|k: int| 0 <= k < a.len() implies p[k] == a[k] by {
            assert(master_perm::arg_char(a[k]));
        }
        assert(p =~= a);
        assert(master_perm::tool(a) == master_perm::tool(argv[i]));
        longer_holds(a, "/SOUL.md"@, "agents/master/SOUL.md"@);
        longer_holds(a, "/AGENT.md"@, "agents/master/AGENT.md"@);
        longer_holds(a, "/permissions.yaml"@, "agents/master/permissions.yaml"@);
    }
    assert forall|i: int| 0 <= i < argv.len() implies !#[trigger] master_perm::names_state(
        f,
        argv,
        i,
    ) by {
        let w = master_perm::tool(argv[i]);
        let dirs = f.state_dirs.deep_view();
        let p = f.resolved@[i]->0@;
        if master_perm::inside_any(p, dirs) {
            let k = choose|k: int| 0 <= k < dirs.len() && master_perm::inside(p, #[trigger] dirs[k]);
            assert(master_perm::inside(p, f.state_dirs@[k]@));
        }
    }
}

proof fn longer_holds(a: Seq<char>, tail: Seq<char>, whole: Seq<char>)
    requires
        whole == "agents/master"@ + tail || (tail == "/SOUL.md"@ && whole
            == "agents/master/SOUL.md"@) || (tail == "/AGENT.md"@ && whole
            == "agents/master/AGENT.md"@) || (tail == "/permissions.yaml"@ && whole
            == "agents/master/permissions.yaml"@),
    ensures
        text::holds(a, whole) ==> text::holds(a, "agents/master"@),
{
    reveal_strlit("agents/master");
    reveal_strlit("agents/master/SOUL.md");
    reveal_strlit("agents/master/AGENT.md");
    reveal_strlit("agents/master/permissions.yaml");
    let head = "agents/master"@;
    assert(head.len() <= whole.len() && whole.take(head.len() as int) =~= head);
    if text::holds(a, whole) {
        let i = choose|i: int| #[trigger] text::at(a, whole, i);
        let x = a.subrange(i, i + whole.len());
        assert(x == whole);
        assert(a.subrange(i, i + head.len()) =~= x.take(head.len() as int));
        assert(text::at(a, head, i));
    }
}

} // verus!
