//! What the allowlist lets run and how a program is named, told by the words.
use crate::master_perm;
use crate::master_perm::Facts;
use crate::paths;
use crate::text;
use crate::text_laws;
use vstd::prelude::*;

verus! {

/// An entry without a star at its end is the words in its brackets behind the
/// first; one with a star behind a space is those words and more.
pub proof fn what_an_entry_wants(stem: Seq<char>)
    requires
        text::words(stem).len() >= 2,
        stem.len() > 0,
        stem[stem.len() - 1] != '*',
    ensures
        master_perm::wanted("Bash("@ + stem + ")"@) == Some(
            (text::words(stem).drop_first(), false),
        ),
        master_perm::wanted("Bash("@ + stem + " *)"@) == Some(
            (text::words(stem).drop_first(), true),
        ),
{
    reveal_strlit("Bash(");
    reveal_strlit(")");
    reveal_strlit(" *)");
    reveal_strlit(" *");
    let a = "Bash("@ + stem + ")"@;
    text_laws::what_a_text_holds(a, "Bash("@, stem + ")"@);
    assert("Bash("@ + (stem + ")"@) =~= a);
    let t = a.skip(5);
    assert(t =~= stem + ")"@);
    assert(t.drop_last() =~= stem);
    if text::ends(stem, " *"@) {
        assert(stem.subrange(stem.len() - 2, stem.len() as int)[1] == '*');
        assert(false);
    }
    let b = "Bash("@ + stem + " *)"@;
    text_laws::what_a_text_holds(b, "Bash("@, stem + " *)"@);
    assert("Bash("@ + (stem + " *)"@) =~= b);
    let u = b.skip(5);
    assert(u =~= stem + " *)"@);
    let inner = u.drop_last();
    assert(inner =~= stem + " *"@);
    text_laws::what_a_text_holds(stem, " *"@, seq![]);
    assert(inner.take(inner.len() - 2) =~= stem);
}

/// What is no such entry wants nothing, and allows nothing.
pub proof fn what_is_no_entry(entry: Seq<char>, argv: Seq<Seq<char>>)
    requires
        !text::begins(entry, "Bash("@) || entry[entry.len() - 1] != ')',
    ensures
        !master_perm::entry_allows(entry, argv),
{
    reveal_strlit("Bash(");
    if text::begins(entry, "Bash("@) {
        let t = entry.skip(5);
        if t.len() > 0 {
            assert(t.last() == entry[entry.len() - 1]);
        }
    }
}

/// The words behind the program are those, one by one.
pub open spec fn says(argv: Seq<Seq<char>>, words: Seq<Seq<char>>) -> bool {
    forall|i: int| 0 < i < words.len() ==> #[trigger] argv[i] == words[i]
}

/// An entry allows the command of its words; one with a star the commands that
/// begin with them and go on.
pub proof fn what_an_entry_allows(stem: Seq<char>, argv: Seq<Seq<char>>)
    requires
        text::words(stem).len() >= 2,
        stem.len() > 0,
        stem[stem.len() - 1] != '*',
        argv.len() > 0,
    ensures
        ({
            let w = text::words(stem);
            &&& master_perm::entry_allows("Bash("@ + stem + ")"@, argv) <==> argv.len() == w.len()
                && says(argv, w)
            &&& master_perm::entry_allows("Bash("@ + stem + " *)"@, argv) <==> argv.len() > w.len()
                && says(argv, w)
        }),
{
    what_an_entry_wants(stem);
    let w = text::words(stem);
    let (rest, want) = (argv.drop_first(), w.drop_first());
    if want.len() <= rest.len() {
        if master_perm::starts(rest, want) {
            assert forall|i: int| 0 < i < w.len() implies #[trigger] argv[i] == w[i] by {
                assert(rest.take(want.len() as int)[i - 1] == want[i - 1]);
            }
        }
        if says(argv, w) {
            assert forall|i: int| 0 <= i < want.len() implies rest.take(want.len() as int)[i]
                == want[i] by {
                assert(argv[i + 1] == w[i + 1]);
            }
            assert(rest.take(want.len() as int) =~= want);
        }
    }
}

/// The allowlist is of this program alone, and one entry is enough.
pub proof fn one_entry_is_enough(argv: Seq<Seq<char>>, list: Seq<Seq<char>>, i: int)
    requires
        0 <= i < list.len(),
        argv.len() > 0,
        master_perm::entry_allows(list[i], argv),
    ensures
        master_perm::on_allowlist(argv, list) <==> master_perm::tool(argv[0]) == "cadence"@,
{
}

/// Where no entry allows it, a command is not on the list.
pub proof fn without_an_entry_nothing_is_allowed(argv: Seq<Seq<char>>, list: Seq<Seq<char>>)
    requires
        forall|i: int| 0 <= i < list.len() ==> !master_perm::entry_allows(#[trigger] list[i], argv),
    ensures
        !master_perm::on_allowlist(argv, list),
{
}

/// A program is named by the last step of its path; this one and the readers
/// are kept under that name, and no other word of a command changes.
pub proof fn a_program_is_named_by_its_last_step(
    argv: Seq<Seq<char>>,
    dir: Seq<char>,
    name: Seq<char>,
)
    requires
        argv.len() > 0,
        argv[0] == dir + seq!['/'] + name,
        !name.contains('/'),
        name.len() > 0,
        name != "."@,
        name != ".."@,
    ensures
        ({
            let n = master_perm::normal(argv);
            let known = name == "cadence"@ || name == "ls"@ || name == "cat"@ || name == "grep"@
                || name == "find"@;
            &&& n.len() == argv.len()
            &&& forall|i: int| 1 <= i < argv.len() ==> #[trigger] n[i] == argv[i]
            &&& known ==> n[0] == name
            &&& !known ==> n[0] == argv[0]
        }),
{
    text_laws::a_name_is_one_more_step(dir, name);
    let p = paths::parts(argv[0]);
    assert(p.last() == name);
    assert(master_perm::tool(argv[0]) == name);
}

/// The argument leads into a directory of the daemon's state.
pub open spec fn leads_into_state(f: Facts, i: int) -> bool {
    f.resolved@[i] is Some && exists|k: int|
        0 <= k < f.state_dirs@.len() && master_perm::inside(
            f.resolved@[i]->0@,
            (#[trigger] f.state_dirs@[k])@,
        )
}

/// A command that names the daemon's state, by the usual places or by where an
/// argument leads, touches it.
pub proof fn what_touches_the_state(f: Facts, argv: Seq<Seq<char>>, i: int)
    requires
        0 <= i < argv.len(),
        text::holds(argv[i], ".local/state/cadence"@) || text::holds(
            argv[i],
            ".local/share/cadence"@,
        ) || leads_into_state(f, i),
    ensures
        master_perm::touches(f, argv),
{
    if leads_into_state(f, i) {
        let k = choose|k: int|
            0 <= k < f.state_dirs@.len() && master_perm::inside(
                f.resolved@[i]->0@,
                (#[trigger] f.state_dirs@[k])@,
            );
        assert(f.state_dirs.deep_view()[k] == f.state_dirs@[k]@);
    }
    assert(master_perm::names_state(f, argv, i));
}

/// A command all of whose arguments lead elsewhere touches it not.
pub proof fn what_leaves_the_state_alone(f: Facts, argv: Seq<Seq<char>>)
    requires
        forall|i: int|
            0 <= i < argv.len() ==> f.resolved@[i] is Some && !leads_into_state(f, i)
                && !text::holds(#[trigger] argv[i], ".local/state/cadence"@) && !text::holds(
                argv[i],
                ".local/share/cadence"@,
            ),
    ensures
        !master_perm::touches(f, argv),
{
    assert forall|i: int| 0 <= i < argv.len() implies !#[trigger] master_perm::names_state(
        f,
        argv,
        i,
    ) by {
        assert(!text::holds(argv[i], ".local/state/cadence"@));
        let d = f.state_dirs.deep_view();
        if master_perm::inside_any(f.resolved@[i]->0@, d) {
            let k = choose|k: int|
                0 <= k < d.len() && master_perm::inside(f.resolved@[i]->0@, #[trigger] d[k]);
            assert(d[k] == f.state_dirs@[k]@);
            assert(leads_into_state(f, i));
        }
    }
}

/// A path that does not exist yet touches the state where it would come to lie
/// in it and says so by how it begins, or is written from outside.
pub proof fn what_would_touch_the_state(
    f: Facts,
    argv: Seq<Seq<char>>,
    i: int,
    k: int,
)
    requires
        0 <= i < argv.len(),
        f.resolved@[i] is None,
        0 <= k < f.state_dirs@.len(),
        master_perm::lands(paths::join(f.cwd@, argv[i]), f.state_dirs@[k]@),
        (argv[i].len() > 0 && (argv[i][0] == '/' || argv[i][0] == '.')) || !master_perm::inside(
            f.cwd@,
            f.state_dirs@[k]@,
        ),
    ensures
        master_perm::touches(f, argv),
{
    let d = f.state_dirs.deep_view();
    assert(d[k] == f.state_dirs@[k]@);
    assert(master_perm::would_touch(f.cwd@, argv[i], d[k]));
    assert(master_perm::names_state(f, argv, i));
}

/// A well-formed command that touches the state can neither run by the list
/// nor be asked for.
pub proof fn the_state_is_out_of_reach(
    argv: Seq<Seq<char>>,
    f: Facts,
    list: Seq<Seq<char>>,
)
    requires
        master_perm::form_fault(argv) is None,
        master_perm::touches(f, argv),
    ensures
        master_perm::class(argv, f, list) is Never,
{
}

/// The rules of an agent lie in its directory of the project board.
pub proof fn where_the_rules_are(dir: Seq<char>, alias: Seq<char>)
    requires
        dir.len() > 0,
        dir[dir.len() - 1] != '/',
        master_perm::alias(alias),
    ensures
        master_perm::rules_path(dir, alias) == dir + "/agents/"@ + alias + "/permissions.yaml"@,
{
    reveal_strlit("/");
    reveal_strlit("agents");
    reveal_strlit("/agents/");
    reveal_strlit("permissions.yaml");
    reveal_strlit("/permissions.yaml");
    assert(master_perm::alias_char(alias[0]));
    assert(master_perm::alias_char(alias[alias.len() - 1]));
    let a = dir + "/"@ + "agents"@;
    assert(paths::join(dir, "agents"@) == a);
    assert(a.last() == 's');
    let b = a + "/"@ + alias;
    assert(alias[0] != '/');
    assert(paths::join(a, alias) == b);
    assert(b.last() == alias[alias.len() - 1]);
    let c = b + "/"@ + "permissions.yaml"@;
    assert("permissions.yaml"@[0] == 'p');
    assert(paths::join(b, "permissions.yaml"@) == c);
    assert(c =~= dir + "/agents/"@ + alias + "/permissions.yaml"@);
}

} // verus!
